//! The style resolver: computes each node's visual style by merging tag
//! defaults with the inline `style=""` attribute's declarations.  Unknown
//! keys and malformed values are skipped, leaving the prior value intact.

use vstd::prelude::*;
use crate::dom::{
    attr_lookup_spec, attrs_view, death, dies, find_attr, lemma_death_bound, lemma_death_child,
    lemma_find_key_props, Dom, ElementData, NodeData, NodeType,
};
use crate::engine::{Display, EdgeSizes, Style};
use crate::renderer::Color;
use crate::text::{
    all_digits, chars_eq, clone_chars, dec_value, lower_chars, lower_spec, parse_dec,
    split_chars, split_once_chars, split_once_spec, split_spec, str_to_chars, strip_px,
    strip_px_spec, tokens_chars, tokens_spec, trim_chars, trim_spec,
};

verus! {

/// The mathematical value of a `Style`.
pub struct StyleSpec {
    pub display: Display,
    pub background: Option<Color>,
    pub border_color: Option<Color>,
    pub border_width: u64,
    pub margin: EdgeSizes,
    pub padding: EdgeSizes,
    pub font_size: u64,
    pub font_family: Seq<char>,
    pub color: Color,
}

impl View for Style {
    type V = StyleSpec;

    open spec fn view(&self) -> StyleSpec {
        StyleSpec {
            display: self.display,
            background: self.background,
            border_color: self.border_color,
            border_width: self.border_width,
            margin: self.margin,
            padding: self.padding,
            font_size: self.font_size,
            font_family: self.font_family@,
            color: self.color,
        }
    }
}

// ----------------------------------------------------------------------------
// colors
// ----------------------------------------------------------------------------
/// Value of a hexadecimal digit, or -1.
pub open spec fn hex_val(c: char) -> int {
    let u = c as u32;
    if 48 <= u && u <= 57 {
        u - 48
    } else if 97 <= u && u <= 102 {
        u - 87
    } else if 65 <= u && u <= 70 {
        u - 55
    } else {
        -1
    }
}

pub open spec fn is_hex(c: char) -> bool {
    hex_val(c) >= 0
}

pub open spec fn hex_byte(a: char, b: char) -> int {
    hex_val(a) * 16 + hex_val(b)
}

/// Six hex digits make an opaque color; anything else is no match.
pub open spec fn hex_color_spec(h: Seq<char>) -> Option<Color> {
    if h.len() == 6 && (forall|i: int| 0 <= i < 6 ==> is_hex(#[trigger] h[i])) {
        Some(
            Color(
                hex_byte(h[0], h[1]) as u8,
                hex_byte(h[2], h[3]) as u8,
                hex_byte(h[4], h[5]) as u8,
                255,
            ),
        )
    } else {
        None
    }
}

fn hex_digit(c: char) -> (r: Option<u8>)
    ensures
        r matches Some(v) ==> is_hex(c) && v == hex_val(c),
        r is None ==> !is_hex(c),
{
    let u = c as u32;
    if 48 <= u && u <= 57 {
        Some((u - 48) as u8)
    } else if 97 <= u && u <= 102 {
        Some((u - 87) as u8)
    } else if 65 <= u && u <= 70 {
        Some((u - 55) as u8)
    } else {
        None
    }
}

fn hex_pair(a: char, b: char) -> (r: Option<u8>)
    ensures
        r matches Some(v) ==> is_hex(a) && is_hex(b) && v == hex_byte(a, b),
        r is None ==> !(is_hex(a) && is_hex(b)),
{
    match (hex_digit(a), hex_digit(b)) {
        (Some(x), Some(y)) => Some(x * 16 + y),
        _ => None,
    }
}

/// Convert a six-digit hex string (no leading `#`) to an opaque color.
pub fn hex_to_color(hex: &Vec<char>) -> (r: Option<Color>)
    ensures
        r == hex_color_spec(hex@),
{
    if hex.len() != 6 {
        return None;
    }
    let p0 = hex_pair(hex[0], hex[1]);
    let p1 = hex_pair(hex[2], hex[3]);
    let p2 = hex_pair(hex[4], hex[5]);
    match (p0, p1, p2) {
        (Some(rr), Some(gg), Some(bb)) => {
            proof {
                assert(forall|i: int| 0 <= i < 6 ==> is_hex(#[trigger] hex@[i]));
            }
            Some(Color(rr, gg, bb, 255))
        },
        _ => None,
    }
}

/// A fixed set of named colors plus 6-digit `#rrggbb`; anything else is no
/// match and the caller keeps its prior value.
pub open spec fn color_spec(value: Seq<char>) -> Option<Color> {
    let v = lower_spec(trim_spec(value));
    if v == "black"@ {
        Some(Color(0, 0, 0, 255))
    } else if v == "white"@ {
        Some(Color(255, 255, 255, 255))
    } else if v == "red"@ {
        Some(Color(255, 0, 0, 255))
    } else if v == "green"@ {
        Some(Color(0, 255, 0, 255))
    } else if v == "blue"@ {
        Some(Color(0, 0, 255, 255))
    } else if v.len() > 0 && v[0] == '#' {
        hex_color_spec(v.skip(1))
    } else {
        None
    }
}

/// Parse a color name or `#rrggbb` value.
pub fn parse_color(value: &Vec<char>) -> (r: Option<Color>)
    ensures
        r == color_spec(value@),
{
    let t = trim_chars(value);
    let v = lower_chars(&t);
    if chars_eq(&v, "black") {
        Some(Color(0, 0, 0, 255))
    } else if chars_eq(&v, "white") {
        Some(Color(255, 255, 255, 255))
    } else if chars_eq(&v, "red") {
        Some(Color(255, 0, 0, 255))
    } else if chars_eq(&v, "green") {
        Some(Color(0, 255, 0, 255))
    } else if chars_eq(&v, "blue") {
        Some(Color(0, 0, 255, 255))
    } else if v.len() > 0 && v[0] == '#' {
        let rest = crate::text::subvec(&v, 1, v.len());
        proof {
            assert(rest@ =~= lower_spec(trim_spec(value@)).skip(1));
        }
        hex_to_color(&rest)
    } else {
        None
    }
}

// ----------------------------------------------------------------------------
// pixel sizes and borders
// ----------------------------------------------------------------------------
/// A non-negative integer pixel count, with any trailing `px` stripped.
pub open spec fn px_spec(v: Seq<char>) -> Option<u64> {
    let d = strip_px_spec(v);
    if d.len() > 0 && all_digits(d) && dec_value(d) <= u64::MAX {
        Some(dec_value(d) as u64)
    } else {
        None
    }
}

fn parse_px(v: &Vec<char>) -> (r: Option<u64>)
    ensures
        r == px_spec(v@),
{
    let d = strip_px(v);
    parse_dec(&d)
}

/// A border shorthand: width-with-`px`, an ignored style keyword, a color.
/// Any other shape is no match.
pub open spec fn border_spec(value: Seq<char>) -> Option<(u64, Color)> {
    let parts = tokens_spec(value);
    if parts.len() == 3 {
        match (px_spec(parts[0]), color_spec(parts[2])) {
            (Some(w), Some(c)) => Some((w, c)),
            _ => None,
        }
    } else {
        None
    }
}

/// Parse a border shorthand such as a width, a style keyword and a color.
pub fn parse_border(value: &Vec<char>) -> (r: Option<(u64, Color)>)
    ensures
        r == border_spec(value@),
{
    let parts = tokens_chars(value);
    if parts.len() != 3 {
        return None;
    }
    proof {
        assert(parts@[0]@ == tokens_spec(value@)[0]);
        assert(parts@[2]@ == tokens_spec(value@)[2]);
    }
    let w = parse_px(&parts[0]);
    let c = parse_color(&parts[2]);
    match (w, c) {
        (Some(w), Some(c)) => Some((w, c)),
        _ => None,
    }
}

// ----------------------------------------------------------------------------
// the cascade: tag defaults, then inline declarations
// ----------------------------------------------------------------------------
/// The generic default: inline display, 16-unit Arial, black text, no box
/// decoration.
pub open spec fn generic_default() -> StyleSpec {
    StyleSpec {
        display: Display::Inline,
        background: None,
        border_color: None,
        border_width: 0,
        margin: EdgeSizes { top: 0, right: 0, bottom: 0, left: 0 },
        padding: EdgeSizes { top: 0, right: 0, bottom: 0, left: 0 },
        font_size: 16,
        font_family: "Arial"@,
        color: Color(0, 0, 0, 255),
    }
}

/// Per-tag default styles; a tag absent from the table gets the generic
/// default.
pub open spec fn tag_default_spec(tag: Seq<char>) -> StyleSpec {
    if tag == "body"@ {
        StyleSpec {
            display: Display::Block,
            background: Some(Color(255, 255, 255, 255)),
            border_color: None,
            border_width: 0,
            margin: EdgeSizes { top: 0, right: 0, bottom: 0, left: 0 },
            padding: EdgeSizes { top: 8, right: 8, bottom: 8, left: 8 },
            font_size: 16,
            font_family: "Arial"@,
            color: Color(30, 30, 30, 255),
        }
    } else if tag == "h1"@ {
        StyleSpec {
            display: Display::Block,
            background: None,
            border_color: None,
            border_width: 0,
            margin: EdgeSizes { top: 12, right: 12, bottom: 12, left: 12 },
            padding: EdgeSizes { top: 6, right: 6, bottom: 6, left: 6 },
            font_size: 32,
            font_family: "Georgia"@,
            color: Color(50, 50, 50, 255),
        }
    } else if tag == "p"@ {
        StyleSpec {
            display: Display::Block,
            background: None,
            border_color: None,
            border_width: 0,
            margin: EdgeSizes { top: 8, right: 8, bottom: 8, left: 8 },
            padding: EdgeSizes { top: 4, right: 4, bottom: 4, left: 4 },
            font_size: 16,
            font_family: "Serif"@,
            color: Color(20, 20, 20, 255),
        }
    } else if tag == "div"@ {
        StyleSpec {
            display: Display::Block,
            background: None,
            border_color: None,
            border_width: 0,
            margin: EdgeSizes { top: 6, right: 6, bottom: 6, left: 6 },
            padding: EdgeSizes { top: 6, right: 6, bottom: 6, left: 6 },
            font_size: 14,
            font_family: "Sans-serif"@,
            color: Color(0, 0, 0, 255),
        }
    } else {
        generic_default()
    }
}

/// Apply one `key:value` declaration; unknown keys and malformed values
/// leave the style untouched.
pub open spec fn apply_decl_spec(st: StyleSpec, decl: Seq<char>) -> StyleSpec {
    match split_once_spec(decl, ':') {
        None => st,
        Some(kv) => {
            let k = lower_spec(trim_spec(kv.0));
            let v = trim_spec(kv.1);
            if k == "color"@ {
                match color_spec(v) {
                    Some(c) => StyleSpec { color: c, ..st },
                    None => st,
                }
            } else if k == "background"@ || k == "background-color"@ {
                match color_spec(v) {
                    Some(c) => StyleSpec { background: Some(c), ..st },
                    None => st,
                }
            } else if k == "font-size"@ {
                match px_spec(v) {
                    Some(n) => if n > 0 {
                        StyleSpec { font_size: n, ..st }
                    } else {
                        st
                    },
                    None => st,
                }
            } else if k == "font-family"@ {
                StyleSpec { font_family: v, ..st }
            } else if k == "border"@ {
                match border_spec(v) {
                    Some(wc) => StyleSpec { border_width: wc.0, border_color: Some(wc.1), ..st },
                    None => st,
                }
            } else {
                st
            }
        },
    }
}

pub open spec fn apply_decls_spec(st: StyleSpec, decls: Seq<Seq<char>>) -> StyleSpec
    decreases decls.len(),
{
    if decls.len() == 0 {
        st
    } else {
        apply_decls_spec(apply_decl_spec(st, decls[0]), decls.drop_first())
    }
}

/// Apply a whole inline `style` attribute: `;`-separated declarations, in
/// order.
pub open spec fn apply_inline_spec(st: StyleSpec, inline: Seq<char>) -> StyleSpec {
    apply_decls_spec(st, split_spec(inline, ';'))
}

proof fn lemma_apply_decls_snoc(st: StyleSpec, decls: Seq<Seq<char>>, i: int)
    requires
        0 <= i < decls.len(),
    ensures
        apply_decls_spec(st, decls.take(i + 1)) == apply_decl_spec(
            apply_decls_spec(st, decls.take(i)),
            decls[i],
        ),
    decreases i,
{
    if i == 0 {
        assert(decls.take(1)[0] == decls[0]);
        assert(decls.take(1).drop_first() =~= decls.take(0));
        assert(decls.take(0).len() == 0);
        let st2 = apply_decl_spec(st, decls[0]);
        assert(apply_decls_spec(st, decls.take(1)) == apply_decls_spec(st2, decls.take(0)));
        assert(apply_decls_spec(st2, decls.take(0)) == st2);
        assert(apply_decls_spec(st, decls.take(0)) == st);
    } else {
        let st2 = apply_decl_spec(st, decls[0]);
        lemma_apply_decls_snoc(st2, decls.drop_first(), i - 1);
        assert(decls.take(i + 1)[0] == decls[0]);
        assert(decls.take(i + 1).drop_first() =~= decls.drop_first().take(i));
        assert(decls.take(i)[0] == decls[0]);
        assert(decls.take(i).drop_first() =~= decls.drop_first().take(i - 1));
        assert(decls.drop_first()[i - 1] == decls[i]);
        assert(apply_decls_spec(st, decls.take(i + 1)) == apply_decls_spec(
            st2,
            decls.drop_first().take(i),
        ));
        assert(apply_decls_spec(st, decls.take(i)) == apply_decls_spec(
            st2,
            decls.drop_first().take(i - 1),
        ));
    }
}

/// Apply one declaration to the style in place.
fn apply_declaration(style: &mut Style, decl: &Vec<char>)
    ensures
        final(style)@ == apply_decl_spec(old(style)@, decl@),
{
    let kv = split_once_chars(decl, ':');
    match kv {
        None => {},
        Some((k0, v0)) => {
            let k1 = trim_chars(&k0);
            let k = lower_chars(&k1);
            let v = trim_chars(&v0);
            if chars_eq(&k, "color") {
                match parse_color(&v) {
                    Some(c) => {
                        style.color = c;
                    },
                    None => {},
                }
            } else if chars_eq(&k, "background") || chars_eq(&k, "background-color") {
                match parse_color(&v) {
                    Some(c) => {
                        style.background = Some(c);
                    },
                    None => {},
                }
            } else if chars_eq(&k, "font-size") {
                match parse_px(&v) {
                    Some(n) => {
                        if n > 0 {
                            style.font_size = n;
                        }
                    },
                    None => {},
                }
            } else if chars_eq(&k, "font-family") {
                style.font_family = v;
            } else if chars_eq(&k, "border") {
                match parse_border(&v) {
                    Some((w, c)) => {
                        style.border_width = w;
                        style.border_color = Some(c);
                    },
                    None => {},
                }
            }
        },
    }
}

/// Parse and apply an inline `style` attribute's declarations, in order.
pub fn apply_inline_styles(style: &mut Style, inline: &Vec<char>)
    ensures
        final(style)@ == apply_inline_spec(old(style)@, inline@),
{
    let ghost decls = split_spec(inline@, ';');
    let segs = split_chars(inline, ';');
    let mut i: usize = 0;
    proof {
        assert(decls.take(0).len() == 0);
    }
    while i < segs.len()
        invariant
            0 <= i <= segs@.len(),
            segs.deep_view() == decls,
            segs@.len() == decls.len(),
            style@ == apply_decls_spec(old(style)@, decls.take(i as int)),
        decreases segs@.len() - i,
    {
        proof {
            assert(segs@[i as int]@ == decls[i as int]);
            lemma_apply_decls_snoc(old(style)@, decls, i as int);
        }
        apply_declaration(style, &segs[i]);
        i = i + 1;
    }
    proof {
        assert(decls.take(decls.len() as int) =~= decls);
    }
}

/// The generic default style as a value.
pub fn default_text_style() -> (r: Style)
    ensures
        r@ == generic_default(),
{
    Style {
        display: Display::Inline,
        background: None,
        border_color: None,
        border_width: 0,
        margin: EdgeSizes { top: 0, right: 0, bottom: 0, left: 0 },
        padding: EdgeSizes { top: 0, right: 0, bottom: 0, left: 0 },
        font_size: 16,
        font_family: str_to_chars("Arial"),
        color: Color(0, 0, 0, 255),
    }
}

/// The generic default with display removed: comments contribute nothing to
/// layout or paint.
pub fn none_style() -> (r: Style)
    ensures
        r@ == (StyleSpec { display: Display::Hidden, ..generic_default() }),
{
    let mut r = default_text_style();
    r.display = Display::Hidden;
    r
}

/// The style of one element: its tag default, then its inline declarations.
pub open spec fn element_style_spec(tag: Seq<char>, attrs: Seq<(Seq<char>, Seq<char>)>) -> StyleSpec {
    let base = tag_default_spec(tag);
    match attr_lookup_spec(attrs, "style"@) {
        None => base,
        Some(v) => apply_inline_spec(base, v),
    }
}

/// Choose the tag default and apply any inline `style` attribute.
pub fn compute_style_for_element(el: &ElementData) -> (r: Style)
    ensures
        r@ == element_style_spec(el.tag_name@, attrs_view(el.attrs)),
{
    let mut style: Style;
    if chars_eq(&el.tag_name, "body") {
        style = Style {
            display: Display::Block,
            background: Some(Color(255, 255, 255, 255)),
            border_color: None,
            border_width: 0,
            margin: EdgeSizes { top: 0, right: 0, bottom: 0, left: 0 },
            padding: EdgeSizes { top: 8, right: 8, bottom: 8, left: 8 },
            font_size: 16,
            font_family: str_to_chars("Arial"),
            color: Color(30, 30, 30, 255),
        };
    } else if chars_eq(&el.tag_name, "h1") {
        style = Style {
            display: Display::Block,
            background: None,
            border_color: None,
            border_width: 0,
            margin: EdgeSizes { top: 12, right: 12, bottom: 12, left: 12 },
            padding: EdgeSizes { top: 6, right: 6, bottom: 6, left: 6 },
            font_size: 32,
            font_family: str_to_chars("Georgia"),
            color: Color(50, 50, 50, 255),
        };
    } else if chars_eq(&el.tag_name, "p") {
        style = Style {
            display: Display::Block,
            background: None,
            border_color: None,
            border_width: 0,
            margin: EdgeSizes { top: 8, right: 8, bottom: 8, left: 8 },
            padding: EdgeSizes { top: 4, right: 4, bottom: 4, left: 4 },
            font_size: 16,
            font_family: str_to_chars("Serif"),
            color: Color(20, 20, 20, 255),
        };
    } else if chars_eq(&el.tag_name, "div") {
        style = Style {
            display: Display::Block,
            background: None,
            border_color: None,
            border_width: 0,
            margin: EdgeSizes { top: 6, right: 6, bottom: 6, left: 6 },
            padding: EdgeSizes { top: 6, right: 6, bottom: 6, left: 6 },
            font_size: 14,
            font_family: str_to_chars("Sans-serif"),
            color: Color(0, 0, 0, 255),
        };
    } else {
        style = default_text_style();
    }
    proof {
        assert(style@ == tag_default_spec(el.tag_name@));
        lemma_find_key_props(attrs_view(el.attrs), "style"@);
    }
    let style_key = str_to_chars("style");
    match find_attr(&el.attrs, &style_key) {
        Some(i) => {
            proof {
                assert(attrs_view(el.attrs)[i as int].1 == el.attrs@[i as int].1@);
            }
            apply_inline_styles(&mut style, &el.attrs[i].1);
        },
        None => {},
    }
    style
}

// ----------------------------------------------------------------------------
// the styled tree
// ----------------------------------------------------------------------------
/// A document node annotated with its computed style.
#[derive(Debug)]
pub struct StyledNode {
    pub node_type: NodeType,
    pub style: Style,
    pub children: Vec<StyledNode>,
}

/// The two node payloads carry the same text, tag and attributes.
pub open spec fn same_node_type(a: NodeType, b: NodeType) -> bool {
    match (a, b) {
        (NodeType::Text(x), NodeType::Text(y)) => x@ == y@,
        (NodeType::Comment(x), NodeType::Comment(y)) => x@ == y@,
        (NodeType::Element(e1), NodeType::Element(e2)) => e1.tag_name@ == e2.tag_name@
            && attrs_view(e1.attrs) == attrs_view(e2.attrs),
        _ => false,
    }
}

/// The style a node must resolve to: tag defaults plus inline declarations
/// for elements, the generic default for text, and display removed for
/// comments.
pub open spec fn node_style_spec(s: Seq<NodeData>, i: int) -> StyleSpec {
    match s[i].node_type {
        NodeType::Element(ed) => element_style_spec(ed.tag_name@, attrs_view(ed.attrs)),
        NodeType::Text(_) => generic_default(),
        NodeType::Comment(_) => StyleSpec { display: Display::Hidden, ..generic_default() },
    }
}

/// The styled tree mirrors the document tree node for node: the same payload,
/// the same child count and order, and the resolved style at every node.
#[verifier::opaque]
pub open spec fn styled_ok(sn: StyledNode, s: Seq<NodeData>, i: int) -> bool
    decreases sn,
{
    &&& 0 <= i < s.len()
    &&& same_node_type(sn.node_type, s[i].node_type)
    &&& sn.style@ == node_style_spec(s, i)
    &&& sn.children@.len() == s[i].children@.len()
    &&& forall|j: int|
        0 <= j < sn.children@.len() ==> styled_ok(
            #[trigger] sn.children@[j],
            s,
            s[i].children@[j] as int,
        )
}

/// The document tree and its styled tree have identical shape: at every node
/// the same payload and the same children in the same order.
pub proof fn lemma_styled_shape(sn: StyledNode, s: Seq<NodeData>, i: int)
    requires
        styled_ok(sn, s, i),
    ensures
        same_node_type(sn.node_type, s[i].node_type),
        sn.children@.len() == s[i].children@.len(),
        forall|j: int|
            0 <= j < sn.children@.len() ==> styled_ok(
                #[trigger] sn.children@[j],
                s,
                s[i].children@[j] as int,
            ),
{
    reveal(styled_ok);
}

pub(crate) fn clone_attrs(attrs: &Vec<(Vec<char>, Vec<char>)>) -> (r: Vec<(Vec<char>, Vec<char>)>)
    ensures
        attrs_view(r) == attrs_view(*attrs),
{
    let mut r: Vec<(Vec<char>, Vec<char>)> = Vec::new();
    let mut i: usize = 0;
    while i < attrs.len()
        invariant
            0 <= i <= attrs@.len(),
            r@.len() == i,
            attrs_view(r) == attrs_view(*attrs).take(i as int),
        decreases attrs@.len() - i,
    {
        let k0 = clone_chars(&attrs[i].0);
        let v0 = clone_chars(&attrs[i].1);
        let ghost pre_r = r@;
        r.push((k0, v0));
        proof {
            assert forall|j: int|
                0 <= j < i + 1 implies attrs_view(r)[j] == attrs_view(*attrs).take(i + 1)[j] by {
                if j < i {
                    assert(r@[j] == pre_r[j]);
                    assert(attrs_view(r)[j] == attrs_view(*attrs).take(i as int)[j]);
                } else {
                    assert(r@[j] == (k0, v0));
                    assert(attrs_view(r)[j] == (k0@, v0@));
                    assert(attrs_view(*attrs)[j] == (attrs@[j].0@, attrs@[j].1@));
                }
            }
            assert(attrs_view(r) =~~= attrs_view(*attrs).take(i + 1));
        }
        i = i + 1;
    }
    proof {
        assert(attrs_view(*attrs).take(attrs@.len() as int) =~= attrs_view(*attrs));
    }
    r
}

fn clone_node_type(t: &NodeType) -> (r: NodeType)
    ensures
        same_node_type(r, *t),
{
    match t {
        NodeType::Text(x) => NodeType::Text(clone_chars(x)),
        NodeType::Comment(x) => NodeType::Comment(clone_chars(x)),
        NodeType::Element(ed) => NodeType::Element(
            ElementData { tag_name: clone_chars(&ed.tag_name), attrs: clone_attrs(&ed.attrs) },
        ),
    }
}

/// Compute the styled tree of the subtree rooted at `id`.
pub fn compute_styles(dom: &Dom, id: usize) -> (r: StyledNode)
    requires
        dom.wf(),
        id < dom.nodes@.len(),
    ensures
        styled_ok(r, dom.nodes@, id as int),
    decreases dom.nodes@.len() - death(dom.nodes@, id as int),
{
    proof {
        lemma_death_bound(dom.nodes@, id as int);
    }
    let nref = &dom.nodes[id];
    let style = match &nref.node_type {
        NodeType::Element(ed) => compute_style_for_element(ed),
        NodeType::Text(_) => default_text_style(),
        NodeType::Comment(_) => none_style(),
    };
    let node_type_copy = clone_node_type(&nref.node_type);
    let kids = dom.children(id);
    let mut children: Vec<StyledNode> = Vec::new();
    let mut i: usize = 0;
    while i < kids.len()
        invariant
            dom.wf(),
            id < dom.nodes@.len(),
            kids@ == dom.nodes@[id as int].children@,
            0 <= i <= kids@.len(),
            children@.len() == i,
            forall|j: int|
                0 <= j < i ==> styled_ok(#[trigger] children@[j], dom.nodes@, kids@[j] as int),
        decreases kids@.len() - i,
    {
        let c = kids[i];
        proof {
            assert(dom.nodes@[id as int].children@[i as int] == c);
            assert((c as int) < dom.nodes@.len() && dom.nodes@[c as int].parent == Some(id));
            assert(dies(dom.nodes@, id as int));
            lemma_death_child(dom.nodes@, c as int, id);
            lemma_death_bound(dom.nodes@, c as int);
        }
        let sn = compute_styles(dom, c);
        children.push(sn);
        i = i + 1;
    }
    let r = StyledNode { node_type: node_type_copy, style, children };
    proof {
        reveal(styled_ok);
        assert(r.children@.len() == dom.nodes@[id as int].children@.len());
        assert(r.style@ == node_style_spec(dom.nodes@, id as int));
    }
    r
}

} // verus!
