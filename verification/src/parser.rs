//! The markup parser: recursive descent over a character buffer, producing a
//! document tree.  Malformed input — a mismatched closing tag, an unterminated
//! attribute value, a missing `=` or quote — aborts the whole parse; no
//! partial tree is ever returned.

use vstd::prelude::*;
use crate::dom::{
    attr_set_spec, attrs_view, element, find_attr, AttrMap, Dom, NodeData, NodeType,
};
use crate::text::{
    is_name_char, is_space_char, lower_spec, name_char, space_char, trim_end_spec,
    trim_spec, trim_start_spec,
};

verus! {

/// A fatal parse failure: the structure of the input is broken.
#[derive(Debug, Clone, Copy, PartialEq, Eq, Structural)]
pub enum StructuralParseError {
    /// The input ended where a character was required.
    UnexpectedEnd,
    /// A closing tag did not match the open element's tag.
    TagMismatch,
    /// An attribute was missing its `=`.
    MissingEquals,
    /// An attribute value was missing a quote or its closing quote.
    BadQuote,
    /// A character was not the one the grammar requires.
    UnexpectedChar,
}

/// A parsed node, as a mathematical value.
pub enum ParsedNode {
    Text(Seq<char>),
    Element { tag: Seq<char>, attrs: Seq<(Seq<char>, Seq<char>)>, children: Seq<ParsedNode> },
}

/// Remaining input length, clamped at zero.
pub open spec fn rem(s: Seq<char>, pos: int) -> int {
    if pos <= s.len() {
        s.len() - pos
    } else {
        0
    }
}

/// Number of whitespace characters at `pos`.
pub open spec fn ws_len(s: Seq<char>, pos: int) -> nat
    decreases rem(s, pos),
{
    if 0 <= pos < s.len() && is_space_char(s[pos]) {
        1 + ws_len(s, pos + 1)
    } else {
        0
    }
}

/// The alphanumeric run at `pos` (a tag or attribute name).
pub open spec fn name_at(s: Seq<char>, pos: int) -> Seq<char>
    decreases rem(s, pos),
{
    if 0 <= pos < s.len() && is_name_char(s[pos]) {
        seq![s[pos]] + name_at(s, pos + 1)
    } else {
        Seq::empty()
    }
}

/// The run of characters at `pos` up to (excluding) the next `t`, or to the
/// end of input.
pub open spec fn until_at(s: Seq<char>, pos: int, t: char) -> Seq<char>
    decreases rem(s, pos),
{
    if 0 <= pos < s.len() && s[pos] != t {
        seq![s[pos]] + until_at(s, pos + 1, t)
    } else {
        Seq::empty()
    }
}

/// A quoted attribute value at `pos`: a quote character, a run without it,
/// the same quote again.  Yields the value and the position after the
/// closing quote.
pub open spec fn attr_value_at(s: Seq<char>, pos: int) -> Option<(Seq<char>, int)> {
    if 0 <= pos < s.len() && (s[pos] == '"' || s[pos] == '\'') {
        let q = s[pos];
        let v = until_at(s, pos + 1, q);
        let close = pos + 1 + v.len();
        if close < s.len() {
            Some((v, close + 1))
        } else {
            None
        }
    } else {
        None
    }
}

/// The attribute list of an open tag: repeatedly skip whitespace and read
/// `name = "value"` pairs (either quote; they must match), until `>`.
/// A later duplicate key replaces the earlier value.
pub open spec fn attrs_at(s: Seq<char>, pos: int, acc: Seq<(Seq<char>, Seq<char>)>) -> Option<
    (Seq<(Seq<char>, Seq<char>)>, int),
>
    decreases rem(s, pos),
{
    let p0 = pos + ws_len(s, pos);
    if !(0 <= pos) || p0 >= s.len() {
        None
    } else if s[p0] == '>' {
        Some((acc, p0))
    } else {
        let name = name_at(s, p0);
        let p1 = p0 + name.len();
        let p2 = p1 + ws_len(s, p1);
        if p2 < s.len() && s[p2] == '=' {
            let p3 = p2 + 1 + ws_len(s, p2 + 1);
            match attr_value_at(s, p3) {
                Some(vp) => attrs_at(s, vp.1, attr_set_spec(acc, name, vp.0)),
                None => None,
            }
        } else {
            None
        }
    }
}

/// One node at `pos`: an element if the next character is `<`, else a text
/// run up to the next `<`.
pub open spec fn node_at(s: Seq<char>, pos: int) -> Option<(ParsedNode, int)>
    decreases rem(s, pos), 1int,
{
    if !(0 <= pos < s.len()) {
        None
    } else if s[pos] == '<' {
        element_at(s, pos)
    } else {
        let t = until_at(s, pos, '<');
        Some((ParsedNode::Text(t), pos + t.len()))
    }
}

proof fn lemma_attrs_at_ge(s: Seq<char>, pos: int, acc: Seq<(Seq<char>, Seq<char>)>)
    ensures
        attrs_at(s, pos, acc) matches Some(ap) ==> ap.1 >= pos && ap.1 < s.len(),
    decreases rem(s, pos),
{
    let p0 = pos + ws_len(s, pos);
    if !(0 <= pos) || p0 >= s.len() {
    } else if s[p0] == '>' {
    } else {
        let name = name_at(s, p0);
        let p1 = p0 + name.len();
        let p2 = p1 + ws_len(s, p1);
        if p2 < s.len() && s[p2] == '=' {
            let p3 = p2 + 1 + ws_len(s, p2 + 1);
            match attr_value_at(s, p3) {
                Some(vp) => {
                    lemma_attrs_at_ge(s, vp.1, attr_set_spec(acc, name, vp.0));
                },
                None => {},
            }
        }
    }
}

#[via_fn]
proof fn element_at_dec(s: Seq<char>, pos: int) {
    if 0 <= pos < s.len() && s[pos] == '<' {
        lemma_attrs_at_ge(s, pos + 1 + name_at(s, pos + 1).len(), Seq::empty());
    }
}

/// An element at `pos`: `<`, tag name, attributes, `>`, children, then a
/// matching `</tag>`.
pub open spec fn element_at(s: Seq<char>, pos: int) -> Option<(ParsedNode, int)>
    decreases rem(s, pos), 0int,
    via element_at_dec
{
    if !(0 <= pos < s.len() && s[pos] == '<') {
        None
    } else {
        let tag = name_at(s, pos + 1);
        let p1 = pos + 1 + tag.len();
        match attrs_at(s, p1, Seq::empty()) {
            None => None,
            Some(ap) => {
                let p2 = ap.1;  // at '>'
                match nodes_at(s, p2 + 1) {
                    None => None,
                    Some(cp) => {
                        let p3 = cp.1;
                        if p3 + 1 < s.len() && s[p3] == '<' && s[p3 + 1] == '/' {
                            let ctag = name_at(s, p3 + 2);
                            let p4 = p3 + 2 + ctag.len();
                            if ctag == tag && p4 < s.len() && s[p4] == '>' {
                                Some(
                                    (
                                        ParsedNode::Element {
                                            tag,
                                            attrs: ap.0,
                                            children: cp.0,
                                        },
                                        p4 + 1,
                                    ),
                                )
                            } else {
                                None
                            }
                        } else {
                            None
                        }
                    },
                }
            },
        }
    }
}

/// A sequence of sibling nodes: skip whitespace, stop at the end of input or
/// at a closing-tag marker `</`, else one node and then the rest.
pub open spec fn nodes_at(s: Seq<char>, pos: int) -> Option<(Seq<ParsedNode>, int)>
    decreases rem(s, pos), 2int,
{
    if !(0 <= pos) {
        None
    } else {
        let p0 = pos + ws_len(s, pos);
        if p0 >= s.len() || (s[p0] == '<' && p0 + 1 < s.len() && s[p0 + 1] == '/') {
            Some((Seq::empty(), p0))
        } else {
            match node_at(s, p0) {
                None => None,
                Some(np) => {
                    if np.1 > p0 {
                        match nodes_at(s, np.1) {
                            None => None,
                            Some(rp) => Some((seq![np.0] + rp.0, rp.1)),
                        }
                    } else {
                        None
                    }
                },
            }
        }
    }
}

/// The whole document: the top-level siblings; exactly one root is returned
/// as is, any other count is wrapped in an implicit `html` element.
pub open spec fn parse_spec(s: Seq<char>) -> Option<ParsedNode> {
    match nodes_at(s, 0) {
        None => None,
        Some(np) => {
            if np.0.len() == 1 {
                Some(np.0[0])
            } else {
                Some(ParsedNode::Element { tag: "html"@, attrs: Seq::empty(), children: np.0 })
            }
        },
    }
}

// ----------------------------------------------------------------------------
// the executable parser
// ----------------------------------------------------------------------------
/// A parsed tree held as plain values before it is poured into an arena.
enum ParsedTree {
    Text(Vec<char>),
    Element { tag: Vec<char>, attrs: AttrMap, children: Vec<ParsedTree> },
}

/// The executable tree carries the same text, tags and attributes as the
/// parsed mathematical tree.
spec fn tree_matches(t: ParsedTree, g: ParsedNode) -> bool
    decreases t,
{
    match (t, g) {
        (ParsedTree::Text(v), ParsedNode::Text(s)) => v@ == s,
        (
            ParsedTree::Element { tag, attrs, children },
            ParsedNode::Element { tag: gtag, attrs: gattrs, children: gchildren },
        ) => {
            &&& tag@ == gtag
            &&& attrs_view(attrs) == gattrs
            &&& children@.len() == gchildren.len()
            &&& forall|j: int|
                0 <= j < children@.len() ==> tree_matches(
                    #[trigger] children@[j],
                    gchildren[j],
                )
        },
        _ => false,
    }
}

/// Markup parser state: the input characters and a cursor.
#[derive(Debug)]
pub struct HTMLParser {
    pub input: Vec<char>,
    pub pos: usize,
}

impl HTMLParser {
    /// A parser over the given input, cursor at the start.
    pub fn new(input: &str) -> (r: Self)
        ensures
            r.input@ == input@,
            r.pos == 0,
    {
        HTMLParser { input: crate::text::str_to_chars(input), pos: 0 }
    }

    fn consume_whitespace(&mut self)
        requires
            old(self).pos <= old(self).input@.len(),
        ensures
            final(self).input@ == old(self).input@,
            final(self).pos == old(self).pos + ws_len(old(self).input@, old(self).pos as int),
            final(self).pos <= final(self).input@.len(),
    {
        let ghost s = self.input@;
        let ghost pos0 = self.pos as int;
        while self.pos < self.input.len() && space_char(self.input[self.pos])
            invariant
                self.input@ == s,
                pos0 <= self.pos <= s.len(),
                ws_len(s, pos0) == (self.pos - pos0) + ws_len(s, self.pos as int),
            decreases s.len() - self.pos,
        {
            proof {
                assert(ws_len(s, self.pos as int) == 1 + ws_len(s, self.pos + 1));
            }
            self.pos = self.pos + 1;
        }
        proof {
            assert(ws_len(s, self.pos as int) == 0);
        }
    }

    fn parse_tag_name(&mut self) -> (r: Vec<char>)
        requires
            old(self).pos <= old(self).input@.len(),
        ensures
            final(self).input@ == old(self).input@,
            r@ == name_at(old(self).input@, old(self).pos as int),
            final(self).pos == old(self).pos + r@.len(),
            final(self).pos <= final(self).input@.len(),
    {
        let ghost s = self.input@;
        let ghost pos0 = self.pos as int;
        let mut r: Vec<char> = Vec::new();
        while self.pos < self.input.len() && name_char(self.input[self.pos])
            invariant
                self.input@ == s,
                pos0 <= self.pos <= s.len(),
                r@.len() == self.pos - pos0,
                name_at(s, pos0) == r@ + name_at(s, self.pos as int),
            decreases s.len() - self.pos,
        {
            let c = self.input[self.pos];
            proof {
                assert(name_at(s, self.pos as int) == seq![c] + name_at(s, self.pos + 1));
                assert(r@ + (seq![c] + name_at(s, self.pos + 1)) =~= r@.push(c) + name_at(
                    s,
                    self.pos + 1,
                ));
            }
            r.push(c);
            self.pos = self.pos + 1;
        }
        proof {
            assert(name_at(s, self.pos as int) == Seq::<char>::empty());
            assert(r@ + Seq::<char>::empty() =~= r@);
        }
        r
    }

    fn consume_until(&mut self, t: char) -> (r: Vec<char>)
        requires
            old(self).pos <= old(self).input@.len(),
        ensures
            final(self).input@ == old(self).input@,
            r@ == until_at(old(self).input@, old(self).pos as int, t),
            final(self).pos == old(self).pos + r@.len(),
            final(self).pos <= final(self).input@.len(),
            final(self).pos < final(self).input@.len() ==> final(self).input@[final(self).pos as int]
                == t,
    {
        let ghost s = self.input@;
        let ghost pos0 = self.pos as int;
        let mut r: Vec<char> = Vec::new();
        while self.pos < self.input.len() && self.input[self.pos] != t
            invariant
                self.input@ == s,
                pos0 <= self.pos <= s.len(),
                r@.len() == self.pos - pos0,
                until_at(s, pos0, t) == r@ + until_at(s, self.pos as int, t),
            decreases s.len() - self.pos,
        {
            let c = self.input[self.pos];
            proof {
                assert(until_at(s, self.pos as int, t) == seq![c] + until_at(s, self.pos + 1, t));
                assert(r@ + (seq![c] + until_at(s, self.pos + 1, t)) =~= r@.push(c) + until_at(
                    s,
                    self.pos + 1,
                    t,
                ));
            }
            r.push(c);
            self.pos = self.pos + 1;
        }
        proof {
            assert(until_at(s, self.pos as int, t) == Seq::<char>::empty());
            assert(r@ + Seq::<char>::empty() =~= r@);
        }
        r
    }

    fn parse_attr_value(&mut self) -> (r: Result<Vec<char>, StructuralParseError>)
        requires
            old(self).pos <= old(self).input@.len(),
        ensures
            final(self).input@ == old(self).input@,
            final(self).pos <= final(self).input@.len(),
            match attr_value_at(old(self).input@, old(self).pos as int) {
                None => r is Err,
                Some(vp) => r matches Ok(v) && v@ == vp.0 && final(self).pos == vp.1,
            },
    {
        let ghost s = self.input@;
        if self.pos >= self.input.len() {
            return Err(StructuralParseError::BadQuote);
        }
        let q = self.input[self.pos];
        if q != '"' && q != '\'' {
            return Err(StructuralParseError::BadQuote);
        }
        self.pos = self.pos + 1;
        let v = self.consume_until(q);
        if self.pos >= self.input.len() {
            return Err(StructuralParseError::BadQuote);
        }
        self.pos = self.pos + 1;
        Ok(v)
    }

    /// Parse `name = "value"` pairs until the closing `>` of the open tag;
    /// the cursor is left on the `>`.
    fn parse_attributes(&mut self, acc: AttrMap) -> (r: Result<AttrMap, StructuralParseError>)
        requires
            old(self).pos <= old(self).input@.len(),
        ensures
            final(self).input@ == old(self).input@,
            final(self).pos <= final(self).input@.len(),
            match attrs_at(old(self).input@, old(self).pos as int, attrs_view(acc)) {
                None => r is Err,
                Some(ap) => r matches Ok(m) && attrs_view(m) == ap.0 && final(self).pos == ap.1
                    && final(self).pos < final(self).input@.len()
                    && final(self).input@[final(self).pos as int] == '>',
            },
        decreases rem(old(self).input@, old(self).pos as int),
{
        let ghost s = self.input@;
        let ghost pos0 = self.pos as int;
        self.consume_whitespace();
        if self.pos >= self.input.len() {
            return Err(StructuralParseError::UnexpectedEnd);
        }
        if self.input[self.pos] == '>' {
            return Ok(acc);
        }
        let mut acc = acc;
        let name = self.parse_tag_name();
        self.consume_whitespace();
        if self.pos >= self.input.len() || self.input[self.pos] != '=' {
            return Err(StructuralParseError::MissingEquals);
        }
        self.pos = self.pos + 1;
        self.consume_whitespace();
        let ghost p3 = self.pos as int;
        let value = match self.parse_attr_value() {
            Ok(v) => v,
            Err(e) => {
                return Err(e);
            },
        };
        let ghost m0 = attrs_view(acc);
        proof {
            crate::dom::lemma_find_key_props(m0, name@);
        }
        match find_attr(&acc, &name) {
            Some(i) => {
                acc.remove(i);
                acc.insert(i, (name, value));
                proof {
                    assert(attrs_view(acc) =~~= attr_set_spec(m0, name@, value@));
                }
            },
            None => {
                acc.push((name, value));
                proof {
                    assert(attrs_view(acc) =~~= attr_set_spec(m0, name@, value@));
                }
            },
        }
        proof {
            assert(attr_value_at(s, p3) == Some((value@, self.pos as int)));
            assert(attrs_at(s, pos0, m0) == attrs_at(
                s,
                self.pos as int,
                attr_set_spec(m0, name@, value@),
            ));
        }
        self.parse_attributes(acc)
    }

    /// Parse one node: an element after `<`, else a text run.
    fn parse_node(&mut self) -> (r: Result<ParsedTree, StructuralParseError>)
        requires
            old(self).pos <= old(self).input@.len(),
        ensures
            final(self).input@ == old(self).input@,
            final(self).pos <= final(self).input@.len(),
            match node_at(old(self).input@, old(self).pos as int) {
                None => r is Err,
                Some(np) => r matches Ok(t) && tree_matches(t, np.0) && final(self).pos == np.1
                    && final(self).pos > old(self).pos,
            },
        decreases rem(old(self).input@, old(self).pos as int), 1int,
    {
        if self.pos >= self.input.len() {
            return Err(StructuralParseError::UnexpectedEnd);
        }
        if self.input[self.pos] == '<' {
            self.parse_element()
        } else {
            let t = self.consume_until('<');
            proof {
                assert(t@.len() > 0);
            }
            Ok(ParsedTree::Text(t))
        }
    }

    /// Parse `<tag attrs>children</tag>`; a tag-name mismatch at the closing
    /// tag is a fatal failure.
    fn parse_element(&mut self) -> (r: Result<ParsedTree, StructuralParseError>)
        requires
            old(self).pos <= old(self).input@.len(),
        ensures
            final(self).input@ == old(self).input@,
            final(self).pos <= final(self).input@.len(),
            match element_at(old(self).input@, old(self).pos as int) {
                None => r is Err,
                Some(ep) => r matches Ok(t) && tree_matches(t, ep.0) && final(self).pos == ep.1
                    && final(self).pos > old(self).pos,
            },
        decreases rem(old(self).input@, old(self).pos as int), 0int,
    {
        let ghost s = self.input@;
        let ghost pos0 = self.pos as int;
        if self.pos >= self.input.len() || self.input[self.pos] != '<' {
            return Err(StructuralParseError::UnexpectedChar);
        }
        self.pos = self.pos + 1;
        let tag = self.parse_tag_name();
        let empty_attrs: AttrMap = Vec::new();
        proof {
            assert(attrs_view(empty_attrs) =~= Seq::<(Seq<char>, Seq<char>)>::empty());
        }
        let attrs = match self.parse_attributes(empty_attrs) {
            Ok(m) => m,
            Err(e) => {
                return Err(e);
            },
        };
        proof {
            lemma_attrs_at_ge(s, pos0 + 1 + tag@.len(), Seq::empty());
        }
        // the cursor is on '>'
        self.pos = self.pos + 1;
        let children = match self.parse_nodes() {
            Ok(v) => v,
            Err(e) => {
                return Err(e);
            },
        };
        let remaining = self.input.len() - self.pos;
        if remaining < 2 || self.input[self.pos] != '<' || self.input[self.pos + 1] != '/' {
            return Err(StructuralParseError::TagMismatch);
        }
        self.pos = self.pos + 2;
        let close_tag = self.parse_tag_name();
        if !crate::text::chars_eq_chars(&close_tag, &tag) {
            return Err(StructuralParseError::TagMismatch);
        }
        if self.pos >= self.input.len() || self.input[self.pos] != '>' {
            return Err(StructuralParseError::UnexpectedChar);
        }
        self.pos = self.pos + 1;
        Ok(ParsedTree::Element { tag, attrs, children })
    }

    /// Parse sibling nodes until the end of input or a closing-tag marker.
    fn parse_nodes(&mut self) -> (r: Result<Vec<ParsedTree>, StructuralParseError>)
        requires
            old(self).pos <= old(self).input@.len(),
        ensures
            final(self).input@ == old(self).input@,
            final(self).pos <= final(self).input@.len(),
            match nodes_at(old(self).input@, old(self).pos as int) {
                None => r is Err,
                Some(np) => r matches Ok(v) && v@.len() == np.0.len() && (forall|j: int|
                    0 <= j < v@.len() ==> tree_matches(#[trigger] v@[j], np.0[j]))
                    && final(self).pos == np.1 && final(self).pos >= old(self).pos,
            },
        decreases rem(old(self).input@, old(self).pos as int), 2int,
    {
        let ghost s = self.input@;
        let ghost pos0 = self.pos as int;
        self.consume_whitespace();
        let ghost p0 = self.pos as int;
        if self.pos >= self.input.len() || (self.input[self.pos] == '<' && self.pos + 1
            < self.input.len() && self.input[self.pos + 1] == '/') {
            let r: Vec<ParsedTree> = Vec::new();
            return Ok(r);
        }
        let t = match self.parse_node() {
            Ok(t) => t,
            Err(e) => {
                return Err(e);
            },
        };
        let mut rest = match self.parse_nodes() {
            Ok(v) => v,
            Err(e) => {
                return Err(e);
            },
        };
        rest.insert(0, t);
        proof {
            let np = node_at(s, p0).unwrap();
            let rp = nodes_at(s, np.1).unwrap();
            assert(rest@[0] == t);
            assert(forall|j: int| 1 <= j < rest@.len() ==> (seq![np.0] + rp.0)[j] == rp.0[j - 1]);
        }
        Ok(rest)
    }

    /// Parse the whole input into a document tree.  Exactly one top-level
    /// node becomes the root; any other count is wrapped in an implicit
    /// `html` element.  A malformed document yields an error and no tree.
    pub fn parse(&mut self) -> (r: Result<(Dom, usize), StructuralParseError>)
        requires
            old(self).pos == 0,
        ensures
            match parse_spec(old(self).input@) {
                None => r is Err,
                Some(g) => r matches Ok(p) && p.0.wf() && (p.1 as int) < p.0.nodes@.len()
                    && dom_mirrors(p.0.nodes@, p.1 as int, g),
            },
    {
        let ghost s = self.input@;
        let mut nodes = match self.parse_nodes() {
            Ok(v) => v,
            Err(e) => {
                return Err(e);
            },
        };
        let ghost np = nodes_at(s, 0).unwrap();
        let mut dom = Dom::new();
        if nodes.len() == 1 {
            let t = nodes.remove(0);
            let id = dom_from_parsed(&mut dom, &t, Ghost(np.0[0]));
            Ok((dom, id))
        } else {
            let mut ids: Vec<usize> = Vec::new();
            let mut k: usize = 0;
            while k < nodes.len()
                invariant
                    dom.wf(),
                    0 <= k <= nodes@.len(),
                    nodes@.len() == np.0.len(),
                    forall|j: int| 0 <= j < nodes@.len() ==> tree_matches(#[trigger] nodes@[j], np.0[j]),
                    ids@.len() == k,
                    forall|j1: int, j2: int| 0 <= j1 < j2 < k ==> ids@[j1] != ids@[j2],
                    forall|j: int|
                        0 <= j < k ==> (#[trigger] ids@[j] as int) < dom.nodes@.len()
                            && dom.nodes@[ids@[j] as int].parent is None && dom_mirrors(
                            dom.nodes@,
                            ids@[j] as int,
                            np.0[j],
                        ),
                decreases nodes@.len() - k,
            {
                let ghost pre = dom.nodes@;
                let id = dom_from_parsed(&mut dom, &nodes[k], Ghost(np.0[k as int]));
                proof {
                    assert forall|j: int|
                        0 <= j < k implies (#[trigger] ids@[j] as int) < dom.nodes@.len()
                        && dom.nodes@[ids@[j] as int].parent is None && dom_mirrors(
                        dom.nodes@,
                        ids@[j] as int,
                        np.0[j],
                    ) by {
                        assert(dom.nodes@[ids@[j] as int] == pre[ids@[j] as int]);
                        lemma_dom_mirrors_frame(pre, dom.nodes@, ids@[j] as int, np.0[j]);
                    }
                }
                ids.push(id);
                k = k + 1;
            }
            let ghost pre = dom.nodes@;
            let empty_attrs: AttrMap = Vec::new();
            proof {
                assert(attrs_view(empty_attrs) =~= Seq::<(Seq<char>, Seq<char>)>::empty());
            }
            let root = element(&mut dom, "html", empty_attrs, &ids);
            proof {
                reveal_strlit("html");
                assert(trim_start_spec("html"@) == "html"@);
                assert(trim_end_spec("html"@) == "html"@);
                assert forall|i: int|
                    0 <= i < lower_spec("html"@).len() implies lower_spec("html"@)[i]
                    == "html"@[i] by {}
                assert(lower_spec(trim_spec("html"@)) =~= "html"@);
                assert forall|j: int| 0 <= j < ids@.len() implies dom_mirrors(
                    dom.nodes@,
                    ids@[j] as int,
                    np.0[j],
                ) by {
                    lemma_dom_mirrors_frame(pre, dom.nodes@, ids@[j] as int, np.0[j]);
                }
                assert(dom_mirrors(dom.nodes@, root as int, parse_spec(s).unwrap()));
            }
            Ok((dom, root))
        }
    }
}

// ----------------------------------------------------------------------------
// pouring a parsed tree into an arena
// ----------------------------------------------------------------------------
/// The arena subtree at `i` carries the parsed tree `t`: the same payloads,
/// tag names normalized, the same children in the same order.
pub open spec fn dom_mirrors(s: Seq<NodeData>, i: int, t: ParsedNode) -> bool
    decreases t,
{
    &&& 0 <= i < s.len()
    &&& match t {
        ParsedNode::Text(txt) => s[i].node_type matches NodeType::Text(c) && c@ == txt
            && s[i].children@.len() == 0,
        ParsedNode::Element { tag, attrs, children } => {
            &&& s[i].node_type matches NodeType::Element(ed) && ed.tag_name@ == lower_spec(
                trim_spec(tag),
            ) && attrs_view(ed.attrs) == attrs
            &&& s[i].children@.len() == children.len()
            &&& forall|j: int|
                0 <= j < children.len() ==> dom_mirrors(
                    s,
                    s[i].children@[j] as int,
                    #[trigger] children[j],
                )
        },
    }
}

/// Mirroring is untouched by edits that leave every existing node's payload
/// and child list as they were (parent references may change freely).
proof fn lemma_dom_mirrors_frame(s1: Seq<NodeData>, s2: Seq<NodeData>, i: int, t: ParsedNode)
    requires
        dom_mirrors(s1, i, t),
        s2.len() >= s1.len(),
        forall|j: int|
            0 <= j < s1.len() ==> (#[trigger] s2[j]).node_type == s1[j].node_type
                && s2[j].children@ == s1[j].children@,
    ensures
        dom_mirrors(s2, i, t),
    decreases t,
{
    match t {
        ParsedNode::Text(_) => {},
        ParsedNode::Element { tag, attrs, children } => {
            assert forall|j: int| 0 <= j < children.len() implies dom_mirrors(
                s2,
                s1[i].children@[j] as int,
                #[trigger] children[j],
            ) by {
                lemma_dom_mirrors_frame(s1, s2, s1[i].children@[j] as int, children[j]);
            }
        },
    }
}

spec fn tsize(t: ParsedTree) -> nat
    decreases t,
{
    match t {
        ParsedTree::Text(_) => 1nat,
        ParsedTree::Element { children, .. } => 1 + tsize_list(children@),
    }
}

spec fn tsize_list(s: Seq<ParsedTree>) -> nat
    decreases s,
{
    if s.len() == 0 {
        0
    } else {
        tsize(s[0]) + tsize_list(s.drop_first())
    }
}

proof fn lemma_tsize_elem(s: Seq<ParsedTree>, i: int)
    requires
        0 <= i < s.len(),
    ensures
        tsize_list(s) >= tsize(s[i]),
    decreases i,
{
    if i > 0 {
        lemma_tsize_elem(s.drop_first(), i - 1);
        assert(s.drop_first()[i - 1] == s[i]);
    }
}

/// Build the parsed tree inside the arena; the returned node is a fresh root.
fn dom_from_parsed(dom: &mut Dom, t: &ParsedTree, g: Ghost<ParsedNode>) -> (id: usize)
    requires
        old(dom).wf(),
        tree_matches(*t, g@),
    ensures
        final(dom).wf(),
        final(dom).nodes@.len() > old(dom).nodes@.len(),
        old(dom).nodes@.len() <= id as int,
        (id as int) < final(dom).nodes@.len(),
        final(dom).nodes@[id as int].parent is None,
        dom_mirrors(final(dom).nodes@, id as int, g@),
        forall|j: int| 0 <= j < old(dom).nodes@.len() ==> final(dom).nodes@[j] == old(dom).nodes@[j],
    decreases tsize(*t),
{
    match t {
        ParsedTree::Text(content) => {
            let id = dom.new_node(NodeType::Text(crate::text::clone_chars(content)));
            proof {
                assert forall|j: int| 0 <= j < old(dom).nodes@.len() implies dom.nodes@[j] == old(
                    dom,
                ).nodes@[j] by {}
                assert(dom_mirrors(dom.nodes@, id as int, g@));
            }
            id
        },
        ParsedTree::Element { tag, attrs, children } => {
            let ghost gchildren = (match g@ {
                ParsedNode::Element { children: gc, .. } => gc,
                _ => Seq::empty(),
            });
            let mut ids: Vec<usize> = Vec::new();
            let mut k: usize = 0;
            while k < children.len()
                invariant
                    dom.wf(),
                    *t == (ParsedTree::Element { tag: *tag, attrs: *attrs, children: *children }),
                    children@.len() == gchildren.len(),
                    forall|j: int|
                        0 <= j < children@.len() ==> tree_matches(
                            #[trigger] children@[j],
                            gchildren[j],
                        ),
                    0 <= k <= children@.len(),
                    ids@.len() == k,
                    dom.nodes@.len() >= old(dom).nodes@.len(),
                    forall|j: int|
                        0 <= j < old(dom).nodes@.len() ==> (#[trigger] dom.nodes@[j]) == old(
                            dom,
                        ).nodes@[j],
                    forall|j1: int, j2: int| 0 <= j1 < j2 < k ==> ids@[j1] != ids@[j2],
                    forall|j: int|
                        0 <= j < k ==> (#[trigger] ids@[j] as int) < dom.nodes@.len()
                            && (ids@[j] as int) >= old(dom).nodes@.len()
                            && dom.nodes@[ids@[j] as int].parent is None && dom_mirrors(
                            dom.nodes@,
                            ids@[j] as int,
                            gchildren[j],
                        ),
                decreases children@.len() - k,
            {
                let ghost pre = dom.nodes@;
                proof {
                    assert(tree_matches(children@[k as int], gchildren[k as int]));
                    assert(tsize(*t) == 1 + tsize_list(children@));
                    lemma_tsize_elem(children@, k as int);
                }
                let cid = dom_from_parsed(dom, &children[k], Ghost(gchildren[k as int]));
                proof {
                    assert forall|j: int|
                        0 <= j < k implies (#[trigger] ids@[j] as int) < dom.nodes@.len()
                        && dom.nodes@[ids@[j] as int].parent is None && dom_mirrors(
                        dom.nodes@,
                        ids@[j] as int,
                        gchildren[j],
                    ) by {
                        assert(dom.nodes@[ids@[j] as int] == pre[ids@[j] as int]);
                        lemma_dom_mirrors_frame(pre, dom.nodes@, ids@[j] as int, gchildren[j]);
                    }
                }
                ids.push(cid);
                k = k + 1;
            }
            let ghost pre = dom.nodes@;
            let id = crate::dom::element_from_chars(
                dom,
                crate::text::clone_chars(tag),
                crate::style::clone_attrs(attrs),
                &ids,
            );
            proof {
                assert forall|j: int| 0 <= j < ids@.len() implies dom_mirrors(
                    dom.nodes@,
                    ids@[j] as int,
                    gchildren[j],
                ) by {
                    lemma_dom_mirrors_frame(pre, dom.nodes@, ids@[j] as int, gchildren[j]);
                }
                assert(dom_mirrors(dom.nodes@, id as int, g@));
                assert forall|j: int| 0 <= j < old(dom).nodes@.len() implies dom.nodes@[j] == old(
                    dom,
                ).nodes@[j] by {
                    if ids@.contains(j as usize) {
                        let tt = choose|tt: int| 0 <= tt < ids@.len() && ids@[tt] == j as usize;
                        assert(ids@[tt] as int >= old(dom).nodes@.len());
                    }
                }
            }
            id
        },
    }
}

/// Parse markup into a document tree, yielding the arena and the root id.
pub fn parse_html(input: &str) -> (r: Result<(Dom, usize), StructuralParseError>)
    ensures
        match parse_spec(input@) {
            None => r is Err,
            Some(g) => r matches Ok(p) && p.0.wf() && (p.1 as int) < p.0.nodes@.len()
                && dom_mirrors(p.0.nodes@, p.1 as int, g),
        },
{
    let mut parser = HTMLParser::new(input);
    parser.parse()
}

} // verus!
