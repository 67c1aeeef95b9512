//! End-to-end tests of the document pipeline: parsing, tree mutation, style
//! resolution, layout and the painter's display list.

use rusty_browser::dom::{element, Dom, NodeType, TreeInvariantViolation};
use rusty_browser::engine::{build_layout_tree, default_style, edges, sample_dom_tree, Display, EdgeSizes, Node, NodeType as LayoutNodeType, Style};
use rusty_browser::parser::parse_html;
use rusty_browser::renderer::{display_list, Color, LayoutBox, PaintCmd, TextNode};
use rusty_browser::style::{compute_styles, hex_to_color, parse_border, parse_color, StyledNode};

fn chars(s: &str) -> Vec<char> {
    s.chars().collect()
}

fn string_of(v: &Vec<char>) -> String {
    v.iter().collect()
}

// ---------------------------------------------------------------------------
// parsing
// ---------------------------------------------------------------------------
#[test]
fn parse_simple_document() {
    let (dom, root) = parse_html("<div><p style=\"color:red;\">Hi</p></div>").unwrap();
    assert_eq!(string_of(&dom.tag_name(root).unwrap()), "div");
    let kids = dom.children(root);
    assert_eq!(kids.len(), 1);
    let p = kids[0];
    assert_eq!(string_of(&dom.tag_name(p).unwrap()), "p");
    let p_kids = dom.children(p);
    assert_eq!(p_kids.len(), 1);
    assert_eq!(string_of(&dom.text(p_kids[0]).unwrap()), "Hi");
}

#[test]
fn parse_mismatched_closing_tag_fails() {
    assert!(parse_html("<div><span></div>").is_err());
}

#[test]
fn parse_unterminated_attribute_fails() {
    assert!(parse_html("<div class=\"x></div>").is_err());
    assert!(parse_html("<div class=x></div>").is_err());
    assert!(parse_html("<div class></div>").is_err());
}

#[test]
fn parse_multiple_roots_wrapped_in_html() {
    let (dom, root) = parse_html("<p></p><p></p>").unwrap();
    assert_eq!(string_of(&dom.tag_name(root).unwrap()), "html");
    assert_eq!(dom.children(root).len(), 2);
}

#[test]
fn parse_empty_input_yields_empty_html_root() {
    let (dom, root) = parse_html("").unwrap();
    assert_eq!(string_of(&dom.tag_name(root).unwrap()), "html");
    assert_eq!(dom.children(root).len(), 0);
}

#[test]
fn parse_normalizes_tag_case() {
    let (dom, root) = parse_html("<DIV></DIV>").unwrap();
    assert_eq!(string_of(&dom.tag_name(root).unwrap()), "div");
}

#[test]
fn parse_attributes_single_and_double_quotes() {
    let (dom, root) = parse_html("<div a=\"1\" b='2'></div>").unwrap();
    assert_eq!(string_of(&dom.get_attr(root, "a").unwrap()), "1");
    assert_eq!(string_of(&dom.get_attr(root, "b").unwrap()), "2");
    assert!(dom.get_attr(root, "c").is_none());
}

// ---------------------------------------------------------------------------
// the document tree
// ---------------------------------------------------------------------------
#[test]
fn append_rejects_self_and_ancestor() {
    let mut dom = Dom::new();
    let a = element(&mut dom, "div", Vec::new(), &Vec::new());
    let b = element(&mut dom, "p", Vec::new(), &Vec::new());
    assert_eq!(dom.append(a, a), Err(TreeInvariantViolation::SelfReference));
    assert_eq!(dom.append(a, b), Ok(()));
    // `a` is now an ancestor of `b`: appending it under `b` would close a cycle
    assert_eq!(dom.append(b, a), Err(TreeInvariantViolation::Cycle));
}

#[test]
fn append_repeated_keeps_both_entries() {
    let mut dom = Dom::new();
    let a = element(&mut dom, "div", Vec::new(), &Vec::new());
    let b = element(&mut dom, "p", Vec::new(), &Vec::new());
    assert_eq!(dom.append(a, b), Ok(()));
    assert_eq!(dom.append(a, b), Ok(()));
    let kids = dom.children(a);
    assert_eq!(kids, vec![b, b]);
}

#[test]
fn append_moves_child_between_parents() {
    let mut dom = Dom::new();
    let a = element(&mut dom, "div", Vec::new(), &Vec::new());
    let b = element(&mut dom, "p", Vec::new(), &Vec::new());
    let c = element(&mut dom, "span", Vec::new(), &Vec::new());
    assert_eq!(dom.append(a, c), Ok(()));
    assert_eq!(dom.append(b, c), Ok(()));
    assert_eq!(dom.children(a).len(), 0);
    assert_eq!(dom.children(b), vec![c]);
    assert_eq!(dom.parent(c), Some(b));
}

#[test]
fn set_attribute_normalizes_key_and_value() {
    let mut dom = Dom::new();
    let node = element(&mut dom, "div", Vec::new(), &Vec::new());
    dom.set_attr(node, " Class ", " btn ");
    assert_eq!(string_of(&dom.get_attr(node, "class").unwrap()), "btn");
    assert!(dom.has_attr(node, "class"));
    assert!(!dom.has_attr(node, " Class "));
    dom.remove_attr(node, "CLASS");
    assert!(!dom.has_attr(node, "class"));
}

#[test]
fn set_attribute_is_a_no_op_on_text_nodes() {
    let mut dom = Dom::new();
    let t = rusty_browser::dom::text(&mut dom, "hello");
    dom.set_attr(t, "class", "btn");
    assert!(dom.get_attr(t, "class").is_none());
    assert!(dom.is_text(t));
    assert!(!dom.is_element(t));
}

// ---------------------------------------------------------------------------
// colors, borders
// ---------------------------------------------------------------------------
#[test]
fn hex_colors() {
    assert_eq!(hex_to_color(&chars("ff0000")), Some(Color(255, 0, 0, 255)));
    assert_eq!(hex_to_color(&chars("f00")), None);
    assert_eq!(hex_to_color(&chars("00ff7f")), Some(Color(0, 255, 127, 255)));
    assert_eq!(hex_to_color(&chars("zzzzzz")), None);
}

#[test]
fn named_and_hex_color_values() {
    assert_eq!(parse_color(&chars("red")), Some(Color(255, 0, 0, 255)));
    assert_eq!(parse_color(&chars("  Blue ")), Some(Color(0, 0, 255, 255)));
    assert_eq!(parse_color(&chars("#00ff00")), Some(Color(0, 255, 0, 255)));
    assert_eq!(parse_color(&chars("fuchsia")), None);
}

#[test]
fn border_shorthand() {
    assert_eq!(
        parse_border(&chars("2px solid #0000ff")),
        Some((2, Color(0, 0, 255, 255)))
    );
    assert_eq!(parse_border(&chars("bogus")), None);
    assert_eq!(parse_border(&chars("2px solid")), None);
}

// ---------------------------------------------------------------------------
// the style cascade
// ---------------------------------------------------------------------------
#[test]
fn inline_color_overrides_tag_default() {
    let (dom, root) = parse_html("<div><p style=\"color:red;\">Hi</p></div>").unwrap();
    let styled = compute_styles(&dom, root);
    assert_eq!(styled.children.len(), 1);
    let p = &styled.children[0];
    assert_eq!(p.style.color, Color(255, 0, 0, 255));
    // unspecified fields keep the tag default
    assert_eq!(string_of(&p.style.font_family), "Serif");
    assert_eq!(p.style.font_size, 16);
    assert_eq!(p.style.display, Display::Block);
}

#[test]
fn border_declaration_resolves_width_and_color() {
    let (dom, root) = parse_html("<p style=\"border: 2px solid #0000ff\"></p>").unwrap();
    let styled = compute_styles(&dom, root);
    assert_eq!(styled.style.border_width, 2);
    assert_eq!(styled.style.border_color, Some(Color(0, 0, 255, 255)));
}

#[test]
fn malformed_border_keeps_prior_values() {
    let (dom, root) = parse_html("<p style=\"border: bogus\"></p>").unwrap();
    let styled = compute_styles(&dom, root);
    // the `p` tag default has no border
    assert_eq!(styled.style.border_width, 0);
    assert_eq!(styled.style.border_color, None);
}

#[test]
fn unknown_keys_and_bad_values_are_skipped() {
    let (dom, root) =
        parse_html("<p style=\"flavor:mint; color:nosuch; font-size:12px\"></p>").unwrap();
    let styled = compute_styles(&dom, root);
    assert_eq!(styled.style.color, Color(20, 20, 20, 255));
    assert_eq!(styled.style.font_size, 12);
}

#[test]
fn comments_get_display_removed() {
    let mut dom = Dom::new();
    let c = rusty_browser::dom::comment(&mut dom, "note");
    let styled = compute_styles(&dom, c);
    assert_eq!(styled.style.display, Display::Hidden);
}

fn count_dom(dom: &Dom, id: usize) -> usize {
    1 + dom.children(id).iter().map(|&c| count_dom(dom, c)).sum::<usize>()
}

fn count_styled(n: &StyledNode) -> usize {
    1 + n.children.iter().map(count_styled).sum::<usize>()
}

fn shapes_match(dom: &Dom, id: usize, n: &StyledNode) -> bool {
    let kids = dom.children(id);
    kids.len() == n.children.len()
        && kids.iter().zip(n.children.iter()).all(|(&c, sn)| shapes_match(dom, c, sn))
}

#[test]
fn styled_tree_mirrors_document_tree() {
    let (dom, root) =
        parse_html("<div><p>one</p><p>two<span>three</span></p></div>").unwrap();
    let styled = compute_styles(&dom, root);
    assert!(shapes_match(&dom, root, &styled));
    assert_eq!(count_dom(&dom, root), count_styled(&styled));
}

// ---------------------------------------------------------------------------
// layout
// ---------------------------------------------------------------------------
fn bare_style(display: Display) -> Style {
    Style {
        display,
        background: None,
        border_color: None,
        border_width: 0,
        margin: edges(0),
        padding: edges(0),
        font_size: 16,
        font_family: chars("Arial"),
        color: Color(0, 0, 0, 255),
    }
}

fn el_node(display: Display, children: Vec<Node>) -> Node {
    Node {
        children,
        node_type: LayoutNodeType::Element(rusty_browser::engine::ElementData {
            tag_name: chars("div"),
            attributes: Vec::new(),
        }),
        style: bare_style(display),
    }
}

#[test]
fn hidden_node_yields_zero_box_with_no_children() {
    let child = el_node(Display::Block, Vec::new());
    let node = el_node(Display::Hidden, vec![child]);
    let b = build_layout_tree(&node, 800);
    assert_eq!((b.x, b.y, b.width, b.height), (0, 0, 0, 0));
    assert_eq!(b.children.len(), 0);
    assert!(b.background.is_none() && b.border.is_none() && b.text.is_none());
}

#[test]
fn overconstrained_box_collapses_to_zero_width() {
    let mut node = el_node(Display::Block, Vec::new());
    node.style.margin = edges(50);
    node.style.padding = edges(50);
    node.style.border_width = 10;
    let b = build_layout_tree(&node, 100);
    assert_eq!(b.width, 0);
}

#[test]
fn empty_block_gets_default_height() {
    let node = el_node(Display::Block, Vec::new());
    let b = build_layout_tree(&node, 640);
    assert_eq!(b.height, 20);
    assert_eq!(b.width, 640);
}

#[test]
fn text_node_height_is_font_size_plus_vertical_padding() {
    let mut node = Node {
        children: Vec::new(),
        node_type: LayoutNodeType::Text(chars("hello")),
        style: bare_style(Display::Block),
    };
    node.style.padding = edges(4);
    let b = build_layout_tree(&node, 200);
    assert_eq!(b.height, 16 + 4 + 4);
    let t = b.text.as_ref().unwrap();
    assert_eq!(string_of(&t.content), "hello");
    assert_eq!(t.font_size, 16);
}

#[test]
fn sample_tree_layout_positions() {
    let tree = sample_dom_tree();
    let b = build_layout_tree(&tree, 800);
    // parent: margins 8, border 1, padding 8 on each side
    assert_eq!(b.x, 17);
    assert_eq!(b.y, 17);
    assert_eq!(b.width, 800 - 34);
    assert_eq!(b.children.len(), 2);
    // first child: same edges, laid out at the parent's origin
    let c0 = &b.children[0];
    assert_eq!(c0.x, 17 + 17);
    assert_eq!(c0.y, 17 + 17);
    assert_eq!(c0.width, 766 - 34);
    assert_eq!(c0.height, 16 + 8 + 8);
    // second child: offset by the first child's height plus the parent's
    // vertical spacing (8+8+8+8)
    let c1 = &b.children[1];
    assert_eq!(c1.y, 17 + 32 + 32 + 4 + 1 + 6);
    assert_eq!(c1.height, 14 + 6 + 6);
    // parent height stacks both children plus its spacing around each
    assert_eq!(b.height, (32 + 32) + (26 + 32));
}

// ---------------------------------------------------------------------------
// the painter's display list
// ---------------------------------------------------------------------------
#[test]
fn display_list_orders_background_border_text_then_children() {
    let child = LayoutBox {
        x: 5,
        y: 6,
        width: 7,
        height: 8,
        background: Some(Color(9, 9, 9, 255)),
        border: None,
        text: None,
        children: Vec::new(),
    };
    let b = LayoutBox {
        x: 10,
        y: 20,
        width: 30,
        height: 40,
        background: Some(Color(1, 2, 3, 255)),
        border: Some((Color(4, 5, 6, 255), 2)),
        text: Some(TextNode {
            content: chars("hey"),
            font_size: 12,
            color: Color(7, 8, 9, 255),
            font_family: chars("Arial"),
        }),
        children: vec![child],
    };
    let cmds = display_list(&b);
    assert_eq!(cmds.len(), 4);
    match &cmds[0] {
        PaintCmd::FillRect { x, y, width, height, color } => {
            assert_eq!((*x, *y, *width, *height), (10, 20, 30, 40));
            assert_eq!(*color, Color(1, 2, 3, 255));
        }
        other => panic!("expected a background fill, got {:?}", other),
    }
    match &cmds[1] {
        PaintCmd::StrokeRect { thickness, color, .. } => {
            assert_eq!(*thickness, 2);
            assert_eq!(*color, Color(4, 5, 6, 255));
        }
        other => panic!("expected a border stroke, got {:?}", other),
    }
    match &cmds[2] {
        PaintCmd::Glyphs { x, y, content, font_size, .. } => {
            // fixed baseline offset: x + 4, y + font size + 4
            assert_eq!(*x, 14);
            assert_eq!(*y, 20 + 12 + 4);
            assert_eq!(string_of(content), "hey");
            assert_eq!(*font_size, 12);
        }
        other => panic!("expected glyphs, got {:?}", other),
    }
    match &cmds[3] {
        PaintCmd::FillRect { x, .. } => assert_eq!(*x, 5),
        other => panic!("expected the child's fill, got {:?}", other),
    }
}

#[test]
fn default_style_values() {
    let s = default_style(Display::Block);
    assert_eq!(s.display, Display::Block);
    assert_eq!(s.background, Some(Color(240, 240, 240, 255)));
    assert_eq!(s.border_width, 1);
    assert_eq!(s.margin, EdgeSizes { top: 8, right: 8, bottom: 8, left: 8 });
    assert_eq!(s.font_size, 16);
}

#[test]
fn dump_is_preorder_with_attributes() {
    let (dom, root) = parse_html("<div id=\"x\"><p>Hi</p></div>").unwrap();
    let dump = string_of(&rusty_browser::dom::dump_tree(&dom, root));
    assert_eq!(
        dump,
        "<div id=\"x\">\n  <p>\n    Text: Hi\n  </p>\n</div>\n"
    );
}

#[test]
fn layout_sums_saturate_instead_of_overflowing() {
    let mut node = Node {
        children: Vec::new(),
        node_type: LayoutNodeType::Text(chars("x")),
        style: bare_style(Display::Block),
    };
    node.style.font_size = u64::MAX;
    node.style.padding = edges(5);
    let b = build_layout_tree(&node, 100);
    assert_eq!(b.height, u64::MAX);
    assert_eq!(b.width, 100 - 10);
}
