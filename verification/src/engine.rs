//! The block-model layout engine: walks a styled tree and produces positioned,
//! sized boxes.  All geometry is in integer layout units; sums saturate at the
//! type's bounds and a box that is over-constrained collapses to width zero
//! rather than going negative.

use vstd::prelude::*;
use crate::renderer::{cap64, Color, LayoutBox, TextNode};
use crate::text::{clone_chars, str_to_chars};

verus! {

/// Rectangle for layout.
#[derive(Debug, Clone, Copy, PartialEq, Eq, Structural)]
pub struct Rect {
    pub x: u64,
    pub y: u64,
    pub width: u64,
    pub height: u64,
}

/// Edge values: top, right, bottom, left.
#[derive(Debug, Clone, Copy, PartialEq, Eq, Structural)]
pub struct EdgeSizes {
    pub top: u64,
    pub right: u64,
    pub bottom: u64,
    pub left: u64,
}

/// Box-model dimensions threaded through layout.
#[derive(Debug, Clone, Copy, PartialEq, Eq, Structural)]
pub struct Dimensions {
    pub content: Rect,
    pub padding: EdgeSizes,
    pub border: EdgeSizes,
    pub margin: EdgeSizes,
}

#[derive(Debug, Clone, Copy, PartialEq, Eq, Structural)]
pub enum Display {
    Block,
    Inline,
    /// Removes the node and its whole subtree from layout and paint.
    Hidden,
}

/// A computed visual style.
#[derive(Debug)]
pub struct Style {
    pub display: Display,
    pub background: Option<Color>,
    pub border_color: Option<Color>,
    pub border_width: u64,
    pub margin: EdgeSizes,
    pub padding: EdgeSizes,
    pub font_size: u64,
    pub font_family: Vec<char>,
    pub color: Color,
}

/// A styled node as the layout engine consumes it.
#[derive(Debug)]
pub enum NodeType {
    Text(Vec<char>),
    Element(ElementData),
}

#[derive(Debug)]
pub struct ElementData {
    pub tag_name: Vec<char>,
    pub attributes: Vec<(Vec<char>, Vec<char>)>,
}

#[derive(Debug)]
pub struct Node {
    pub children: Vec<Node>,
    pub node_type: NodeType,
    pub style: Style,
}

// ----------------------------------------------------------------------------
// what a correct layout is
// ----------------------------------------------------------------------------
/// Horizontal space the box's own edges consume.
pub open spec fn h_edges(st: Style) -> int {
    st.margin.left + st.margin.right + st.padding.left + st.padding.right + 2 * st.border_width
}

/// Vertical spacing this box adds around each of its children.
pub open spec fn v_step(st: Style) -> int {
    st.margin.top + st.margin.bottom + st.padding.top + st.padding.bottom
}

/// Height of the first `n` stacked child boxes, each followed by the parent's
/// own vertical spacing.
pub open spec fn stack_height(boxes: Seq<LayoutBox>, n: int, step: int) -> int
    decreases n,
{
    if n <= 0 {
        0
    } else {
        stack_height(boxes, n - 1, step) + boxes[n - 1].height + step
    }
}

/// The empty box produced for a `display: None` node: zero geometry, no paint
/// data, no children — the subtree is pruned from layout entirely.
pub open spec fn zero_box(b: LayoutBox) -> bool {
    &&& b.x == 0
    &&& b.y == 0
    &&& b.width == 0
    &&& b.height == 0
    &&& b.background is None
    &&& b.border is None
    &&& b.text is None
    &&& b.children@.len() == 0
}

/// Height contributed by the box's own content: its stacked children, a text
/// run's line, and the fixed default of 20 units for an empty box.
pub open spec fn own_height(n: Node, b: LayoutBox) -> int {
    let kids = stack_height(b.children@, b.children@.len() as int, v_step(n.style));
    let text_h: int = match n.node_type {
        NodeType::Text(_) => n.style.font_size + n.style.padding.top + n.style.padding.bottom,
        _ => 0,
    };
    let empty_h: int = if n.children@.len() == 0 && !(n.node_type is Text) {
        20
    } else {
        0
    };
    kids + text_h + empty_h
}

/// `b` is the layout of `n` in a container of content width `cw`, at the given
/// running offsets.
#[verifier::opaque]
pub open spec fn layout_ok(n: Node, cw: u64, off_x: u64, off_y: u64, b: LayoutBox) -> bool
    decreases n,
{
    if n.style.display is Hidden {
        zero_box(b)
    } else {
        let bx = cap64(off_x + n.style.margin.left + n.style.border_width + n.style.padding.left);
        let by = cap64(off_y + n.style.margin.top + n.style.border_width + n.style.padding.top);
        let w = cap64(cw - h_edges(n.style));
        &&& b.x == bx
        &&& b.y == by
        &&& b.width == w
        &&& b.height == cap64(own_height(n, b))
        &&& b.background == n.style.background
        &&& b.border == (match n.style.border_color {
            Some(c) => Some((c, n.style.border_width)),
            None => None::<(Color, u64)>,
        })
        &&& (match n.node_type {
            NodeType::Text(t) => b.text matches Some(tr) && tr.content@ == t@ && tr.font_size
                == n.style.font_size && tr.color == n.style.color && tr.font_family@
                == n.style.font_family@,
            _ => b.text is None,
        })
        &&& b.children@.len() == n.children@.len()
        &&& forall|i: int|
            0 <= i < n.children@.len() ==> layout_ok(
                n.children@[i],
                w,
                bx,
                cap64(by + stack_height(b.children@, i, v_step(n.style))),
                #[trigger] b.children@[i],
            )
    }
}

proof fn lemma_stack_nonneg(boxes: Seq<LayoutBox>, n: int, step: int)
    requires
        step >= 0,
    ensures
        stack_height(boxes, n, step) >= 0,
    decreases n,
{
    if n > 0 {
        lemma_stack_nonneg(boxes, n - 1, step);
    }
}

proof fn lemma_stack_push(boxes: Seq<LayoutBox>, b: LayoutBox, n: int, step: int)
    requires
        0 <= n <= boxes.len(),
    ensures
        stack_height(boxes.push(b), n, step) == stack_height(boxes, n, step),
    decreases n,
{
    if n > 0 {
        lemma_stack_push(boxes, b, n - 1, step);
    }
}

// ----------------------------------------------------------------------------
// the layout pass
// ----------------------------------------------------------------------------
/// Lay out a styled tree in a container of the given content width.
pub fn build_layout_tree(node: &Node, container_width: u64) -> (r: LayoutBox)
    ensures
        layout_ok(*node, container_width, 0, 0, r),
{
    build_layout_box(node, container_width, 0, 0)
}

/// Recursively build the layout box tree with positions and sizes.
#[verifier::rlimit(100)]
pub fn build_layout_box(node: &Node, cw: u64, off_x: u64, off_y: u64) -> (r: LayoutBox)
    ensures
        layout_ok(*node, cw, off_x, off_y, r),
    decreases *node,
{
    let st = &node.style;
    if matches!(st.display, Display::Hidden) {
        let empty = LayoutBox {
            x: 0,
            y: 0,
            width: 0,
            height: 0,
            background: None,
            border: None,
            text: None,
            children: Vec::new(),
        };
        proof {
            reveal(layout_ok);
            assert(zero_box(empty));
        }
        return empty;
    }
    let box_x = off_x.saturating_add(st.margin.left).saturating_add(st.border_width).saturating_add(
        st.padding.left,
    );
    let box_y = off_y.saturating_add(st.margin.top).saturating_add(st.border_width).saturating_add(
        st.padding.top,
    );
    let edges_sum = st.margin.left.saturating_add(st.margin.right).saturating_add(
        st.padding.left,
    ).saturating_add(st.padding.right).saturating_add(st.border_width).saturating_add(
        st.border_width,
    );
    let width = cw.saturating_sub(edges_sum);
    proof {
        assert(box_x == cap64(off_x + st.margin.left + st.border_width + st.padding.left));
        assert(box_y == cap64(off_y + st.margin.top + st.border_width + st.padding.top));
        assert(edges_sum == cap64(h_edges(node.style)));
        assert(width == cap64(cw - h_edges(node.style)));
    }
    let step = st.margin.top.saturating_add(st.margin.bottom).saturating_add(
        st.padding.top,
    ).saturating_add(st.padding.bottom);
    proof {
        assert(step == cap64(v_step(node.style)));
    }
    let mut height: u64 = 0;
    let mut children_boxes: Vec<LayoutBox> = Vec::new();
    let mut i: usize = 0;
    while i < node.children.len()
        invariant
            0 <= i <= node.children@.len(),
            children_boxes@.len() == i,
            box_x == cap64(off_x + node.style.margin.left + node.style.border_width
                + node.style.padding.left),
            box_y == cap64(off_y + node.style.margin.top + node.style.border_width
                + node.style.padding.top),
            width == cap64(cw - h_edges(node.style)),
            step == cap64(v_step(node.style)),
            height == cap64(stack_height(children_boxes@, i as int, v_step(node.style))),
            forall|j: int|
                0 <= j < i ==> layout_ok(
                    node.children@[j],
                    width,
                    box_x,
                    cap64(box_y + stack_height(children_boxes@, j, v_step(node.style))),
                    #[trigger] children_boxes@[j],
                ),
        decreases node.children@.len() - i,
    {
        let child_y = box_y.saturating_add(height);
        proof {
            lemma_stack_nonneg(children_boxes@, i as int, v_step(node.style));
            assert(child_y == cap64(
                box_y + stack_height(children_boxes@, i as int, v_step(node.style)),
            ));
        }
        let cb = build_layout_box(&node.children[i], width, box_x, child_y);
        let ghost old_boxes = children_boxes@;
        proof {
            lemma_stack_nonneg(old_boxes, i as int, v_step(node.style));
        }
        height = height.saturating_add(cb.height).saturating_add(step);
        children_boxes.push(cb);
        proof {
            assert forall|j: int| 0 <= j <= i implies stack_height(
                children_boxes@,
                j,
                v_step(node.style),
            ) == stack_height(old_boxes, j, v_step(node.style)) by {
                lemma_stack_push(old_boxes, children_boxes@[i as int], j, v_step(node.style));
            }
            assert(stack_height(children_boxes@, i + 1, v_step(node.style)) == stack_height(
                old_boxes,
                i as int,
                v_step(node.style),
            ) + children_boxes@[i as int].height + v_step(node.style));
        }
        i = i + 1;
    }
    let mut text_node: Option<TextNode> = None;
    match &node.node_type {
        NodeType::Text(content) => {
            height = height.saturating_add(st.font_size).saturating_add(
                st.padding.top,
            ).saturating_add(st.padding.bottom);
            text_node = Some(
                TextNode {
                    content: clone_chars(content),
                    font_size: st.font_size,
                    color: st.color,
                    font_family: clone_chars(&st.font_family),
                },
            );
        },
        _ => {},
    }
    if children_boxes.len() == 0 && text_node.is_none() {
        height = height.saturating_add(20);
    }
    let border = match st.border_color {
        Some(c) => Some((c, st.border_width)),
        None => None,
    };
    let r = LayoutBox {
        x: box_x,
        y: box_y,
        width,
        height,
        background: st.background,
        border,
        text: text_node,
        children: children_boxes,
    };
    proof {
        lemma_stack_nonneg(r.children@, r.children@.len() as int, v_step(node.style));
        assert(r.height == cap64(own_height(*node, r)));
        reveal(layout_ok);
    }
    r
}

// ----------------------------------------------------------------------------
// laws of the layout
// ----------------------------------------------------------------------------
/// A `display: None` node always yields a box of zero width, zero height and
/// zero children, whatever its subtree holds.
pub proof fn lemma_display_none_zero(n: Node, cw: u64, off_x: u64, off_y: u64, b: LayoutBox)
    requires
        layout_ok(n, cw, off_x, off_y, b),
        n.style.display is Hidden,
    ensures
        b.width == 0,
        b.height == 0,
        b.children@.len() == 0,
{
    reveal(layout_ok);
}

/// Width never goes negative: when the box's own margins, borders and padding
/// exceed the container's content width, the width collapses to exactly zero.
pub proof fn lemma_overconstrained_width_zero(
    n: Node,
    cw: u64,
    off_x: u64,
    off_y: u64,
    b: LayoutBox,
)
    requires
        layout_ok(n, cw, off_x, off_y, b),
        !(n.style.display is Hidden),
        h_edges(n.style) >= cw,
    ensures
        b.width == 0,
{
    reveal(layout_ok);
}

/// An element with no children and no text run is exactly 20 units high.
pub proof fn lemma_empty_block_height(n: Node, cw: u64, off_x: u64, off_y: u64, b: LayoutBox)
    requires
        layout_ok(n, cw, off_x, off_y, b),
        !(n.style.display is Hidden),
        !(n.node_type is Text),
        n.children@.len() == 0,
    ensures
        b.height == 20,
{
    reveal(layout_ok);
    assert(stack_height(b.children@, 0, v_step(n.style)) == 0);
}

// ----------------------------------------------------------------------------
// small builders
// ----------------------------------------------------------------------------
/// Edge sizes with the same value on all four sides.
pub fn edges(value: u64) -> (r: EdgeSizes)
    ensures
        r.top == value && r.right == value && r.bottom == value && r.left == value,
{
    EdgeSizes { top: value, right: value, bottom: value, left: value }
}

/// A prototyping style: light gray background, thin black border, 16-unit
/// Arial text with 8-unit margins and padding.
pub fn default_style(display: Display) -> (r: Style)
    ensures
        r.display == display,
        r.background == Some(Color(240, 240, 240, 255)),
        r.border_color == Some(Color(0, 0, 0, 255)),
        r.border_width == 1,
        r.margin == (EdgeSizes { top: 8, right: 8, bottom: 8, left: 8 }),
        r.padding == (EdgeSizes { top: 8, right: 8, bottom: 8, left: 8 }),
        r.font_size == 16,
        r.font_family@ == "Arial"@,
        r.color == Color(0, 0, 0, 255),
{
    Style {
        display,
        background: Some(Color(240, 240, 240, 255)),
        border_color: Some(Color(0, 0, 0, 255)),
        border_width: 1,
        margin: edges(8),
        padding: edges(8),
        font_size: 16,
        font_family: str_to_chars("Arial"),
        color: Color(0, 0, 0, 255),
    }
}

/// A small fixed styled tree for exercising the layout engine.
pub fn sample_dom_tree() -> (r: Node)
    ensures
        r.node_type is Element,
        r.style.display == Display::Block,
        r.children@.len() == 2,
        r.children@[0].node_type is Text,
        r.children@[1].node_type is Text,
{
    let mut children: Vec<Node> = Vec::new();
    children.push(
        Node {
            style: default_style(Display::Block),
            node_type: NodeType::Text(str_to_chars("Hello, layout!")),
            children: Vec::new(),
        },
    );
    children.push(
        Node {
            style: Style {
                display: Display::Block,
                background: Some(Color(220, 220, 250, 255)),
                border_color: Some(Color(0, 0, 128, 255)),
                border_width: 1,
                margin: edges(4),
                padding: edges(6),
                font_size: 14,
                font_family: str_to_chars("Courier New"),
                color: Color(20, 20, 20, 255),
            },
            node_type: NodeType::Text(str_to_chars("Welcome to the block engine!")),
            children: Vec::new(),
        },
    );
    Node {
        style: default_style(Display::Block),
        node_type: NodeType::Element(
            ElementData { tag_name: str_to_chars("div"), attributes: Vec::new() },
        ),
        children,
    }
}

} // verus!
