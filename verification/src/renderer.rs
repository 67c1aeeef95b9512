//! The painter: walks a layout tree depth-first, pre-order, and emits a
//! display list of drawing commands — background fill, border stroke, text
//! run — for a graphics backend to rasterize.  A box paints itself before its
//! children, and children paint in document order, so later boxes can overlap
//! earlier ones exactly where their geometry overlaps.

use vstd::prelude::*;
use crate::text::clone_chars;

verus! {

/// A packed color: red, green, blue, alpha.
#[derive(Debug, Clone, Copy, PartialEq, Eq, Structural)]
pub struct Color(pub u8, pub u8, pub u8, pub u8);

/// Text to render inside a box.
#[derive(Debug)]
pub struct TextNode {
    pub content: Vec<char>,
    pub font_size: u64,
    pub color: Color,
    pub font_family: Vec<char>,
}

/// A positioned rectangle with paint data.
#[derive(Debug)]
pub struct LayoutBox {
    pub x: u64,
    pub y: u64,
    pub width: u64,
    pub height: u64,
    pub background: Option<Color>,
    pub border: Option<(Color, u64)>,
    pub text: Option<TextNode>,
    pub children: Vec<LayoutBox>,
}

/// One drawing command of the display list.
#[derive(Debug)]
pub enum PaintCmd {
    FillRect { x: u64, y: u64, width: u64, height: u64, color: Color },
    StrokeRect { x: u64, y: u64, width: u64, height: u64, color: Color, thickness: u64 },
    Glyphs {
        x: u64,
        y: u64,
        content: Vec<char>,
        font_size: u64,
        color: Color,
        font_family: Vec<char>,
    },
}

/// The mathematical value of one drawing command.
pub enum PaintStep {
    FillRect { x: u64, y: u64, width: u64, height: u64, color: Color },
    StrokeRect { x: u64, y: u64, width: u64, height: u64, color: Color, thickness: u64 },
    Glyphs {
        x: u64,
        y: u64,
        content: Seq<char>,
        font_size: u64,
        color: Color,
        font_family: Seq<char>,
    },
}

impl View for PaintCmd {
    type V = PaintStep;

    open spec fn view(&self) -> PaintStep {
        match self {
            PaintCmd::FillRect { x, y, width, height, color } => PaintStep::FillRect {
                x: *x,
                y: *y,
                width: *width,
                height: *height,
                color: *color,
            },
            PaintCmd::StrokeRect { x, y, width, height, color, thickness } => PaintStep::StrokeRect {
                x: *x,
                y: *y,
                width: *width,
                height: *height,
                color: *color,
                thickness: *thickness,
            },
            PaintCmd::Glyphs { x, y, content, font_size, color, font_family } => PaintStep::Glyphs {
                x: *x,
                y: *y,
                content: content@,
                font_size: *font_size,
                color: *color,
                font_family: font_family@,
            },
        }
    }
}

/// Saturating sum, as a spec value: the exact sum clamped into `u64`.
pub open spec fn cap64(v: int) -> u64 {
    if v >= u64::MAX {
        u64::MAX
    } else if v <= 0 {
        0
    } else {
        v as u64
    }
}

/// The commands a single box paints for itself: background fill, then border
/// stroke, then its text run at the fixed baseline offset.
pub open spec fn own_steps(b: LayoutBox) -> Seq<PaintStep> {
    let bg: Seq<PaintStep> = match b.background {
        Some(c) => seq![
            PaintStep::FillRect { x: b.x, y: b.y, width: b.width, height: b.height, color: c },
        ],
        None => Seq::empty(),
    };
    let border: Seq<PaintStep> = match b.border {
        Some(bc) => seq![
            PaintStep::StrokeRect {
                x: b.x,
                y: b.y,
                width: b.width,
                height: b.height,
                color: bc.0,
                thickness: bc.1,
            },
        ],
        None => Seq::empty(),
    };
    let text: Seq<PaintStep> = match b.text {
        Some(t) => seq![
            PaintStep::Glyphs {
                x: cap64(b.x + 4),
                y: cap64(b.y + t.font_size + 4),
                content: t.content@,
                font_size: t.font_size,
                color: t.color,
                font_family: t.font_family@,
            },
        ],
        None => Seq::empty(),
    };
    bg + border + text
}

/// The full display list of a box: its own commands, then each child's list
/// in document order.
pub open spec fn display_spec(b: LayoutBox) -> Seq<PaintStep>
    decreases b,
{
    own_steps(b) + display_children(b.children@)
}

pub open spec fn display_children(s: Seq<LayoutBox>) -> Seq<PaintStep>
    decreases s,
{
    if s.len() == 0 {
        Seq::empty()
    } else {
        display_spec(s[0]) + display_children(s.drop_first())
    }
}

proof fn lemma_display_children_step(s: Seq<LayoutBox>, i: int)
    requires
        0 <= i < s.len(),
    ensures
        display_children(s.skip(i)) == display_spec(s[i]) + display_children(s.skip(i + 1)),
{
    assert(s.skip(i).len() > 0);
    assert(s.skip(i)[0] == s[i]);
    assert(s.skip(i).drop_first() =~= s.skip(i + 1));
}

pub open spec fn cmds_view(v: Seq<PaintCmd>) -> Seq<PaintStep> {
    v.map_values(|c: PaintCmd| c@)
}

/// Produce the display list of `b`: pre-order, a box before its children,
/// children in document order.
pub fn display_list(b: &LayoutBox) -> (r: Vec<PaintCmd>)
    ensures
        cmds_view(r@) == display_spec(*b),
    decreases *b,
{
    let mut out: Vec<PaintCmd> = Vec::new();
    if let Some(c) = b.background {
        out.push(PaintCmd::FillRect { x: b.x, y: b.y, width: b.width, height: b.height, color: c });
    }
    if let Some(bc) = b.border {
        out.push(
            PaintCmd::StrokeRect {
                x: b.x,
                y: b.y,
                width: b.width,
                height: b.height,
                color: bc.0,
                thickness: bc.1,
            },
        );
    }
    match &b.text {
        Some(t) => {
            out.push(
                PaintCmd::Glyphs {
                    x: b.x.saturating_add(4),
                    y: b.y.saturating_add(t.font_size).saturating_add(4),
                    content: clone_chars(&t.content),
                    font_size: t.font_size,
                    color: t.color,
                    font_family: clone_chars(&t.font_family),
                },
            );
        },
        None => {},
    }
    proof {
        assert(cmds_view(out@) =~= own_steps(*b));
        assert(b.children@.skip(0) =~= b.children@);
    }
    let mut i: usize = 0;
    while i < b.children.len()
        invariant
            0 <= i <= b.children@.len(),
            cmds_view(out@) + display_children(b.children@.skip(i as int)) == display_spec(*b),
        decreases b.children@.len() - i,
    {
        let mut sub = display_list(&b.children[i]);
        proof {
            lemma_display_children_step(b.children@, i as int);
            assert(cmds_view(out@ + sub@) =~= cmds_view(out@) + cmds_view(sub@));
        }
        out.append(&mut sub);
        i = i + 1;
    }
    out
}

} // verus!
