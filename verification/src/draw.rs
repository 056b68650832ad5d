//! Drawing, as a list of steps.

use vstd::prelude::*;

use crate::geometry::Rect;
use crate::style::{Line, SpanView, Style};
use crate::views;

verus! {

/// One step of drawing on the terminal's cells.
#[derive(Debug, PartialEq, Eq)]
pub enum DrawOp {
    /// Put `symbol` into every cell of `area`.
    Symbol { area: Rect, symbol: String },
    /// Give every cell of `area` the look of `style`.
    Paint { area: Rect, style: Style },
    /// Write `text` from (`x`, `y`) to the right.
    Text { x: u16, y: u16, text: String, style: Style },
    /// Write `lines`, without the first `scroll` of them, row by row into `area`.
    Lines { area: Rect, lines: Vec<Line>, scroll: u16, centered: bool },
}

/// A [`DrawOp`] by what it shows.
pub enum DrawOpView {
    Symbol { area: Rect, symbol: Seq<char> },
    Paint { area: Rect, style: Style },
    Text { x: u16, y: u16, text: Seq<char>, style: Style },
    Lines { area: Rect, lines: Seq<Seq<SpanView>>, scroll: u16, centered: bool },
}

impl View for DrawOp {
    type V = DrawOpView;

    open spec fn view(&self) -> DrawOpView {
        match self {
            DrawOp::Symbol { area, symbol } => DrawOpView::Symbol { area: *area, symbol: symbol@ },
            DrawOp::Paint { area, style } => DrawOpView::Paint { area: *area, style: *style },
            DrawOp::Text { x, y, text, style } => DrawOpView::Text {
                x: *x,
                y: *y,
                text: text@,
                style: *style,
            },
            DrawOp::Lines { area, lines, scroll, centered } => DrawOpView::Lines {
                area: *area,
                lines: views::of(lines@),
                scroll: *scroll,
                centered: *centered,
            },
        }
    }
}

/// A drawing by what it shows.
pub open spec fn picture(ops: Seq<DrawOp>) -> Seq<DrawOpView> {
    views::of(ops)
}

/// `symbol` in `style` in every cell of `area`.
pub open spec fn filled(area: Rect, symbol: Seq<char>, style: Style) -> Seq<DrawOpView> {
    seq![DrawOpView::Symbol { area, symbol }, DrawOpView::Paint { area, style }]
}

/// Adds: put `symbol` into every cell of `area`.
pub fn put_symbol(ops: &mut Vec<DrawOp>, area: Rect, symbol: &str)
    ensures
        picture(final(ops)@) == picture(old(ops)@).push(
            DrawOpView::Symbol { area, symbol: symbol@ },
        ),
{
    broadcast use views::group_views;

    ops.push(DrawOp::Symbol { area, symbol: symbol.to_string() });
}

/// Adds: give every cell of `area` the look of `style`.
pub fn put_paint(ops: &mut Vec<DrawOp>, area: Rect, style: Style)
    ensures
        picture(final(ops)@) == picture(old(ops)@).push(DrawOpView::Paint { area, style }),
{
    broadcast use views::group_views;

    ops.push(DrawOp::Paint { area, style });
}

/// Adds: `symbol` in `style` in every cell of `area`.
pub fn put_filled(ops: &mut Vec<DrawOp>, area: Rect, symbol: &str, style: Style)
    ensures
        picture(final(ops)@) == picture(old(ops)@) + filled(area, symbol@, style),
{
    put_symbol(ops, area, symbol);
    put_paint(ops, area, style);
    assert(picture(ops@) =~= picture(old(ops)@) + filled(area, symbol@, style));
}

/// Adds: write `text` from (`x`, `y`) to the right.
pub fn put_text(ops: &mut Vec<DrawOp>, x: u16, y: u16, text: &str, style: Style)
    ensures
        picture(final(ops)@) == picture(old(ops)@).push(
            DrawOpView::Text { x, y, text: text@, style },
        ),
{
    broadcast use views::group_views;

    ops.push(DrawOp::Text { x, y, text: text.to_string(), style });
}

/// Adds: write `lines`, without the first `scroll` of them, into `area`.
pub fn put_lines(ops: &mut Vec<DrawOp>, area: Rect, lines: Vec<Line>, scroll: u16, centered: bool)
    ensures
        picture(final(ops)@) == picture(old(ops)@).push(
            DrawOpView::Lines { area, lines: views::of(lines@), scroll, centered },
        ),
{
    broadcast use views::group_views;

    ops.push(DrawOp::Lines { area, lines, scroll, centered });
}

/// Adds the steps of `more`.
pub fn put_all(ops: &mut Vec<DrawOp>, more: Vec<DrawOp>)
    ensures
        picture(final(ops)@) == picture(old(ops)@) + picture(more@),
{
    broadcast use views::group_views;

    let mut more = more;
    ops.append(&mut more);
}

} // verus!
