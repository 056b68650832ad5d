//! The box of a tab: its frame, its lines, and the state of its agent.

use vstd::prelude::*;
use vstd::string::*;
use vstd::utf8::*;

use crate::draw;
use crate::draw::{put_filled, put_lines, put_symbol, put_text, DrawOp, DrawOpView};
use crate::geometry;
use crate::geometry::Rect;
use crate::style;
use crate::style::{Color, Line, Palette, Style};
use crate::text;
use crate::text::{
    display_width, push_repeated, str_byte_len, str_chars, str_cut, str_eq, str_find_part,
    truncate_end,
};
use crate::ui::sidebar::spaces;
use crate::views;
use crate::workspace::{AgentState, Workspace};

verus! {

/// The color of the rail of a space: the one that it is tagged with, else that
/// of text.
pub open spec fn rail_color(ws: Workspace, p: Palette) -> Color {
    match ws.metadata_tokens.text_of("c"@) {
        Some(tag) => if tag == "🟥"@ {
            Color::Rgb(0xc4, 0x4a, 0x58)
        } else if tag == "🟦"@ {
            Color::Rgb(0x4a, 0x74, 0xc4)
        } else if tag == "🟩"@ {
            Color::Rgb(0x4a, 0xa8, 0x66)
        } else if tag == "🟪"@ {
            Color::Rgb(0x8f, 0x66, 0xc4)
        } else {
            p.text
        },
        None => p.text,
    }
}

/// The color of the rail of a space.
pub fn space_rail_color(ws: &Workspace, p: &Palette) -> (out: Color)
    ensures
        out == rail_color(*ws, *p),
{
    match ws.metadata_tokens.get("c") {
        Some(tag) => {
            let tag: &str = tag.as_str();
            if str_eq(tag, "🟥") {
                Color::Rgb(0xc4, 0x4a, 0x58)
            } else if str_eq(tag, "🟦") {
                Color::Rgb(0x4a, 0x74, 0xc4)
            } else if str_eq(tag, "🟩") {
                Color::Rgb(0x4a, 0xa8, 0x66)
            } else if str_eq(tag, "🟪") {
                Color::Rgb(0x8f, 0x66, 0xc4)
            } else {
                p.text
            }
        },
        None => p.text,
    }
}

/// The style of a phase: it leans toward the color of the state's dot without
/// adopting it fully.
#[verifier::allow_in_spec]
pub fn phase_tint(state: AgentState, seen: bool, p: &Palette) -> Style
    returns
        Style::plain().fg(
            match (state, seen) {
                (AgentState::Blocked, _) => Color::Rgb(0xe2, 0xae, 0xae),
                (AgentState::Working, _) => Color::Rgb(0xe2, 0xd8, 0xa6),
                (AgentState::Idle, false) => Color::Rgb(0xaa, 0xd4, 0xd4),
                (AgentState::Idle, true) => Color::Rgb(0xb6, 0xd6, 0xb6),
                (AgentState::Unknown, _) => p.overlay1,
            },
        ),
{
    let color: Color = match (state, seen) {
        (AgentState::Blocked, _) => Color::Rgb(0xe2, 0xae, 0xae),
        (AgentState::Working, _) => Color::Rgb(0xe2, 0xd8, 0xa6),
        (AgentState::Idle, false) => Color::Rgb(0xaa, 0xd4, 0xd4),
        (AgentState::Idle, true) => Color::Rgb(0xb6, 0xd6, 0xb6),
        (AgentState::Unknown, _) => p.overlay1,
    };
    Style::plain().fg(color)
}

/// `content` before and from the byte `at`; all of it before where no character
/// begins there.
pub open spec fn cut_at(content: Seq<char>, at: Option<usize>) -> (Seq<char>, Seq<char>) {
    let bytes = encode_utf8(content);
    match at {
        Some(i) => if is_char_boundary(bytes, i as int) {
            (
                decode_utf8(bytes.subrange(0, i as int)),
                decode_utf8(bytes.subrange(i as int, bytes.len() as int)),
            )
        } else {
            (content, Seq::empty())
        },
        None => (content, Seq::empty()),
    }
}

/// Cutting a line for its tint leaves its text as it is.
pub proof fn law_a_tint_keeps_the_text(content: Seq<char>, at: Option<usize>)
    ensures
        cut_at(content, at).0 + cut_at(content, at).1 == content,
{
    let bytes = encode_utf8(content);
    let (pre, tinted) = cut_at(content, at);
    encode_utf8_valid_utf8(content);
    encode_utf8_decode_utf8(content);
    if at is Some && is_char_boundary(bytes, at->0 as int) {
        let i = at->0 as int;
        valid_utf8_split(bytes, i);
        decode_utf8_encode_utf8(bytes.subrange(0, i));
        decode_utf8_encode_utf8(bytes.subrange(i, bytes.len() as int));
        text::lemma_encode_concat(pre, tinted);
        assert(bytes.subrange(0, i) + bytes.subrange(i, bytes.len() as int) =~= bytes);
        encode_utf8_decode_utf8(pre + tinted);
    } else {
        assert(pre + tinted =~= content);
    }
}

/// A piece of a line in one style.
pub type Piece = (Seq<char>, Style);

/// The longest handle, in bytes, that stands out.
pub const HANDLE_MAX_BYTES: usize = 28;

/// The pieces of a line before its tint: with `bold_handle` a short "handle: "
/// at its start stands out.
pub open spec fn handle_pieces(pre: Seq<char>, bold_handle: bool, base: Style) -> Seq<Piece> {
    match text::part_from(pre, ": "@, 0) {
        Some(at) => if bold_handle && text::byte_len(pre.take(at)) <= HANDLE_MAX_BYTES {
            seq![
                (pre.take(at), base.bold(true)),
                (": "@, base.bold(true)),
                (pre.skip(at + ": "@.len()), base),
            ]
        } else {
            seq![(pre, base)]
        },
        None => seq![(pre, base)],
    }
}

/// The pieces of a line: a bold handle, the body, and the tinted phase.
pub open spec fn line_pieces(
    content: Seq<char>,
    tint_at: Option<usize>,
    bold_handle: bool,
    base: Style,
    tint: Style,
) -> Seq<Piece> {
    let (pre, tinted) = cut_at(content, tint_at);
    let pieces = handle_pieces(pre, bold_handle, base);
    if tinted.len() > 0 {
        pieces.push((tinted, tint))
    } else {
        pieces
    }
}

/// The pieces from the `i`-th on, drawn in row `y` from column `x` up to `end`.
pub open spec fn pieces_picture(pieces: Seq<Piece>, i: int, x: int, end: int, y: u16) -> Seq<
    DrawOpView,
>
    decreases pieces.len() - i,
{
    if i < 0 || i >= pieces.len() || x >= end {
        Seq::empty()
    } else if pieces[i].0.len() == 0 {
        pieces_picture(pieces, i + 1, x, end, y)
    } else {
        let shown = text::truncated(pieces[i].0, (end - x) as nat);
        seq![DrawOpView::Text { x: x as u16, y, text: shown, style: pieces[i].1 }]
            + pieces_picture(pieces, i + 1, x + text::text_width(shown), end, y)
    }
}

/// A line of `w` cells at (`x`, `y`).
#[verifier::opaque]
pub open spec fn line_picture(x: u16, y: u16, w: u16, pieces: Seq<Piece>) -> Seq<DrawOpView> {
    pieces_picture(pieces, 0, x as int, spaces::capped(x + w), y)
}

fn put_piece(ops: &mut Vec<DrawOp>, x: u16, end: u16, y: u16, content: &str, style: Style) -> (out:
    u16)
    requires
        x <= end,
    ensures
        out <= end,
        forall|pieces: Seq<Piece>, i: int|
            0 <= i < pieces.len() && pieces[i] == (content@, style) ==> draw::picture(old(ops)@)
                + #[trigger] pieces_picture(pieces, i, x as int, end as int, y) == draw::picture(
                final(ops)@,
            ) + pieces_picture(pieces, i + 1, out as int, end as int, y),
{
    let ghost before = draw::picture(ops@);
    if x >= end || content.is_empty() {
        proof {
            assert forall|pieces: Seq<Piece>, i: int|
                0 <= i < pieces.len() && pieces[i] == (content@, style) implies before
                + #[trigger] pieces_picture(pieces, i, x as int, end as int, y) == before
                + pieces_picture(pieces, i + 1, x as int, end as int, y) by {
                if x >= end {
                    assert(pieces_picture(pieces, i + 1, x as int, end as int, y) =~= Seq::<
                        DrawOpView,
                    >::empty());
                }
            }
        }
        return x;
    }
    let shown: String = truncate_end(content, (end - x) as usize);
    let cells: usize = display_width(shown.as_str());
    put_text(ops, x, y, shown.as_str(), style);
    let out: u16 = x + cells as u16;
    proof {
        assert forall|pieces: Seq<Piece>, i: int|
            0 <= i < pieces.len() && pieces[i] == (content@, style) implies before
            + #[trigger] pieces_picture(pieces, i, x as int, end as int, y) == draw::picture(ops@)
            + pieces_picture(pieces, i + 1, out as int, end as int, y) by {
            assert(before + pieces_picture(pieces, i, x as int, end as int, y) =~= draw::picture(
                ops@,
            ) + pieces_picture(pieces, i + 1, out as int, end as int, y));
        }
    }
    out
}

fn split_line(content: &str, tint_at: Option<usize>) -> (out: (String, String))
    ensures
        (out.0@, out.1@) == cut_at(content@, tint_at),
{
    if let Some(i) = tint_at {
        if content.is_char_boundary(i) {
            let (pre, tinted) = content.split_at(i);
            proof {
                encode_utf8_decode_utf8(pre@);
                encode_utf8_decode_utf8(tinted@);
            }
            return (pre.to_string(), tinted.to_string());
        }
    }
    (content.to_string(), String::new())
}

/// Draws a line of prose in a tab's box: with `bold_handle` the leading
/// "handle: " in bold, then the body, then the phase in its tint.
pub fn draw_tab_line(
    ops: &mut Vec<DrawOp>,
    x: u16,
    y: u16,
    w: u16,
    content: &str,
    tint_at: Option<usize>,
    bold_handle: bool,
    base: Style,
    tint: Style,
)
    ensures
        draw::picture(final(ops)@) == draw::picture(old(ops)@) + line_picture(
            x,
            y,
            w,
            line_pieces(content@, tint_at, bold_handle, base, tint),
        ),
{
    proof {
        reveal(line_picture);
    }
    let ghost pieces = line_pieces(content@, tint_at, bold_handle, base, tint);
    let end: u16 = x.saturating_add(w);
    let ghost goal = draw::picture(ops@) + pieces_picture(pieces, 0, x as int, end as int, y);
    let (pre, tinted) = split_line(content, tint_at);
    let bold: Style = base.bold(true);
    let mut cx: u16 = x;
    let at: Option<usize> = str_find_part(pre.as_str(), ": ");
    let mut handled: bool = false;
    let ghost mut n: int = 0;
    if let Some(at) = at {
        let colon: Vec<char> = str_chars(": ");
        let len: usize = pre.as_str().unicode_len();
        let head: String = str_cut(pre.as_str(), 0, at);
        let rest: String = str_cut(pre.as_str(), at + colon.len(), len);
        assert(head@ =~= pre@.take(at as int));
        assert(rest@ =~= pre@.skip(at + ": "@.len()));
        if bold_handle && str_byte_len(head.as_str()) <= HANDLE_MAX_BYTES {
            assert(pieces[0] == (head@, bold));
            cx = put_piece(ops, cx, end, y, head.as_str(), bold);
            assert(pieces[1] == (": "@, bold));
            cx = put_piece(ops, cx, end, y, ": ", bold);
            assert(pieces[2] == (rest@, base));
            cx = put_piece(ops, cx, end, y, rest.as_str(), base);
            handled = true;
            proof {
                n = 3;
            }
        }
    }
    if !handled {
        assert(pieces[0] == (pre@, base));
        cx = put_piece(ops, cx, end, y, pre.as_str(), base);
        proof {
            n = 1;
        }
    }
    assert(goal == draw::picture(ops@) + pieces_picture(pieces, n, cx as int, end as int, y));
    if !tinted.as_str().is_empty() {
        assert(pieces[n] == (tinted@, tint));
        cx = put_piece(ops, cx, end, y, tinted.as_str(), tint);
        proof {
            n = n + 1;
        }
    }
    assert(n == pieces.len());
    assert(goal =~= draw::picture(ops@));
}

/// The signs of a frame: top and bottom edge, left and right edge, and the
/// corners from the top left to the bottom right.
pub struct FrameSigns {
    pub top: &'static str,
    pub bottom: &'static str,
    pub left: &'static str,
    pub right: &'static str,
    pub corners: (&'static str, &'static str, &'static str, &'static str),
}

/// The frame of a box: thin lines, or half blocks that hug the fill of a
/// highlighted box exactly.
#[verifier::allow_in_spec]
pub fn frame_signs(filled: bool) -> FrameSigns
    returns
        (if filled {
            FrameSigns {
                top: "▀",
                bottom: "▄",
                left: "▌",
                right: "▐",
                corners: ("▛", "▜", "▙", "▟"),
            }
        } else {
            FrameSigns {
                top: "─",
                bottom: "─",
                left: "│",
                right: "│",
                corners: ("┌", "┐", "└", "┘"),
            }
        }),
{
    if filled {
        FrameSigns {
            top: "▀",
            bottom: "▄",
            left: "▌",
            right: "▐",
            corners: ("▛", "▜", "▙", "▟"),
        }
    } else {
        FrameSigns {
            top: "─",
            bottom: "─",
            left: "│",
            right: "│",
            corners: ("┌", "┐", "└", "┘"),
        }
    }
}

/// A cell.
pub open spec fn cell(x: int, y: int) -> Rect {
    geometry::rect(x, y, 1, 1)
}

/// The frame of `bw` columns from `bx` on, and of the rows `top` to `bottom`.
#[verifier::opaque]
pub open spec fn frame_picture(
    bx: int,
    bw: int,
    top: int,
    bottom: int,
    border: Style,
    filled: bool,
) -> Seq<DrawOpView> {
    let signs = frame_signs(filled);
    let last = bx + bw - 1;
    let inner = geometry::less(bottom, top + 1);
    draw::filled(geometry::rect(bx, top, bw, 1), signs.top@, border) + draw::filled(
        geometry::rect(bx, bottom, bw, 1),
        signs.bottom@,
        border,
    ) + seq![
        DrawOpView::Symbol { area: cell(bx, top), symbol: signs.corners.0@ },
        DrawOpView::Symbol { area: cell(last, top), symbol: signs.corners.1@ },
        DrawOpView::Symbol { area: cell(bx, bottom), symbol: signs.corners.2@ },
        DrawOpView::Symbol { area: cell(last, bottom), symbol: signs.corners.3@ },
    ] + draw::filled(geometry::rect(bx, top + 1, 1, inner), signs.left@, border) + draw::filled(
        geometry::rect(last, top + 1, 1, inner),
        signs.right@,
        border,
    )
}

/// Draws the frame of a tab's box.
pub fn draw_tab_box_border(
    ops: &mut Vec<DrawOp>,
    bx: u16,
    bw: u16,
    top: u16,
    bottom: u16,
    border: Style,
    filled: bool,
)
    requires
        bw > 0,
        bx + bw <= u16::MAX,
        top < u16::MAX,
    ensures
        draw::picture(final(ops)@) == draw::picture(old(ops)@) + frame_picture(
            bx as int,
            bw as int,
            top as int,
            bottom as int,
            border,
            filled,
        ),
{
    proof {
        reveal(frame_picture);
    }
    let signs: FrameSigns = frame_signs(filled);
    let last: u16 = bx + bw - 1;
    let inner: u16 = bottom.saturating_sub(top + 1);
    put_filled(ops, Rect::new(bx, top, bw, 1), signs.top, border);
    put_filled(ops, Rect::new(bx, bottom, bw, 1), signs.bottom, border);
    put_symbol(ops, Rect::new(bx, top, 1, 1), signs.corners.0);
    put_symbol(ops, Rect::new(last, top, 1, 1), signs.corners.1);
    put_symbol(ops, Rect::new(bx, bottom, 1, 1), signs.corners.2);
    put_symbol(ops, Rect::new(last, bottom, 1, 1), signs.corners.3);
    put_filled(ops, Rect::new(bx, top + 1, 1, inner), signs.left, border);
    put_filled(ops, Rect::new(last, top + 1, 1, inner), signs.right, border);
    assert(draw::picture(ops@) =~= draw::picture(old(ops)@) + frame_picture(
        bx as int,
        bw as int,
        top as int,
        bottom as int,
        border,
        filled,
    ));
}

/// An edge of a button: `left`, a line, `right`.
pub open spec fn edge_text(left: Seq<char>, right: Seq<char>, width: int) -> Seq<char> {
    left + text::repeated("─"@, (width - 2) as nat) + right
}

/// A row of text.
pub open spec fn text_row(area: Rect, content: Seq<char>, style: Style, centered: bool) -> DrawOpView {
    DrawOpView::Lines { area, lines: seq![seq![style::span(content, style)]], scroll: 0, centered }
}

/// A button of the header; none where it has no room.
#[verifier::opaque]
pub open spec fn button_picture(rect: Rect, label: Seq<char>, style: Style, p: Palette) -> Seq<
    DrawOpView,
> {
    if rect.width < 3 || rect.height < 3 {
        Seq::empty()
    } else {
        let border = Style::plain().fg(p.text);
        let (x, y, w) = (rect.x as int, rect.y as int, rect.width as int);
        seq![
            text_row(geometry::rect(x, y, w, 1), edge_text("┌"@, "┐"@, w), border, false),
            text_row(geometry::rect(x + 1, y + 1, w - 2, 1), label, style, true),
            text_row(geometry::rect(x, y + 2, w, 1), edge_text("└"@, "┘"@, w), border, false),
        ] + draw::filled(cell(x, y + 1), "│"@, border) + draw::filled(
            cell(x + w - 1, y + 1),
            "│"@,
            border,
        )
    }
}

fn put_text_row(ops: &mut Vec<DrawOp>, area: Rect, content: String, style: Style, centered: bool)
    ensures
        draw::picture(final(ops)@) == draw::picture(old(ops)@).push(
            text_row(area, content@, style, centered),
        ),
{
    let mut lines: Vec<Line> = Vec::new();
    let line: Line = Line::of(content, style);
    lines.push(line);
    assert(views::of(lines@) =~= seq![seq![style::span(content@, style)]]);
    put_lines(ops, area, lines, 0, centered);
}

fn fmt_edge(left: &str, right: &str, width: u16) -> (out: String)
    requires
        width >= 2,
    ensures
        out@ == edge_text(left@, right@, width as int),
{
    let mut out: String = left.to_string();
    push_repeated(&mut out, "─", (width - 2) as usize);
    out.append(right);
    out
}

/// A button has no room, or its cells are coordinates.
pub open spec fn button_fits(rect: Rect) -> bool {
    rect.width < 3 || rect.height < 3 || (rect.end_x() <= u16::MAX && rect.y + 2 <= u16::MAX)
}

/// Draws a button of the header.
pub fn render_header_button(ops: &mut Vec<DrawOp>, rect: Rect, label: &str, style: Style, p: &Palette)
    requires
        button_fits(rect),
    ensures
        draw::picture(final(ops)@) == draw::picture(old(ops)@) + button_picture(
            rect,
            label@,
            style,
            *p,
        ),
{
    proof {
        reveal(button_picture);
    }
    if rect.width < 3 || rect.height < 3 {
        assert(draw::picture(ops@) =~= draw::picture(old(ops)@) + button_picture(
            rect,
            label@,
            style,
            *p,
        ));
        return;
    }
    let border: Style = Style::plain().fg(p.text);
    put_text_row(
        ops,
        Rect::new(rect.x, rect.y, rect.width, 1),
        fmt_edge("┌", "┐", rect.width),
        border,
        false,
    );
    put_text_row(
        ops,
        Rect::new(rect.x + 1, rect.y + 1, rect.width - 2, 1),
        label.to_string(),
        style,
        true,
    );
    put_text_row(
        ops,
        Rect::new(rect.x, rect.y + 2, rect.width, 1),
        fmt_edge("└", "┘", rect.width),
        border,
        false,
    );
    put_filled(ops, Rect::new(rect.x, rect.y + 1, 1, 1), "│", border);
    put_filled(ops, Rect::new(rect.x + rect.width - 1, rect.y + 1, 1, 1), "│", border);
    assert(draw::picture(ops@) =~= draw::picture(old(ops)@) + button_picture(
        rect,
        label@,
        style,
        *p,
    ));
}

/// The text of the first `n` pieces.
pub open spec fn text_of(pieces: Seq<Piece>, n: nat) -> Seq<char>
    decreases n,
{
    if n == 0 {
        Seq::empty()
    } else {
        text_of(pieces, (n - 1) as nat) + pieces[n - 1].0
    }
}

/// The pieces of a line hold its text, all of it and in order. What the tint
/// applies to is the last of them and in the style of the tint. A handle of at
/// most 28 bytes stands out together with its colon where that was asked for;
/// nothing else is bold.
pub proof fn law_the_pieces_of_a_line_hold_its_text(
    content: Seq<char>,
    tint_at: Option<usize>,
    bold_handle: bool,
    base: Style,
    tint: Style,
)
    ensures
        ({
            let pieces = line_pieces(content, tint_at, bold_handle, base, tint);
            let (pre, tinted) = cut_at(content, tint_at);
            let tail: int = if tinted.len() > 0 {
                1
            } else {
                0
            };
            let handle = text::part_from(pre, ": "@, 0);
            &&& text_of(pieces, pieces.len()) == content
            &&& tint_at is None ==> tinted.len() == 0
            &&& tinted.len() > 0 ==> pieces.last() == (tinted, tint)
            &&& bold_handle && handle is Some && text::byte_len(pre.take(handle->0)) <= 28 ==> {
                &&& pieces.len() == 3 + tail
                &&& pieces[0] == (pre.take(handle->0), base.bold(true))
                &&& pieces[1] == (": "@, base.bold(true))
                &&& pieces[2].1 == base
            }
            &&& !(bold_handle && handle is Some && text::byte_len(pre.take(handle->0)) <= 28) ==> {
                &&& pieces.len() == 1 + tail
                &&& pieces[0] == (pre, base)
            }
        }),
{
    let pieces = line_pieces(content, tint_at, bold_handle, base, tint);
    let (pre, tinted) = cut_at(content, tint_at);
    law_a_tint_keeps_the_text(content, tint_at);
    text::law_the_first_part_is_found(pre, ": "@, 0);
    reveal_with_fuel(text_of, 5);
    let heads = handle_pieces(pre, bold_handle, base);
    if heads.len() == 3 {
        let at = text::part_from(pre, ": "@, 0)->0;
        assert(pre =~= pre.take(at) + pre.subrange(at, at + ": "@.len()) + pre.skip(
            at + ": "@.len(),
        ));
        assert(text_of(pieces, 3) =~= pre);
    } else {
        assert(text_of(pieces, 1) =~= pre);
    }
    if tinted.len() == 0 {
        assert(pre + tinted =~= pre);
    }
}

/// The rail of a space has the color that the space is tagged with, and that of
/// text where it is tagged with none of the four.
pub proof fn law_rails_have_the_color_of_their_tag(ws: Workspace, p: Palette)
    ensures
        ({
            let tag = ws.metadata_tokens.text_of("c"@);
            &&& tag == Some("🟥"@) ==> rail_color(ws, p) == Color::Rgb(0xc4, 0x4a, 0x58)
            &&& tag == Some("🟦"@) ==> rail_color(ws, p) == Color::Rgb(0x4a, 0x74, 0xc4)
            &&& tag == Some("🟩"@) ==> rail_color(ws, p) == Color::Rgb(0x4a, 0xa8, 0x66)
            &&& tag == Some("🟪"@) ==> rail_color(ws, p) == Color::Rgb(0x8f, 0x66, 0xc4)
            &&& tag != Some("🟥"@) && tag != Some("🟦"@) && tag != Some("🟩"@) && tag != Some(
                "🟪"@,
            ) ==> rail_color(ws, p) == p.text
        }),
{
    reveal_strlit("🟥");
    reveal_strlit("🟦");
    reveal_strlit("🟩");
    reveal_strlit("🟪");
    assert("🟥"@[0] != "🟦"@[0]);
    assert("🟥"@[0] != "🟩"@[0]);
    assert("🟥"@[0] != "🟪"@[0]);
    assert("🟦"@[0] != "🟩"@[0]);
    assert("🟦"@[0] != "🟪"@[0]);
    assert("🟩"@[0] != "🟪"@[0]);
}

/// A button with room shows its label in its middle row, between two edges as
/// wide as the button; one without room shows nothing.
pub proof fn law_a_button_frames_its_label(rect: Rect, label: Seq<char>, style: Style, p: Palette)
    requires
        rect.fits(),
    ensures
        ({
            let drawn = button_picture(rect, label, style, p);
            let border = Style::plain().fg(p.text);
            &&& rect.width < 3 || rect.height < 3 ==> drawn.len() == 0
            &&& rect.width >= 3 && rect.height >= 3 ==> {
                &&& drawn.contains(
                    text_row(
                        Rect {
                            x: (rect.x + 1) as u16,
                            y: (rect.y + 1) as u16,
                            width: (rect.width - 2) as u16,
                            height: 1,
                        },
                        label,
                        style,
                        true,
                    ),
                )
                &&& drawn.contains(
                    text_row(
                        Rect { x: rect.x, y: rect.y, width: rect.width, height: 1 },
                        seq!['┌'] + text::repeated("─"@, (rect.width - 2) as nat) + seq!['┐'],
                        border,
                        false,
                    ),
                )
                &&& drawn.contains(
                    text_row(
                        Rect { x: rect.x, y: (rect.y + 2) as u16, width: rect.width, height: 1 },
                        seq!['└'] + text::repeated("─"@, (rect.width - 2) as nat) + seq!['┘'],
                        border,
                        false,
                    ),
                )
            }
        }),
{
    reveal(button_picture);
    reveal_strlit("┌");
    reveal_strlit("┐");
    reveal_strlit("└");
    reveal_strlit("┘");
    assert("┌"@ =~= seq!['┌']);
    assert("┐"@ =~= seq!['┐']);
    assert("└"@ =~= seq!['└']);
    assert("┘"@ =~= seq!['┘']);
    if rect.width >= 3 && rect.height >= 3 {
        let drawn = button_picture(rect, label, style, p);
        assert(drawn[0] is Lines && drawn[1] is Lines && drawn[2] is Lines);
    }
}

/// A phase is tinted like the dot of its state: reddish where the agent is
/// blocked, yellowish where it is at work, bluish where it is done and has not
/// been seen, greenish where it has, and faint where nothing is known.
pub proof fn law_phases_are_tinted_by_their_state(seen: bool, p: Palette)
    ensures
        phase_tint(AgentState::Blocked, seen, &p).fg == Some(Color::Rgb(0xe2, 0xae, 0xae)),
        phase_tint(AgentState::Working, seen, &p).fg == Some(Color::Rgb(0xe2, 0xd8, 0xa6)),
        phase_tint(AgentState::Idle, false, &p).fg == Some(Color::Rgb(0xaa, 0xd4, 0xd4)),
        phase_tint(AgentState::Idle, true, &p).fg == Some(Color::Rgb(0xb6, 0xd6, 0xb6)),
        phase_tint(AgentState::Unknown, seen, &p).fg == Some(p.overlay1),
        forall|state: AgentState|
            (#[trigger] phase_tint(state, seen, &p)).bg is None && phase_tint(
                state,
                seen,
                &p,
            ).bold is None && phase_tint(state, seen, &p).dim is None,
{
}

/// A frame has an edge along each of its sides, over the whole width above and
/// below and between those at the left and the right, thin or, around a fill, of
/// half blocks that hug it.
#[verifier::rlimit(30)]
#[verifier::spinoff_prover]
pub proof fn law_a_frame_has_four_edges(
    bx: int,
    bw: int,
    top: int,
    bottom: int,
    border: Style,
    filled: bool,
)
    requires
        0 <= bx,
        1 <= bw,
        bx + bw <= u16::MAX,
        0 <= top < bottom < u16::MAX,
    ensures
        ({
            let drawn = frame_picture(bx, bw, top, bottom, border, filled);
            let upper = Rect { x: bx as u16, y: top as u16, width: bw as u16, height: 1 };
            let lower = Rect { y: bottom as u16, ..upper };
            let left = Rect {
                x: bx as u16,
                y: (top + 1) as u16,
                width: 1,
                height: (bottom - top - 1) as u16,
            };
            let right = Rect { x: (bx + bw - 1) as u16, ..left };
            let signs = if filled {
                ("▀"@, "▄"@, "▌"@, "▐"@)
            } else {
                ("─"@, "─"@, "│"@, "│"@)
            };
            let has = |area: Rect, symbol: Seq<char>|
                drawn.contains(DrawOpView::Symbol { area, symbol }) && drawn.contains(
                    DrawOpView::Paint { area, style: border },
                );
            &&& has(upper, signs.0) && has(lower, signs.1)
            &&& has(left, signs.2) && has(right, signs.3)
        }),
{
    reveal(frame_picture);
    let drawn = frame_picture(bx, bw, top, bottom, border, filled);
    assert(drawn.len() == 12);
    assert(drawn[0] is Symbol && drawn[1] is Paint && drawn[2] is Symbol && drawn[3] is Paint);
    assert(drawn[8] is Symbol && drawn[9] is Paint && drawn[10] is Symbol && drawn[11] is Paint);
}

} // verus!
