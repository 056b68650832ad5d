//! Right-side drill-in for the focused tab: one aggregate line, then the task
//! timeline: done in green with per-task time, in flight in yellow with a
//! running clock, inferred next steps in purple. The bottom third holds the
//! prompt viewer cycling recent exchanges; clicking a task row pins it to that
//! exchange.

use vstd::prelude::*;

use crate::app::detail_panel::{Exchange, SubLane, Timeline, TimelineItem};
use crate::app::state::AppState;
use crate::draw;
use crate::draw::{put_filled, put_lines, DrawOp, DrawOpView};
use crate::geometry;
use crate::geometry::Rect;
use crate::seconds;
use crate::seconds::Seconds;
use crate::seqs;
use crate::style;
use crate::style::{Color, Line, Palette, Span, SpanView, Style};
use crate::text;
use crate::text::{any_is, display_width, push_repeated, str_eq, truncate_end};
use crate::ui::figures;
use crate::ui::figures::{fmt_secs, fmt_tokens};
use crate::ui::viewer;
use crate::ui::viewer::{viewer_hit, viewer_lines};
use crate::ui::wrap;
use crate::ui::wrap::feed_query;
use crate::views;

verus! {

/// What is left of the panel's area inside its border and margins.
pub open spec fn content_of(area: Rect) -> Rect {
    geometry::rect(
        area.x + 2,
        area.y + 1,
        geometry::less(area.width as int, 3),
        geometry::less(area.height as int, 1),
    )
}

/// What is left of the panel's area inside its border and margins.
pub fn content_rect(area: Rect) -> (out: Rect)
    requires
        area.x + 2 <= u16::MAX,
        area.y + 1 <= u16::MAX,
    ensures
        out == content_of(area),
        out.fits(),
{
    Rect::new(
        area.x + 2,
        area.y + 1,
        area.width.saturating_sub(3),
        area.height.saturating_sub(1),
    )
}

/// The fewest content rows that have room for the prompt viewer.
pub const VIEWER_MIN_CONTENT_ROWS: u16 = 9;

/// The content's list and viewer: the viewer takes the bottom third once the
/// content is tall enough for both.
pub open spec fn split_of(content: Rect) -> (Rect, Rect) {
    if content.height < VIEWER_MIN_CONTENT_ROWS {
        (content, geometry::no_rect())
    } else {
        let viewer_h = content.height as int / 3;
        let list_h = content.height - viewer_h;
        (
            geometry::rect(content.x as int, content.y as int, content.width as int, list_h),
            geometry::rect(
                content.x as int,
                content.y + list_h,
                content.width as int,
                viewer_h,
            ),
        )
    }
}

/// The list keeps the top two thirds; the prompt viewer takes the bottom third
/// once the content area is tall enough for both.
pub fn split_content(content: Rect) -> (out: (Rect, Rect))
    requires
        content.height < VIEWER_MIN_CONTENT_ROWS || content.y + (content.height - content.height
            as int / 3) <= u16::MAX,
    ensures
        out == split_of(content),
        content.fits() ==> out.0.fits() && out.1.fits(),
{
    if content.height < VIEWER_MIN_CONTENT_ROWS {
        return (content, Rect { x: 0, y: 0, width: 0, height: 0 });
    }
    let viewer_h: u16 = content.height / 3;
    let list_h: u16 = content.height - viewer_h;
    (
        Rect::new(content.x, content.y, content.width, list_h),
        Rect::new(content.x, content.y + list_h, content.width, viewer_h),
    )
}

/// List and viewer share the content without a gap or an overlap.
pub proof fn law_list_and_viewer_share_the_content(content: Rect)
    requires
        content.fits(),
    ensures
        ({
            let (list, viewer) = split_of(content);
            &&& list.height + viewer.height == content.height
            &&& list.inside(content)
            &&& viewer.height > 0 ==> viewer.inside(content) && viewer.y == list.end_y()
                && viewer.end_y() == content.end_y()
            &&& viewer.height > 0 <==> content.height >= VIEWER_MIN_CONTENT_ROWS
        }),
{
}

/// Where the prompt viewer is drawn; nowhere in a panel too small for it.
pub open spec fn viewer_of(area: Rect) -> Rect {
    if area.width < 4 || area.height < 2 {
        geometry::no_rect()
    } else {
        split_of(content_of(area)).1
    }
}

/// The panel is too small to be drawn, or its corner leaves room for a margin.
pub open spec fn has_margins(area: Rect) -> bool {
    area.width < 4 || area.height < 2 || (area.x + 2 <= u16::MAX && area.y + 1 <= u16::MAX)
}

/// Where the prompt viewer is drawn.
pub fn detail_panel_viewer_rect(area: Rect) -> (out: Rect)
    requires
        has_margins(area),
    ensures
        out == viewer_of(area),
        out.fits(),
{
    if area.width < 4 || area.height < 2 {
        return Rect { x: 0, y: 0, width: 0, height: 0 };
    }
    split_content(content_rect(area)).1
}

/// How far a list of `lines` rows scrolls in `content`.
pub fn max_scroll_for(lines: usize, content: Rect) -> (out: usize)
    ensures
        out == geometry::less(lines as int, content.height as int),
{
    lines.saturating_sub(content.height as usize)
}

/// What a click on the panel does.
#[derive(Clone, Debug, PartialEq, Eq)]
#[allow(inconsistent_fields)]
pub enum DetailPanelHit {
    /// Pin the viewer to exchange `u`; `query` also jumps the feed.
    ViewExchange { u: String, query: Option<String> },
    /// Unfold or fold the events of the subagent at `path`.
    ToggleSub { path: String },
    /// A click anywhere in the viewer unpins it and resumes cycling.
    ViewerResume,
    /// Pin the viewer to the previous exchange; `None` at the oldest.
    ViewerPrev { u: Option<String> },
    /// Pin the viewer to the next exchange; `None` at the newest.
    ViewerNext { u: Option<String> },
    /// Scroll the terminal feed to the shown exchange.
    ViewerJump { query: Option<String> },
}

/// A [`DetailPanelHit`] by its texts.
#[allow(inconsistent_fields)]
pub enum Hit {
    ViewExchange { u: Seq<char>, query: Option<Seq<char>> },
    ToggleSub { path: Seq<char> },
    ViewerResume,
    ViewerPrev { u: Option<Seq<char>> },
    ViewerNext { u: Option<Seq<char>> },
    ViewerJump { query: Option<Seq<char>> },
}

impl View for DetailPanelHit {
    type V = Hit;

    open spec fn view(&self) -> Hit {
        match self {
            DetailPanelHit::ViewExchange { u, query } => Hit::ViewExchange {
                u: u@,
                query: views::text(*query),
            },
            DetailPanelHit::ToggleSub { path } => Hit::ToggleSub { path: path@ },
            DetailPanelHit::ViewerResume => Hit::ViewerResume,
            DetailPanelHit::ViewerPrev { u } => Hit::ViewerPrev { u: views::text(*u) },
            DetailPanelHit::ViewerNext { u } => Hit::ViewerNext { u: views::text(*u) },
            DetailPanelHit::ViewerJump { query } => Hit::ViewerJump { query: views::text(*query) },
        }
    }
}

/// What a click does, if it does anything.
pub open spec fn hit_of(hit: Option<DetailPanelHit>) -> Option<Hit> {
    match hit {
        Some(hit) => Some(hit@),
        None => None,
    }
}

/// The exchanges about `u` that have a prompt.
pub open spec fn prompted(u: Seq<char>) -> spec_fn(Exchange) -> bool {
    |e: Exchange| e.u@ == u && e.head@.len() > 0
}

/// The prompt to jump to for a task: the longer one of its exchange where there
/// is one, else the task's clipped copy.
pub open spec fn jump_text(tl: Timeline, item: TimelineItem) -> Seq<char> {
    match seqs::first_where(tl.exch@, prompted(item.u@)) {
        Some(i) => tl.exch@[i].head@,
        None => item.head@,
    }
}

/// Jump text for an item: the longer exchange prompt when present (better
/// scrollback odds), else the item's clipped copy.
pub fn jump_head<'a>(tl: &'a Timeline, item: &'a TimelineItem) -> (out: &'a str)
    ensures
        out@ == jump_text(*tl, *item),
{
    let mut i: usize = 0;
    while i < tl.exch.len()
        invariant
            i <= tl.exch@.len(),
            forall|j: int| 0 <= j < i ==> !prompted(item.u@)(#[trigger] tl.exch@[j]),
        decreases tl.exch@.len() - i,
    {
        if str_eq(tl.exch[i].u.as_str(), item.u.as_str())
            && !tl.exch[i].head.as_str().is_empty() {
            proof {
                seqs::lemma_first_is(tl.exch@, prompted(item.u@), i as int);
            }
            return tl.exch[i].head.as_str();
        }
        i = i + 1;
    }
    proof {
        seqs::lemma_first_none(tl.exch@, prompted(item.u@));
    }
    item.head.as_str()
}

/// What the panel says of the whole session.
pub open spec fn aggregate_text(tl: Timeline) -> Seq<char> {
    let parts = figures::span_text(tl.total_secs@) + " · "@ + figures::tokens_text(tl.out_tokens as nat)
        + " tok"@;
    if tl.status@.len() == 0 {
        parts
    } else {
        parts + " · "@ + tl.status@
    }
}

/// What the panel says of the whole session: its time, tokens and status.
pub fn aggregate_line(tl: &Timeline) -> (out: String)
    ensures
        out@ == aggregate_text(*tl),
{
    let mut out: String = fmt_secs(tl.total_secs);
    out.append(" · ");
    out.append(fmt_tokens(tl.out_tokens).as_str());
    out.append(" tok");
    if !tl.status.as_str().is_empty() {
        out.append(" · ");
        out.append(tl.status.as_str());
    }
    out
}

/// The dim style of secondary text.
pub open spec fn dim(p: Palette) -> Style {
    Style::plain().fg(p.subtext0)
}

/// The cells that a row leaves to its label, beside the glyph and the text at
/// its right end.
pub open spec fn label_cells(right: Seq<char>, width: int) -> int {
    let right_w = text::text_width(right) as int;
    geometry::max(
        geometry::less(
            width,
            if right_w > 0 {
                right_w + 3
            } else {
                2int
            },
        ),
        4,
    )
}

/// A row of the panel: a glyph, a label cut to what is left of the width, and
/// `right` at the end. An item without a label is still being summarized; raw
/// prompt text is never shown.
pub open spec fn item_spans(
    glyph: Seq<char>,
    label: Seq<char>,
    right: Option<Seq<char>>,
    color: Color,
    width: int,
    p: Palette,
) -> Seq<SpanView> {
    let (name, style) = if label.len() == 0 {
        ("summarizing…"@, dim(p))
    } else {
        (label, Style::plain().fg(color))
    };
    let end = match right {
        Some(right) => right,
        None => Seq::empty(),
    };
    let right_w = text::text_width(end) as int;
    let shown = text::truncated(name, label_cells(end, width) as nat);
    let pad = geometry::max(
        geometry::less(width, 2 + text::text_width(shown) + right_w),
        1,
    );
    let head = seq![style::span(glyph + " "@ + shown, style)];
    if right_w > 0 {
        head + seq![
            style::span(text::repeated(" "@, pad as nat), Style::plain()),
            style::span(end, dim(p)),
        ]
    } else {
        head
    }
}

/// A row of the panel: a glyph, a label and a text at the right end.
pub fn item_line(
    glyph: &str,
    label: &str,
    right: Option<String>,
    color: Color,
    width: u16,
    p: &Palette,
) -> (out: Line)
    ensures
        out@ == item_spans(glyph@, label@, views::text(right), color, width as int, *p),
{
    broadcast use views::group_views;

    let faint: Style = Style::plain().fg(p.subtext0);
    let (name, look): (&str, Style) = if label.is_empty() {
        ("summarizing…", faint)
    } else {
        (label, Style::plain().fg(color))
    };
    let end: String = match right {
        Some(right) => right,
        None => String::new(),
    };
    let right_w: usize = display_width(end.as_str());
    let mut room: usize = (width as usize).saturating_sub(2);
    if right_w > 0 {
        room = room.saturating_sub(right_w).saturating_sub(1);
    }
    if room < 4 {
        room = 4;
    }
    let shown: String = truncate_end(name, room);
    let shown_w: usize = display_width(shown.as_str());
    let mut pad: usize = (width as usize).saturating_sub(2).saturating_sub(
        shown_w,
    ).saturating_sub(right_w);
    if pad < 1 {
        pad = 1;
    }
    let mut content: String = glyph.to_string();
    content.append(" ");
    content.append(shown.as_str());
    let mut spans: Vec<Span> = Vec::new();
    spans.push(Span::styled(content, look));
    if right_w > 0 {
        let mut blanks: String = String::new();
        push_repeated(&mut blanks, " ", pad);
        assert(blanks@ =~= text::repeated(" "@, pad as nat));
        spans.push(Span::styled(blanks, Style::plain()));
        spans.push(Span::styled(end, faint));
    }
    let out = Line { spans };
    assert(out@ =~= item_spans(glyph@, label@, views::text(right), color, width as int, *p));
    out
}

/// A rule with a title at its left end.
pub open spec fn header_spans(title: Seq<char>, width: int, p: Palette) -> Seq<SpanView> {
    let label = "─ "@ + title + " "@;
    let fill = geometry::less(width, text::text_width(label) as int);
    seq![style::span(label + text::repeated("─"@, fill as nat), Style::plain().fg(p.overlay0))]
}

/// A rule with a title at its left end.
pub fn section_header(title: &str, width: u16, p: &Palette) -> (out: Line)
    ensures
        out@ == header_spans(title@, width as int, *p),
{
    let mut label: String = "─ ".to_string();
    label.append(title);
    label.append(" ");
    let fill: usize = (width as usize).saturating_sub(display_width(label.as_str()));
    push_repeated(&mut label, "─", fill);
    Line::of(label, Style::plain().fg(p.overlay0))
}

/// A row of the panel, and what a click on it does.
#[derive(Debug)]
pub struct PanelRow {
    pub line: Line,
    pub hit: Option<DetailPanelHit>,
}

/// A [`PanelRow`] by its texts.
pub struct RowView {
    pub line: Seq<SpanView>,
    pub hit: Option<Hit>,
}

impl View for PanelRow {
    type V = RowView;

    open spec fn view(&self) -> RowView {
        RowView { line: self.line@, hit: hit_of(self.hit) }
    }
}

/// A row that a click does nothing on.
pub open spec fn mute(line: Seq<SpanView>) -> RowView {
    RowView { line, hit: None }
}

/// A row of dim text.
pub open spec fn note(content: Seq<char>, p: Palette) -> RowView {
    mute(seq![style::span(content, dim(p))])
}

/// An empty row, and the rule that a section starts with.
pub open spec fn section_rows(title: Seq<char>, width: int, p: Palette) -> Seq<RowView> {
    seq![mute(Seq::empty()), mute(header_spans(title, width, p))]
}

/// The time that has passed since `ts`; none where `ts` is not known.
pub open spec fn running_since(ts: int, now: int) -> Option<Seq<char>> {
    if ts > 0 {
        Some(figures::span_text(seconds::difference(now, ts)))
    } else {
        None
    }
}

/// The row of a task: a click pins the viewer to its exchange.
pub open spec fn task_row(
    tl: Timeline,
    item: TimelineItem,
    glyph: Seq<char>,
    right: Option<Seq<char>>,
    color: Color,
    width: int,
    p: Palette,
) -> RowView {
    RowView {
        line: item_spans(glyph, item.label@, right, color, width, p),
        hit: Some(
            Hit::ViewExchange { u: item.u@, query: wrap::query_of(jump_text(tl, item)) },
        ),
    }
}

/// The rows of the done tasks: green, with the time that each took.
pub open spec fn done_rows(tl: Timeline, width: int, p: Palette) -> Seq<RowView> {
    tl.done@.map_values(
        |item: TimelineItem|
            task_row(
                tl,
                item,
                "✓"@,
                match item.secs {
                    Some(secs) => Some(figures::span_text(secs@)),
                    None => None,
                },
                p.green,
                width,
                p,
            ),
    )
}

/// The rows of the tasks in flight: yellow, with a running clock.
pub open spec fn current_rows(tl: Timeline, width: int, now: int, p: Palette) -> Seq<RowView> {
    tl.current@.map_values(
        |item: TimelineItem|
            task_row(tl, item, "●"@, running_since(item.ts@, now), p.yellow, width, p),
    )
}

/// The rows of the inferred next steps: purple, and mute.
pub open spec fn next_rows(tl: Timeline, width: int, p: Palette) -> Seq<RowView> {
    tl.next@.map_values(
        |label: String| mute(item_spans("◇"@, label@, None, p.mauve, width, p)),
    )
}

/// The rows of all tasks under their rule; none without a task.
pub open spec fn all_task_rows(tl: Timeline, width: int, now: int, p: Palette) -> Seq<RowView> {
    let rows = done_rows(tl, width, p) + current_rows(tl, width, now, p) + next_rows(tl, width, p);
    if rows.len() == 0 {
        Seq::empty()
    } else {
        section_rows("tasks"@, width, p) + rows
    }
}

/// The color and the clock of a subagent: a finished one is green like a done
/// task, with its whole runtime.
pub open spec fn lane_look(sub: SubLane, now: int, p: Palette) -> (Color, Option<Seq<char>>) {
    if sub.status@ == "done"@ {
        (
            p.green,
            if sub.started@ > 0 && sub.ended@ > sub.started@ {
                Some(figures::span_text(seconds::difference(sub.ended@, sub.started@)))
            } else {
                None
            },
        )
    } else {
        (p.yellow, running_since(sub.started@, now))
    }
}

/// The rows of a subagent: a click on the first unfolds its events.
pub open spec fn lane_rows(
    sub: SubLane,
    expanded: Seq<String>,
    width: int,
    now: int,
    p: Palette,
) -> Seq<RowView> {
    let (color, clock) = lane_look(sub, now, p);
    let head = RowView {
        line: item_spans("●"@, sub.label@, clock, color, width, p),
        hit: Some(Hit::ToggleSub { path: sub.path@ }),
    };
    if text::holds_text(expanded, sub.path@) {
        seq![head] + sub.events@.map_values(|event: String| note("   "@ + event@, p))
    } else {
        seq![head]
    }
}

/// The rows of the first `n` subagents.
pub open spec fn lanes_to(
    subs: Seq<SubLane>,
    expanded: Seq<String>,
    width: int,
    now: int,
    p: Palette,
    n: nat,
) -> Seq<RowView>
    decreases n,
{
    if n == 0 {
        Seq::empty()
    } else {
        lanes_to(subs, expanded, width, now, p, (n - 1) as nat) + lane_rows(
            subs[n - 1],
            expanded,
            width,
            now,
            p,
        )
    }
}

/// The rows of all subagents under their rule; none without a subagent.
pub open spec fn all_lane_rows(
    subs: Seq<SubLane>,
    expanded: Seq<String>,
    width: int,
    now: int,
    p: Palette,
) -> Seq<RowView> {
    if subs.len() == 0 {
        Seq::empty()
    } else {
        section_rows("subagents"@, width, p) + lanes_to(subs, expanded, width, now, p, subs.len())
    }
}

/// The timeline that the panel shows.
pub open spec fn timeline_of(app: AppState) -> Option<Timeline> {
    match app.detail_panel {
        Some(cache) => cache.timeline,
        None => None,
    }
}

/// The rows of the list.
pub open spec fn panel_rows(app: AppState, width: int, now: int) -> Seq<RowView> {
    let p = app.palette;
    if app.detail_panel is None {
        seq![note("no agent session in this pane"@, p)]
    } else {
        match timeline_of(app) {
            None => seq![note("timeline pending"@, p)],
            Some(tl) => seq![note(aggregate_text(tl), p)] + all_task_rows(tl, width, now, p)
                + all_lane_rows(tl.subs@, app.detail_panel_expanded@, width, now, p),
        }
    }
}

fn put_row(rows: &mut Vec<PanelRow>, line: Line, hit: Option<DetailPanelHit>)
    ensures
        views::of(final(rows)@) == views::of(old(rows)@).push(
            RowView { line: line@, hit: hit_of(hit) },
        ),
{
    broadcast use views::group_views;

    rows.push(PanelRow { line, hit });
}

fn put_section(rows: &mut Vec<PanelRow>, title: &str, width: u16, p: &Palette)
    ensures
        views::of(final(rows)@) == views::of(old(rows)@) + section_rows(title@, width as int, *p),
{
    put_row(rows, Line::empty(), None);
    put_row(rows, section_header(title, width, p), None);
    assert(views::of(rows@) =~= views::of(old(rows)@) + section_rows(title@, width as int, *p));
}

fn fmt_running(ts: Seconds, now: Seconds) -> (out: Option<String>)
    ensures
        views::text(out) == running_since(ts@, now@),
{
    if !ts.is_positive() {
        None
    } else if now.exceeds(ts) {
        Some(fmt_secs(now.minus(ts)))
    } else {
        proof {
            seconds::law_differences_turn_with_their_sides(ts@, now@);
        }
        Some(fmt_secs(Seconds::zero()))
    }
}

fn put_task(
    rows: &mut Vec<PanelRow>,
    tl: &Timeline,
    item: &TimelineItem,
    glyph: &str,
    right: Option<String>,
    color: Color,
    width: u16,
    p: &Palette,
)
    ensures
        views::of(final(rows)@) == views::of(old(rows)@).push(
            task_row(*tl, *item, glyph@, views::text(right), color, width as int, *p),
        ),
{
    let line: Line = item_line(glyph, item.label.as_str(), right, color, width, p);
    let query: Option<String> = feed_query(jump_head(tl, item));
    put_row(rows, line, Some(DetailPanelHit::ViewExchange { u: item.u.clone(), query }));
}

fn put_tasks(rows: &mut Vec<PanelRow>, tl: &Timeline, width: u16, now: Seconds, p: &Palette)
    ensures
        views::of(final(rows)@) == views::of(old(rows)@) + all_task_rows(
            *tl,
            width as int,
            now@,
            *p,
        ),
{
    let ghost w = width as int;
    let ghost done = done_rows(*tl, w, *p);
    let ghost current = current_rows(*tl, w, now@, *p);
    let ghost next = next_rows(*tl, w, *p);
    if tl.done.len() == 0 && tl.current.len() == 0 && tl.next.len() == 0 {
        assert(views::of(rows@) =~= views::of(old(rows)@) + all_task_rows(*tl, w, now@, *p));
        return;
    }
    put_section(rows, "tasks", width, p);
    let ghost start = views::of(rows@);
    let mut i: usize = 0;
    assert(start + done.take(0) =~= start);
    while i < tl.done.len()
        invariant
            i <= tl.done@.len(),
            w == width,
            done == done_rows(*tl, w, *p),
            views::of(rows@) == start + done.take(i as int),
        decreases tl.done@.len() - i,
    {
        let right: Option<String> = match tl.done[i].secs {
            Some(secs) => Some(fmt_secs(secs)),
            None => None,
        };
        put_task(rows, tl, &tl.done[i], "✓", right, p.green, width, p);
        assert(start + done.take(i + 1) =~= (start + done.take(i as int)).push(done[i as int]));
        i = i + 1;
    }
    assert(done.take(i as int) =~= done);
    let ghost mid = start + done;
    let mut k: usize = 0;
    assert(mid + current.take(0) =~= mid);
    while k < tl.current.len()
        invariant
            k <= tl.current@.len(),
            w == width,
            current == current_rows(*tl, w, now@, *p),
            views::of(rows@) == mid + current.take(k as int),
        decreases tl.current@.len() - k,
    {
        let right: Option<String> = fmt_running(tl.current[k].ts, now);
        put_task(rows, tl, &tl.current[k], "●", right, p.yellow, width, p);
        assert(mid + current.take(k + 1) =~= (mid + current.take(k as int)).push(
            current[k as int],
        ));
        k = k + 1;
    }
    assert(current.take(k as int) =~= current);
    let ghost late = mid + current;
    let mut m: usize = 0;
    assert(late + next.take(0) =~= late);
    while m < tl.next.len()
        invariant
            m <= tl.next@.len(),
            w == width,
            next == next_rows(*tl, w, *p),
            views::of(rows@) == late + next.take(m as int),
        decreases tl.next@.len() - m,
    {
        let line: Line = item_line("◇", tl.next[m].as_str(), None, p.mauve, width, p);
        put_row(rows, line, None);
        assert(late + next.take(m + 1) =~= (late + next.take(m as int)).push(next[m as int]));
        m = m + 1;
    }
    assert(next.take(m as int) =~= next);
    assert(views::of(rows@) =~= views::of(old(rows)@) + all_task_rows(*tl, w, now@, *p));
}

fn put_lane(
    rows: &mut Vec<PanelRow>,
    sub: &SubLane,
    expanded: &Vec<String>,
    width: u16,
    now: Seconds,
    p: &Palette,
)
    ensures
        views::of(final(rows)@) == views::of(old(rows)@) + lane_rows(
            *sub,
            expanded@,
            width as int,
            now@,
            *p,
        ),
{
    let ghost all = lane_rows(*sub, expanded@, width as int, now@, *p);
    let ghost start = views::of(rows@);
    let (color, clock): (Color, Option<String>) = if str_eq(sub.status.as_str(), "done") {
        let total: Option<String> = if sub.started.is_positive() && sub.ended.exceeds(
            sub.started,
        ) {
            Some(fmt_secs(sub.ended.minus(sub.started)))
        } else {
            None
        };
        (p.green, total)
    } else {
        (p.yellow, fmt_running(sub.started, now))
    };
    let line: Line = item_line("●", sub.label.as_str(), clock, color, width, p);
    put_row(rows, line, Some(DetailPanelHit::ToggleSub { path: sub.path.clone() }));
    assert(views::of(rows@) =~= start + all.take(1));
    if any_is(expanded, sub.path.as_str()) {
        let mut i: usize = 0;
        while i < sub.events.len()
            invariant
                i <= sub.events@.len(),
                all == lane_rows(*sub, expanded@, width as int, now@, *p),
                text::holds_text(expanded@, sub.path@),
                views::of(rows@) == start + all.take(1 + i),
            decreases sub.events@.len() - i,
        {
            let mut content: String = "   ".to_string();
            content.append(sub.events[i].as_str());
            put_row(rows, Line::of(content, Style::plain().fg(p.subtext0)), None);
            assert(all[1 + i] == note("   "@ + sub.events@[i as int]@, *p));
            assert(start + all.take(2 + i) =~= (start + all.take(1 + i)).push(all[1 + i]));
            i = i + 1;
        }
    }
    assert(all.take(all.len() as int) =~= all);
}

/// The rows of the list, each with what a click on it does.
pub fn detail_panel_lines_with_hits(app: &AppState, width: u16, now: Seconds) -> (out: Vec<PanelRow>)
    ensures
        views::of(out@) == panel_rows(*app, width as int, now@),
{
    broadcast use views::group_views;

    let p: &Palette = &app.palette;
    let faint: Style = Style::plain().fg(p.subtext0);
    let ghost w = width as int;
    let mut rows: Vec<PanelRow> = Vec::new();
    let cache = match &app.detail_panel {
        Some(cache) => cache,
        None => {
            put_row(
                &mut rows,
                Line::of("no agent session in this pane".to_string(), faint),
                None,
            );
            assert(views::of(rows@) =~= panel_rows(*app, w, now@));
            return rows;
        },
    };
    let tl: &Timeline = match &cache.timeline {
        Some(tl) => tl,
        None => {
            put_row(&mut rows, Line::of("timeline pending".to_string(), faint), None);
            assert(views::of(rows@) =~= panel_rows(*app, w, now@));
            return rows;
        },
    };
    put_row(&mut rows, Line::of(aggregate_line(tl), faint), None);
    put_tasks(&mut rows, tl, width, now, p);
    let ghost start = views::of(rows@);
    assert(start =~= seq![note(aggregate_text(*tl), *p)] + all_task_rows(*tl, w, now@, *p));
    let expanded: &Vec<String> = &app.detail_panel_expanded;
    if tl.subs.len() > 0 {
        put_section(&mut rows, "subagents", width, p);
        let ghost mid = views::of(rows@);
        let mut i: usize = 0;
        assert(mid + lanes_to(tl.subs@, expanded@, w, now@, *p, 0) =~= mid);
        while i < tl.subs.len()
            invariant
                i <= tl.subs@.len(),
                w == width,
                views::of(rows@) == mid + lanes_to(tl.subs@, expanded@, w, now@, *p, i as nat),
            decreases tl.subs@.len() - i,
        {
            put_lane(&mut rows, &tl.subs[i], expanded, width, now, p);
            i = i + 1;
            assert(views::of(rows@) =~= mid + lanes_to(
                tl.subs@,
                expanded@,
                w,
                now@,
                *p,
                i as nat,
            ));
        }
    }
    assert(views::of(rows@) =~= panel_rows(*app, w, now@));
    rows
}

/// The lines of the list.
pub open spec fn lines_of(rows: Seq<RowView>) -> Seq<Seq<SpanView>> {
    rows.map_values(|row: RowView| row.line)
}

/// The lines of the list.
pub fn detail_panel_lines(app: &AppState, width: u16, now: Seconds) -> (out: Vec<Line>)
    ensures
        views::of(out@) == lines_of(panel_rows(*app, width as int, now@)),
{
    broadcast use views::group_views;

    let rows: Vec<PanelRow> = detail_panel_lines_with_hits(app, width, now);
    let ghost all = rows@;
    let ghost lines = lines_of(panel_rows(*app, width as int, now@));
    let mut out: Vec<Line> = Vec::new();
    assert(views::of(out@) =~= lines.take(0));
    for row in it: rows
        invariant
            it.seq() == all,
            lines == lines_of(views::of(all)),
            views::of(out@) == lines.take(it.index() as int),
    {
        let ghost n = it.index() as int;
        assert(row@.line == lines[n]);
        out.push(row.line);
        assert(lines.take(n + 1) =~= lines.take(n).push(lines[n]));
    }
    assert(lines.take(lines.len() as int) =~= lines);
    out
}

/// How far the list scrolls in the panel in `area`.
pub open spec fn list_max_scroll(app: AppState, area: Rect) -> int {
    let list = split_of(content_of(area)).0;
    geometry::less(panel_rows(app, list.width as int, 0).len() as int, list.height as int)
}

/// What the rows do and how many there are does not change with the time.
pub proof fn law_clicks_do_not_depend_on_the_time(app: AppState, width: int, now: int, later: int)
    ensures
        panel_rows(app, width, now).len() == panel_rows(app, width, later).len(),
        forall|i: int|
            0 <= i < panel_rows(app, width, now).len() ==> (#[trigger] panel_rows(
                app,
                width,
                now,
            )[i]).hit == panel_rows(app, width, later)[i].hit,
{
    if let Some(tl) = timeline_of(app) {
        let p = app.palette;
        let expanded = app.detail_panel_expanded@;
        lemma_lane_hits(tl.subs@, expanded, width, now, later, p, tl.subs@.len());
        assert(all_task_rows(tl, width, now, p).len() == all_task_rows(tl, width, later, p).len());
        assert forall|i: int| 0 <= i < all_task_rows(tl, width, now, p).len() implies (
        #[trigger] all_task_rows(tl, width, now, p)[i]).hit == all_task_rows(
            tl,
            width,
            later,
            p,
        )[i].hit by {}
    }
}

proof fn lemma_lane_hits(
    subs: Seq<SubLane>,
    expanded: Seq<String>,
    width: int,
    now: int,
    later: int,
    p: Palette,
    n: nat,
)
    requires
        n <= subs.len(),
    ensures
        lanes_to(subs, expanded, width, now, p, n).len() == lanes_to(
            subs,
            expanded,
            width,
            later,
            p,
            n,
        ).len(),
        forall|i: int|
            0 <= i < lanes_to(subs, expanded, width, now, p, n).len() ==> (#[trigger] lanes_to(
                subs,
                expanded,
                width,
                now,
                p,
                n,
            )[i]).hit == lanes_to(subs, expanded, width, later, p, n)[i].hit,
    decreases n,
{
    if n > 0 {
        lemma_lane_hits(subs, expanded, width, now, later, p, (n - 1) as nat);
    }
}

/// How far the list scrolls in the panel in `area`.
pub fn detail_panel_max_scroll(app: &AppState, area: Rect) -> (out: usize)
    requires
        has_margins(area),
    ensures
        out == if area.width < 4 || area.height < 2 {
            0
        } else {
            list_max_scroll(*app, area)
        },
{
    if area.width < 4 || area.height < 2 {
        return 0;
    }
    let (list, _viewer) = split_content(content_rect(area));
    let lines: Vec<Line> = detail_panel_lines(app, list.width, Seconds::zero());
    assert(views::of(lines@).len() == lines@.len());
    max_scroll_for(lines.len(), list)
}

/// What a click into the panel in `area` does.
pub open spec fn panel_click(
    app: AppState,
    area: Rect,
    col: int,
    row: int,
    clock: (i32, i32),
) -> Option<Hit> {
    let (list, viewer) = split_of(content_of(area));
    let rows = panel_rows(app, list.width as int, 0);
    let scroll = geometry::min(app.detail_panel_scroll as int, list_max_scroll(app, area));
    let at = row - list.y + scroll;
    if viewer.height > 0 && viewer.y <= row < viewer.end_y() {
        Some(viewer::viewer_click(app, viewer, col, row, clock))
    } else if list.y <= row < list.end_y() && at < rows.len() {
        rows[at].hit
    } else {
        None
    }
}

/// What a click into the panel in `area` does. `clock` is the local hour and
/// minute at which the exchange in the viewer began.
pub fn detail_panel_hit(app: &AppState, area: Rect, col: u16, row: u16, clock: (i32, i32)) -> (out:
    Option<DetailPanelHit>)
    requires
        area.x + 2 <= u16::MAX,
        area.y + 1 <= u16::MAX,
    ensures
        hit_of(out) == panel_click(*app, area, col as int, row as int, clock),
{
    broadcast use views::group_views;

    let (list, viewer) = split_content(content_rect(area));
    if viewer.height > 0 && row >= viewer.y && row < viewer.y + viewer.height {
        return Some(viewer_hit(app, viewer, col, row, clock));
    }
    if row < list.y || row >= list.y + list.height {
        return None;
    }
    let mut rows: Vec<PanelRow> = detail_panel_lines_with_hits(app, list.width, Seconds::zero());
    let most: usize = max_scroll_for(rows.len(), list);
    let scroll: usize = if app.detail_panel_scroll < most {
        app.detail_panel_scroll
    } else {
        most
    };
    let above: usize = (row - list.y) as usize;
    if above >= rows.len() || scroll >= rows.len() - above {
        return None;
    }
    assert(views::of(rows@)[above + scroll] == rows@[above + scroll]@);
    rows.swap_remove(above + scroll).hit
}

/// The panel: a line along its left edge, the list, and the viewer below it.
pub open spec fn panel_picture(
    app: AppState,
    area: Rect,
    now: int,
    clock: (i32, i32),
) -> Seq<DrawOpView> {
    if area.width < 4 || area.height < 2 {
        Seq::empty()
    } else {
        let (list, viewer) = split_of(content_of(area));
        let edge = geometry::rect(area.x as int, area.y as int, 1, area.height as int);
        let scroll = geometry::min(app.detail_panel_scroll as int, list_max_scroll(app, area));
        let ops = draw::filled(edge, "│"@, Style::plain().fg(app.palette.text)).push(
            DrawOpView::Lines {
                area: list,
                lines: lines_of(panel_rows(app, list.width as int, now)),
                scroll: (scroll % 0x1_0000) as u16,
                centered: false,
            },
        );
        if viewer.height > 0 {
            ops.push(
                DrawOpView::Lines {
                    area: viewer,
                    lines: viewer::viewer_rows(
                        app,
                        viewer.width as int,
                        viewer.height as int,
                        clock,
                    ),
                    scroll: 0,
                    centered: false,
                },
            )
        } else {
            ops
        }
    }
}

/// Draws the panel. `clock` is the local hour and minute at which the exchange
/// in the viewer began.
pub fn render_detail_panel(app: &AppState, area: Rect, now: Seconds, clock: (i32, i32)) -> (out: Vec<
    DrawOp,
>)
    requires
        area.width < 4 || area.height < 2 || (area.x + 2 <= u16::MAX && area.end_y() <= u16::MAX),
    ensures
        draw::picture(out@) == panel_picture(*app, area, now@, clock),
{
    broadcast use views::group_views;

    let mut ops: Vec<DrawOp> = Vec::new();
    if area.width < 4 || area.height < 2 {
        assert(draw::picture(ops@) =~= panel_picture(*app, area, now@, clock));
        return ops;
    }
    let edge: Rect = Rect::new(area.x, area.y, 1, area.height);
    put_filled(&mut ops, edge, "│", Style::plain().fg(app.palette.text));
    let (list, viewer) = split_content(content_rect(area));
    let lines: Vec<Line> = detail_panel_lines(app, list.width, now);
    let most: usize = max_scroll_for(lines.len(), list);
    proof {
        law_clicks_do_not_depend_on_the_time(*app, list.width as int, now@, 0);
        assert(views::of(lines@).len() == lines@.len());
    }
    let scroll: usize = if app.detail_panel_scroll < most {
        app.detail_panel_scroll
    } else {
        most
    };
    put_lines(&mut ops, list, lines, (scroll % 0x1_0000) as u16, false);
    if viewer.height > 0 {
        put_lines(&mut ops, viewer, viewer_lines(app, viewer.width, viewer.height, clock), 0, false);
    }
    assert(draw::picture(ops@) =~= panel_picture(*app, area, now@, clock));
    ops
}

/// A click into the viewer never reaches a row of the list, even where the
/// scrolled list would have one there.
pub proof fn law_viewer_clicks_stay_in_the_viewer(
    app: AppState,
    area: Rect,
    col: int,
    row: int,
    clock: (i32, i32),
)
    requires
        viewer_of(area).height > 0,
        viewer_of(area).y <= row < viewer_of(area).end_y(),
    ensures
        panel_click(app, area, col, row, clock) matches Some(hit) && !(hit is ViewExchange) && !(
        hit is ToggleSub),
{
    if let Some(idx) = viewer::shown_index(app) {
        let shown = viewer::all_shown(app);
        let viewer = viewer_of(area);
        let buttons = viewer::meta_buttons(
            viewer::meta_spans(app, idx, shown, clock),
            idx,
            shown,
        );
        seqs::lemma_first_where(buttons, viewer::takes(col - viewer.x));
    }
}

/// A panel too short for the viewer gives all of its rows to the list, and no
/// click into it goes to the viewer.
pub proof fn law_short_panels_have_no_viewer(
    app: AppState,
    area: Rect,
    col: int,
    row: int,
    clock: (i32, i32),
)
    requires
        content_of(area).height < VIEWER_MIN_CONTENT_ROWS,
    ensures
        split_of(content_of(area)) == (content_of(area), geometry::no_rect()),
        panel_click(app, area, col, row, clock) matches Some(hit) ==> hit is ViewExchange
            || hit is ToggleSub,
{
    let list = split_of(content_of(area)).0;
    lemma_rows_are_the_lists(app, list.width as int, 0);
}

proof fn lemma_rows_are_the_lists(app: AppState, width: int, now: int)
    ensures
        forall|i: int|
            0 <= i < panel_rows(app, width, now).len() ==> ((#[trigger] panel_rows(
                app,
                width,
                now,
            )[i]).hit matches Some(hit) ==> hit is ViewExchange || hit is ToggleSub),
{
    if let Some(tl) = timeline_of(app) {
        let p = app.palette;
        lemma_lanes_are_the_lists(
            tl.subs@,
            app.detail_panel_expanded@,
            width,
            now,
            p,
            tl.subs@.len(),
        );
        assert forall|i: int| 0 <= i < all_task_rows(tl, width, now, p).len() implies ((
        #[trigger] all_task_rows(tl, width, now, p)[i]).hit matches Some(hit) ==> hit is ViewExchange
            || hit is ToggleSub) by {}
    }
}

proof fn lemma_lanes_are_the_lists(
    subs: Seq<SubLane>,
    expanded: Seq<String>,
    width: int,
    now: int,
    p: Palette,
    n: nat,
)
    requires
        n <= subs.len(),
    ensures
        forall|i: int|
            0 <= i < lanes_to(subs, expanded, width, now, p, n).len() ==> ((#[trigger] lanes_to(
                subs,
                expanded,
                width,
                now,
                p,
                n,
            )[i]).hit matches Some(hit) ==> hit is ViewExchange || hit is ToggleSub),
    decreases n,
{
    if n > 0 {
        lemma_lanes_are_the_lists(subs, expanded, width, now, p, (n - 1) as nat);
    }
}

/// A row starts with its glyph, a blank and its label in the row's color, or the
/// dim word that it is still being summarized; the label has the cells that the
/// glyph, the blank and the text at the right end leave, and at least four. That
/// text, dim, is the row's end, behind blanks that push it to the right edge.
pub proof fn law_a_row_is_its_label_and_its_time(
    glyph: Seq<char>,
    label: Seq<char>,
    right: Option<Seq<char>>,
    color: Color,
    width: int,
    p: Palette,
)
    requires
        width >= 0,
        text::text_width(Seq::<char>::empty()) == 0,
    ensures
        ({
            let line = item_spans(glyph, label, right, color, width, p);
            let end = if right is Some {
                text::text_width(right->0) as int
            } else {
                0
            };
            let left = if end > 0 {
                width - 2 - end - 1
            } else {
                width - 2
            };
            let room = (if left < 4 {
                4
            } else {
                left
            }) as nat;
            let shown = text::truncated(
                if label.len() > 0 {
                    label
                } else {
                    "summarizing…"@
                },
                room,
            );
            &&& line.len() == if end > 0 {
                3int
            } else {
                1
            }
            &&& line[0].content == glyph + " "@ + shown
            &&& label.len() > 0 ==> line[0].style == Style::plain().fg(color)
            &&& label.len() == 0 ==> line[0].style == Style::plain().fg(p.subtext0)
            &&& end > 0 ==> {
                &&& line[2].content == right->0
                &&& line[2].style == Style::plain().fg(p.subtext0)
                &&& line[1].content.len() >= 1
                &&& 2 + text::text_width(shown) + line[1].content.len() + end == width
                    || line[1].content.len() == 1 && 2 + text::text_width(shown) + 1 + end > width
                &&& forall|i: int|
                    0 <= i < line[1].content.len() ==> #[trigger] line[1].content[i] == ' '
            }
        }),
{
    reveal_strlit(" ");
    assert(" "@ =~= seq![' ']);
    assert forall|n: nat| (#[trigger] text::repeated(" "@, n)).len() == n && forall|i: int|
        0 <= i < n ==> #[trigger] text::repeated(" "@, n)[i] == ' ' by {
        lemma_blanks(n);
    }
}

proof fn lemma_blanks(n: nat)
    requires
        " "@ == seq![' '],
    ensures
        text::repeated(" "@, n).len() == n,
        forall|i: int| 0 <= i < n ==> #[trigger] text::repeated(" "@, n)[i] == ' ',
    decreases n,
{
    if n > 0 {
        lemma_blanks((n - 1) as nat);
    }
}

/// The text that the feed is searched for on behalf of a task: the first prompt
/// among its exchanges, else the task's own copy.
pub open spec fn is_jump_text(tl: Timeline, item: TimelineItem, prompt: Seq<char>) -> bool {
    ||| exists|k: int|
        0 <= k < tl.exch@.len() && (#[trigger] tl.exch@[k]).u@ == item.u@ && tl.exch@[k].head@
            == prompt && prompt.len() > 0 && forall|j: int|
            0 <= j < k ==> (#[trigger] tl.exch@[j]).u@ != item.u@ || tl.exch@[j].head@.len() == 0
    ||| prompt == item.head@ && forall|j: int|
        0 <= j < tl.exch@.len() ==> (#[trigger] tl.exch@[j]).u@ != item.u@
            || tl.exch@[j].head@.len() == 0
}

proof fn lemma_jump_text(tl: Timeline, item: TimelineItem)
    ensures
        is_jump_text(tl, item, jump_text(tl, item)),
{
    seqs::lemma_first_where(tl.exch@, prompted(item.u@));
    match seqs::first_where(tl.exch@, prompted(item.u@)) {
        Some(k) => {
            assert(tl.exch@[k].u@ == item.u@);
            assert forall|j: int| 0 <= j < k implies (#[trigger] tl.exch@[j]).u@ != item.u@
                || tl.exch@[j].head@.len() == 0 by {
                assert(!prompted(item.u@)(tl.exch@[j]));
            }
        },
        None => {
            assert forall|j: int| 0 <= j < tl.exch@.len() implies (#[trigger] tl.exch@[j]).u@
                != item.u@ || tl.exch@[j].head@.len() == 0 by {
                assert(!prompted(item.u@)(tl.exch@[j]));
            }
        },
    }
}

/// Every done task has a row of its own, in order, green and checked, which ends
/// with the time that the task says it took; a click on it pins the viewer to the
/// task's exchange and searches the feed for its prompt.
pub proof fn law_done_tasks_have_green_rows(app: AppState, width: int, now: int, i: int)
    requires
        timeline_of(app) is Some,
        0 <= i < timeline_of(app)->0.done@.len(),
    ensures
        ({
            let tl = timeline_of(app)->0;
            let item = tl.done@[i];
            let rows = panel_rows(app, width, now);
            &&& 3 + i < rows.len()
            &&& rows[3 + i].line == item_spans(
                "✓"@,
                item.label@,
                if item.secs is Some {
                    Some(figures::span_text(item.secs->0@))
                } else {
                    None
                },
                app.palette.green,
                width,
                app.palette,
            )
            &&& exists|prompt: Seq<char>| #[trigger]
                is_jump_text(tl, item, prompt) && rows[3 + i].hit == Some(
                    Hit::ViewExchange { u: item.u@, query: wrap::query_of(prompt) },
                )
        }),
{
    let tl = timeline_of(app)->0;
    let item = tl.done@[i];
    let rows = panel_rows(app, width, now);
    lemma_jump_text(tl, item);
    assert(is_jump_text(tl, item, jump_text(tl, item)));
    assert(rows[3 + i] == done_rows(tl, width, app.palette)[i]);
}

/// Every task in flight has a row behind the done ones, yellow and with a clock
/// that runs from its start, where that is known; a click on it pins the viewer.
pub proof fn law_tasks_in_flight_have_running_clocks(app: AppState, width: int, now: int, i: int)
    requires
        timeline_of(app) is Some,
        0 <= i < timeline_of(app)->0.current@.len(),
    ensures
        ({
            let tl = timeline_of(app)->0;
            let item = tl.current@[i];
            let rows = panel_rows(app, width, now);
            let at = 3 + tl.done@.len() + i;
            &&& at < rows.len()
            &&& rows[at].line == item_spans(
                "●"@,
                item.label@,
                if item.ts@ > 0 {
                    Some(figures::span_text(seconds::difference(now, item.ts@)))
                } else {
                    None
                },
                app.palette.yellow,
                width,
                app.palette,
            )
            &&& exists|prompt: Seq<char>| #[trigger]
                is_jump_text(tl, item, prompt) && rows[at].hit == Some(
                    Hit::ViewExchange { u: item.u@, query: wrap::query_of(prompt) },
                )
        }),
{
    let tl = timeline_of(app)->0;
    let item = tl.current@[i];
    let rows = panel_rows(app, width, now);
    lemma_jump_text(tl, item);
    assert(is_jump_text(tl, item, jump_text(tl, item)));
    assert(rows[3 + tl.done@.len() + i] == current_rows(tl, width, now, app.palette)[i]);
}

/// Every inferred step has a row behind the tasks, purple, without a time, and
/// no button.
pub proof fn law_inferred_steps_are_no_buttons(app: AppState, width: int, now: int, i: int)
    requires
        timeline_of(app) is Some,
        0 <= i < timeline_of(app)->0.next@.len(),
    ensures
        ({
            let tl = timeline_of(app)->0;
            let rows = panel_rows(app, width, now);
            let at = 3 + tl.done@.len() + tl.current@.len() + i;
            &&& at < rows.len()
            &&& rows[at].line == item_spans(
                "◇"@,
                tl.next@[i]@,
                None,
                app.palette.mauve,
                width,
                app.palette,
            )
            &&& rows[at].hit is None
        }),
{
    let tl = timeline_of(app)->0;
    let rows = panel_rows(app, width, now);
    let at = 3 + tl.done@.len() + tl.current@.len() + i;
    assert(rows[at] == next_rows(tl, width, app.palette)[i]);
}

/// The rows above the first of the subagents: the summary, and where there is a
/// task a blank row, a rule and a row for each task.
pub open spec fn rows_above_lanes(tl: Timeline) -> int {
    let tasks = tl.done@.len() + tl.current@.len() + tl.next@.len();
    if tasks > 0 {
        3 + tasks as int
    } else {
        1
    }
}

/// The rows of the first `n` subagents: one for each, and one for each event of
/// those that are unfolded.
pub open spec fn lane_count(subs: Seq<SubLane>, expanded: Seq<String>, n: nat) -> int
    decreases n,
{
    if n == 0 {
        0
    } else {
        lane_count(subs, expanded, (n - 1) as nat) + 1 + if exists|k: int|
            0 <= k < expanded.len() && (#[trigger] expanded[k])@ == subs[n - 1].path@ {
            subs[n - 1].events@.len() as int
        } else {
            0
        }
    }
}

proof fn lemma_lanes(
    subs: Seq<SubLane>,
    expanded: Seq<String>,
    width: int,
    now: int,
    p: Palette,
    n: nat,
    i: int,
)
    requires
        n <= subs.len(),
        0 <= i < n,
    ensures
        ({
            let rows = lanes_to(subs, expanded, width, now, p, n);
            let at = lane_count(subs, expanded, i as nat);
            let mine = lane_rows(subs[i], expanded, width, now, p);
            &&& rows.len() == lane_count(subs, expanded, n)
            &&& 0 <= at && at + mine.len() <= rows.len()
            &&& lane_count(subs, expanded, (i + 1) as nat) == at + mine.len()
            &&& rows.subrange(at, at + mine.len()) == mine
        }),
    decreases n,
{
    let before = lanes_to(subs, expanded, width, now, p, (n - 1) as nat);
    let last = lane_rows(subs[n - 1], expanded, width, now, p);
    let rows = lanes_to(subs, expanded, width, now, p, n);
    assert(text::holds_text(expanded, subs[n - 1].path@) <==> exists|k: int|
        0 <= k < expanded.len() && (#[trigger] expanded[k])@ == subs[n - 1].path@);
    if i < n - 1 {
        lemma_lanes(subs, expanded, width, now, p, (n - 1) as nat, i);
        let at = lane_count(subs, expanded, i as nat);
        let mine = lane_rows(subs[i], expanded, width, now, p);
        assert(rows.subrange(at, at + mine.len()) =~= before.subrange(at, at + mine.len()));
    } else {
        if n > 1 {
            lemma_lanes(subs, expanded, width, now, p, (n - 1) as nat, 0);
        }
        let at = lane_count(subs, expanded, i as nat);
        assert(before.len() == at);
        assert(rows.subrange(at, at + last.len()) =~= last);
    }
}

/// Every subagent has a row of its own below a rule, which folds and unfolds it:
/// a finished one is green and shows its whole runtime, any other is yellow and
/// shows a running clock. An unfolded one lists its events, each in a dim row
/// that is no button; nothing else is in the list.
pub proof fn law_subagents_unfold_in_place(app: AppState, width: int, now: int, i: int, j: int)
    requires
        timeline_of(app) is Some,
        0 <= i < timeline_of(app)->0.subs@.len(),
    ensures
        ({
            let tl = timeline_of(app)->0;
            let sub = tl.subs@[i];
            let p = app.palette;
            let expanded = app.detail_panel_expanded@;
            let rows = panel_rows(app, width, now);
            let first = rows_above_lanes(tl) + 2;
            let at = first + lane_count(tl.subs@, expanded, i as nat);
            let unfolded = exists|k: int|
                0 <= k < expanded.len() && (#[trigger] expanded[k])@ == sub.path@;
            let done = sub.status@ == "done"@;
            &&& rows.len() == first + lane_count(tl.subs@, expanded, tl.subs@.len())
            &&& first <= at < rows.len()
            &&& rows[at].hit == Some(Hit::ToggleSub { path: sub.path@ })
            &&& rows[at].line == item_spans(
                "●"@,
                sub.label@,
                if done && 0 < sub.started@ < sub.ended@ {
                    Some(figures::span_text(seconds::difference(sub.ended@, sub.started@)))
                } else if !done && sub.started@ > 0 {
                    Some(figures::span_text(seconds::difference(now, sub.started@)))
                } else {
                    None
                },
                if done {
                    p.green
                } else {
                    p.yellow
                },
                width,
                p,
            )
            &&& unfolded && 0 <= j < sub.events@.len() ==> {
                &&& at + 1 + j < rows.len()
                &&& rows[at + 1 + j].hit is None
                &&& rows[at + 1 + j].line == seq![
                    style::span("   "@ + sub.events@[j]@, Style::plain().fg(p.subtext0)),
                ]
            }
            &&& lane_count(tl.subs@, expanded, (i + 1) as nat) == lane_count(
                tl.subs@,
                expanded,
                i as nat,
            ) + 1 + if unfolded {
                sub.events@.len() as int
            } else {
                0
            }
        }),
{
    let tl = timeline_of(app)->0;
    let sub = tl.subs@[i];
    let p = app.palette;
    let expanded = app.detail_panel_expanded@;
    let rows = panel_rows(app, width, now);
    let lanes = lanes_to(tl.subs@, expanded, width, now, p, tl.subs@.len());
    let mine = lane_rows(sub, expanded, width, now, p);
    lemma_lanes(tl.subs@, expanded, width, now, p, tl.subs@.len(), i);
    let first = rows_above_lanes(tl) + 2;
    let at = lane_count(tl.subs@, expanded, i as nat);
    assert(all_task_rows(tl, width, now, p).len() == rows_above_lanes(tl) - 1);
    assert forall|k: int| 0 <= k < lanes.len() implies rows[first + k] == #[trigger] lanes[k] by {}
    assert forall|k: int| 0 <= k < mine.len() implies rows[first + at + k] == #[trigger] mine[k] by {
        assert(lanes.subrange(at, at + mine.len())[k] == lanes[at + k]);
    }
    assert(rows[first + at] == mine[0]);
    assert(text::holds_text(expanded, sub.path@) <==> exists|k: int|
        0 <= k < expanded.len() && (#[trigger] expanded[k])@ == sub.path@);
    if text::holds_text(expanded, sub.path@) && 0 <= j < sub.events@.len() {
        assert(rows[first + at + 1 + j] == mine[1 + j]);
    }
}

/// The first row sums up the session, and rules stand above the tasks and above
/// the subagents, each below an empty row; none of these is a button. Without a
/// session or a timeline the list is a single row that says so.
pub proof fn law_the_list_is_headed_and_parted(app: AppState, width: int, now: int)
    ensures
        ({
            let rows = panel_rows(app, width, now);
            let p = app.palette;
            let dimmed = Style::plain().fg(p.subtext0);
            &&& rows.len() > 0 && rows[0].hit is None
            &&& app.detail_panel is None ==> rows.len() == 1 && rows[0].line == seq![
                style::span("no agent session in this pane"@, dimmed),
            ]
            &&& app.detail_panel is Some && timeline_of(app) is None ==> rows.len() == 1
                && rows[0].line == seq![style::span("timeline pending"@, dimmed)]
            &&& timeline_of(app) matches Some(tl) ==> {
                let above = rows_above_lanes(tl);
                &&& rows[0].line.len() == 1 && rows[0].line[0].style == dimmed
                &&& tl.subs@.len() == 0 ==> rows.len() == above
                &&& above > 1 ==> rows.len() >= above && rows[1].line.len() == 0 && rows[1].hit is None
                    && rows[2].hit is None && rows[2].line == header_spans("tasks"@, width, p)
                &&& tl.subs@.len() > 0 ==> rows.len() > above + 2 && rows[above].line.len() == 0
                    && rows[above].hit is None && rows[above + 1].hit is None && rows[above
                    + 1].line == header_spans("subagents"@, width, p)
            }
        }),
{
    if let Some(tl) = timeline_of(app) {
        let p = app.palette;
        let tasks = all_task_rows(tl, width, now, p);
        assert(tasks.len() == rows_above_lanes(tl) - 1);
        if tl.subs@.len() > 0 {
            lemma_lanes(
                tl.subs@,
                app.detail_panel_expanded@,
                width,
                now,
                p,
                tl.subs@.len(),
                0,
            );
        }
    }
}

/// The summary of a session is its time, its tokens and, where it has one, its
/// status, with a dot between.
pub proof fn law_a_session_is_summed_up(app: AppState, width: int, now: int)
    requires
        timeline_of(app) is Some,
    ensures
        ({
            let tl = timeline_of(app)->0;
            panel_rows(app, width, now)[0].line[0].content == figures::span_text(tl.total_secs@)
                + " · "@ + figures::tokens_text(tl.out_tokens as nat) + " tok"@ + if tl.status@.len()
                > 0 {
                " · "@ + tl.status@
            } else {
                Seq::empty()
            }
        }),
{
    let tl = timeline_of(app)->0;
    let start = figures::span_text(tl.total_secs@) + " · "@ + figures::tokens_text(
        tl.out_tokens as nat,
    ) + " tok"@;
    assert(start + Seq::<char>::empty() =~= start);
    assert(start + (" · "@ + tl.status@) =~= start + " · "@ + tl.status@);
}

/// The panel leaves a column for its edge and one for a margin on its left, a
/// column on its right and a row on its top. Where nine rows are left, the
/// viewer takes the lowest third of them, and the list is directly above it.
pub proof fn law_the_panel_is_laid_out_in_its_margins(area: Rect)
    requires
        area.fits(),
        area.width >= 4,
        area.height >= 2,
    ensures
        ({
            let (list, viewer) = split_of(content_of(area));
            &&& list.x == area.x + 2 && list.y == area.y + 1
            &&& list.width == area.width - 3
            &&& list.height == area.height - 1 - viewer.height
            &&& viewer.height == if area.height >= 10 {
                (area.height - 1) / 3
            } else {
                0
            }
            &&& viewer.height > 0 ==> {
                &&& viewer.x == list.x && viewer.width == list.width
                &&& viewer.y == list.end_y() && viewer.end_y() == area.end_y()
            }
            &&& viewer_of(area) == viewer
        }),
{
}

/// A click on a row of the list does what the row says that is drawn there,
/// however far the list is scrolled; below the last row it does nothing. The
/// list is scrolled as far as was asked for, but not past its end.
#[verifier::spinoff_prover]
pub proof fn law_a_click_meets_the_row_that_is_drawn(
    app: AppState,
    area: Rect,
    now: int,
    clock: (i32, i32),
    col: int,
    row: int,
)
    requires
        area.fits(),
        area.width >= 4,
        area.height >= 2,
        split_of(content_of(area)).0.y <= row < split_of(content_of(area)).0.end_y(),
        panel_rows(app, split_of(content_of(area)).0.width as int, now).len() <= u16::MAX,
    ensures
        ({
            let list = split_of(content_of(area)).0;
            let rows = panel_rows(app, list.width as int, now);
            let drawn = panel_picture(app, area, now, clock);
            let scroll = drawn[2]->scroll as int;
            let at = row - list.y + scroll;
            &&& drawn.len() >= 3
            &&& drawn[2] is Lines && drawn[2]->Lines_area == list && !drawn[2]->centered
            &&& drawn[2]->lines.len() == rows.len()
            &&& forall|i: int|
                0 <= i < rows.len() ==> #[trigger] drawn[2]->lines[i] == rows[i].line
            &&& app.detail_panel_scroll + list.height <= rows.len() ==> scroll
                == app.detail_panel_scroll
            &&& app.detail_panel_scroll + list.height > rows.len() ==> scroll == geometry::max(
                rows.len() - list.height,
                0,
            )
            &&& at < rows.len() ==> panel_click(app, area, col, row, clock) == rows[at].hit
            &&& at >= rows.len() ==> panel_click(app, area, col, row, clock) is None
        }),
{
    let list = split_of(content_of(area)).0;
    law_clicks_do_not_depend_on_the_time(app, list.width as int, now, 0);
}

/// The panel has a line along its left edge over its whole height, then its
/// list, and the viewer where it has room for it.
pub proof fn law_the_panel_is_edged(app: AppState, area: Rect, now: int, clock: (i32, i32))
    requires
        area.fits(),
    ensures
        ({
            let drawn = panel_picture(app, area, now, clock);
            let column = Rect { x: area.x, y: area.y, width: 1, height: area.height };
            let viewer = viewer_of(area);
            &&& area.width < 4 || area.height < 2 ==> drawn.len() == 0
            &&& area.width >= 4 && area.height >= 2 ==> {
                &&& drawn.take(2) == draw::filled(
                    column,
                    "│"@,
                    Style::plain().fg(app.palette.text),
                )
                &&& area.height < 10 ==> drawn.len() == 3
                &&& area.height >= 10 ==> drawn.len() == 4 && drawn[3] == (DrawOpView::Lines {
                    area: viewer,
                    lines: viewer::viewer_rows(
                        app,
                        viewer.width as int,
                        viewer.height as int,
                        clock,
                    ),
                    scroll: 0,
                    centered: false,
                })
            }
        }),
{
    let drawn = panel_picture(app, area, now, clock);
    if area.width >= 4 && area.height >= 2 {
        let column = Rect { x: area.x, y: area.y, width: 1, height: area.height };
        assert(drawn.take(2) =~= draw::filled(column, "│"@, Style::plain().fg(app.palette.text)));
    }
}

/// A header is a rule over the width of the panel with its title near the left
/// end.
pub proof fn law_headers_fill_their_row(title: Seq<char>, width: int, p: Palette)
    ensures
        ({
            let line = header_spans(title, width, p);
            let label = seq!['─', ' '] + title + seq![' '];
            let cells = text::text_width(label) as int;
            &&& line.len() == 1
            &&& line[0].style == Style::plain().fg(p.overlay0)
            &&& width > cells ==> line[0].content == label + text::repeated(
                "─"@,
                (width - cells) as nat,
            )
            &&& width <= cells ==> line[0].content == label
        }),
{
    reveal_strlit("─ ");
    reveal_strlit(" ");
    assert("─ "@ =~= seq!['─', ' ']);
    assert(" "@ =~= seq![' ']);
    let label = seq!['─', ' '] + title + seq![' '];
    assert(label + text::repeated("─"@, 0) =~= label);
}

} // verus!
