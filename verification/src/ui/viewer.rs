//! The prompt viewer at the bottom of the detail panel: one exchange of the
//! session, with buttons to step through the others and to jump to it.

use vstd::prelude::*;

use crate::app::detail_panel;
use crate::app::detail_panel::{ExchangeView, ShownExchange};
use crate::app::state::AppState;
use crate::geometry;
use crate::geometry::Rect;
use crate::seconds;
use crate::seqs;
use crate::style;
use crate::style::{Color, Line, Palette, Span, SpanView, Style};
use crate::text;
use crate::text::{display_width, push_dec, str_eq};
use crate::ui::detail_panel as panel;
use crate::ui::detail_panel::{
    detail_panel_viewer_rect, item_line, section_header, DetailPanelHit, Hit,
};
use crate::ui::figures;
use crate::ui::figures::{fmt_clock, fmt_secs};
use crate::ui::wrap;
use crate::ui::wrap::{feed_query, wrap_text};
use crate::views;

verus! {

/// How many of the last exchanges the viewer cycles over.
pub const CYCLE_WINDOW: usize = 8;

/// The header, meta and label rows above the scrolling body.
pub const VIEWER_FIXED_ROWS: usize = 3;

/// Every exchange that the viewer can show, oldest first.
pub open spec fn all_shown(app: AppState) -> Seq<ShownExchange> {
    match panel::timeline_of(app) {
        Some(tl) => detail_panel::shown_exchanges(tl),
        None => Seq::empty(),
    }
}

/// The exchanges about `u`.
pub open spec fn is_about(u: Seq<char>) -> spec_fn(ShownExchange) -> bool {
    |v: ShownExchange| v.u == u
}

/// The exchange that the viewer is pinned to.
pub open spec fn pinned_index(app: AppState) -> Option<int> {
    match app.detail_panel_pinned {
        Some(u) => seqs::first_where(all_shown(app), is_about(u@)),
        None => None,
    }
}

/// The exchange that the cycle shows out of `total`: one of the last
/// [`CYCLE_WINDOW`], oldest to newest.
pub open spec fn cycled_index(total: int, cycle: int) -> int {
    let window = geometry::min(total, CYCLE_WINDOW as int);
    total - window + cycle % window
}

/// The exchange that the viewer shows: the pinned one where it resolves, else
/// the one of the cycle.
pub open spec fn shown_index(app: AppState) -> Option<int> {
    let total = all_shown(app).len();
    if total == 0 {
        None
    } else {
        match pinned_index(app) {
            Some(i) => Some(i),
            None => Some(cycled_index(total as int, app.detail_panel_cycle as int)),
        }
    }
}

/// The viewer shows one of the exchanges as long as there is one, whatever it is
/// pinned to and however far its cycle has run.
pub proof fn law_the_viewer_always_shows_an_exchange(app: AppState)
    ensures
        match shown_index(app) {
            Some(i) => 0 <= i < all_shown(app).len(),
            None => all_shown(app).len() == 0,
        },
{
    if let Some(u) = app.detail_panel_pinned {
        seqs::lemma_first_where(all_shown(app), is_about(u@));
    }
}

/// The exchange that the viewer shows, and every exchange, oldest first: the
/// pinned one when it resolves, else the cycle's pick over the last
/// [`CYCLE_WINDOW`].
pub fn viewer_state(app: &AppState) -> (out: Option<(usize, Vec<ExchangeView>)>)
    ensures
        match out {
            Some((idx, shown)) => {
                &&& shown_index(*app) == Some(idx as int)
                &&& views::of(shown@) == all_shown(*app)
                &&& idx < shown@.len()
            },
            None => shown_index(*app) is None,
        },
{
    broadcast use views::group_views;

    let cache = match &app.detail_panel {
        Some(cache) => cache,
        None => {
            return None;
        },
    };
    let tl = match &cache.timeline {
        Some(tl) => tl,
        None => {
            return None;
        },
    };
    let shown: Vec<ExchangeView> = tl.exchange_views();
    let ghost all = all_shown(*app);
    if shown.len() == 0 {
        return None;
    }
    let total: usize = shown.len();
    if let Some(u) = &app.detail_panel_pinned {
        let mut i: usize = 0;
        while i < total
            invariant
                i <= total,
                total == shown@.len(),
                all == views::of(shown@),
                all == all_shown(*app),
                Some(*u) == app.detail_panel_pinned,
                forall|j: int| 0 <= j < i ==> !is_about(u@)(#[trigger] all[j]),
            decreases total - i,
        {
            if str_eq(shown[i].u.as_str(), u.as_str()) {
                proof {
                    assert(all[i as int] == shown@[i as int]@);
                    seqs::lemma_first_is(all, is_about(u@), i as int);
                }
                return Some((i, shown));
            }
            assert(all[i as int] == shown@[i as int]@);
            i = i + 1;
        }
        proof {
            seqs::lemma_first_none(all, is_about(u@));
        }
    }
    let window: usize = if total < CYCLE_WINDOW {
        total
    } else {
        CYCLE_WINDOW
    };
    Some((total - window + app.detail_panel_cycle % window, shown))
}

/// The place of the shown exchange, counted from one, the number of all, and
/// the exchange.
pub fn viewer_exchange(app: &AppState) -> (out: Option<(usize, usize, ExchangeView)>)
    ensures
        match out {
            Some((pos, total, exch)) => {
                &&& shown_index(*app) == Some(pos - 1)
                &&& total == all_shown(*app).len()
                &&& exch@ == all_shown(*app)[pos - 1]
            },
            None => shown_index(*app) is None,
        },
{
    broadcast use views::group_views;

    match viewer_state(app) {
        Some((idx, shown)) => {
            let mut shown = shown;
            let total: usize = shown.len();
            assert(views::of(shown@)[idx as int] == shown@[idx as int]@);
            let exch: ExchangeView = shown.swap_remove(idx);
            Some((idx + 1, total, exch))
        },
        None => None,
    }
}

/// When the shown exchange began, in whole seconds since 1970: what its clock
/// is computed from.
pub fn viewer_epoch(app: &AppState) -> (out: Option<i64>)
    ensures
        match out {
            Some(secs) => shown_index(*app) is Some && secs == geometry::min(
                seconds::whole_secs(all_shown(*app)[shown_index(*app)->0].ts),
                i64::MAX as int,
            ),
            None => shown_index(*app) is None,
        },
{
    match viewer_exchange(app) {
        Some((_, _, exch)) => {
            let secs: u64 = exch.ts.whole();
            if secs < 0x7fff_ffff_ffff_ffff {
                Some(secs as i64)
            } else {
                Some(i64::MAX)
            }
        },
        None => None,
    }
}

/// The columns of a line in front of its `n`-th piece.
#[verifier::opaque]
pub open spec fn columns(line: Seq<SpanView>, n: nat) -> nat
    decreases n,
{
    if n == 0 {
        0
    } else {
        columns(line, (n - 1) as nat) + text::text_width(line[n - 1].content)
    }
}

/// A button of the meta row: the columns that it takes and what it does.
#[derive(Clone, Debug, PartialEq, Eq)]
pub struct MetaButton {
    pub start: usize,
    pub end: usize,
    pub hit: DetailPanelHit,
}

/// A [`MetaButton`] by its texts.
pub struct ButtonView {
    pub start: int,
    pub end: int,
    pub hit: Hit,
}

impl View for MetaButton {
    type V = ButtonView;

    open spec fn view(&self) -> ButtonView {
        ButtonView { start: self.start as int, end: self.end as int, hit: self.hit@ }
    }
}

/// What the meta row starts with: when the exchange began and how long it took.
pub open spec fn meta_lead(exch: ShownExchange, clock: (i32, i32)) -> Seq<char> {
    figures::clock_text(clock.0 as int, clock.1 as int) + " · "@ + match exch.secs {
        Some(secs) => figures::span_text(secs) + " · "@,
        None => Seq::empty(),
    }
}

/// The look of a button: an exhausted one is dimmed.
pub open spec fn button_look(live: bool, p: Palette) -> Style {
    Style::plain().fg(
        if live {
            p.text
        } else {
            p.overlay0
        },
    )
}

/// The exchange before the `idx`-th.
pub open spec fn before(shown: Seq<ShownExchange>, idx: int) -> Option<Seq<char>> {
    if idx > 0 {
        Some(shown[idx - 1].u)
    } else {
        None
    }
}

/// The exchange behind the `idx`-th.
pub open spec fn behind(shown: Seq<ShownExchange>, idx: int) -> Option<Seq<char>> {
    if idx + 1 < shown.len() {
        Some(shown[idx + 1].u)
    } else {
        None
    }
}

/// The viewer's meta row.
pub open spec fn meta_spans(
    app: AppState,
    idx: int,
    shown: Seq<ShownExchange>,
    clock: (i32, i32),
) -> Seq<SpanView> {
    let p = app.palette;
    let exch = shown[idx];
    let spans = seq![
        style::span(meta_lead(exch, clock), panel::dim(p)),
        style::span("[‹]"@, button_look(before(shown, idx) is Some, p)),
        style::span(place_text(idx, shown.len()), panel::dim(p)),
        style::span("[›]"@, button_look(behind(shown, idx) is Some, p)),
        style::span(" · "@, panel::dim(p)),
        style::span("[jump]"@, button_look(wrap::query_of(exch.head) is Some, p)),
    ];
    if views::text(app.detail_panel_pinned) == Some(exch.u) {
        spans.push(style::span(" · pinned"@, panel::dim(p)))
    } else {
        spans
    }
}

/// The button that is the `n`-th piece of the meta row.
pub open spec fn button(line: Seq<SpanView>, n: nat, hit: Hit) -> ButtonView {
    ButtonView { start: columns(line, n) as int, end: columns(line, n + 1) as int, hit }
}

/// The buttons of the meta row `line`.
pub open spec fn meta_buttons(
    line: Seq<SpanView>,
    idx: int,
    shown: Seq<ShownExchange>,
) -> Seq<ButtonView> {
    seq![
        button(line, 1, Hit::ViewerPrev { u: before(shown, idx) }),
        button(line, 3, Hit::ViewerNext { u: behind(shown, idx) }),
        button(line, 5, Hit::ViewerJump { query: wrap::query_of(shown[idx].head) }),
    ]
}

proof fn lemma_columns_prefix(a: Seq<SpanView>, b: Seq<SpanView>, n: nat)
    requires
        n <= a.len(),
        n <= b.len(),
        forall|i: int| 0 <= i < n ==> a[i] == b[i],
    ensures
        columns(a, n) == columns(b, n),
    decreases n,
{
    reveal_with_fuel(columns, 2);
    if n > 0 {
        lemma_columns_prefix(a, b, (n - 1) as nat);
    }
}

/// Adds a piece to a line that ends at column `x`, and moves `x` behind it.
fn push_span(spans: &mut Vec<Span>, x: &mut usize, text: String, style: Style)
    requires
        *old(x) + 3 * text@.len() <= usize::MAX,
        *old(x) == columns(views::of(old(spans)@), old(spans)@.len()),
    ensures
        views::of(final(spans)@) == views::of(old(spans)@).push(style::span(text@, style)),
        *final(x) == columns(views::of(final(spans)@), final(spans)@.len()),
        *final(x) <= *old(x) + 3 * text@.len(),
{
    broadcast use views::group_views;

    *x = *x + display_width(text.as_str());
    spans.push(Span::styled(text, style));
    proof {
        reveal_with_fuel(columns, 2);
        lemma_columns_prefix(views::of(old(spans)@), views::of(spans@), old(spans)@.len());
    }
}

proof fn lemma_columns_take(line: Seq<SpanView>, n: nat)
    requires
        n <= line.len(),
    ensures
        columns(line.take(n as int), n) == columns(line, n),
{
    lemma_columns_prefix(line.take(n as int), line, n);
}

proof fn lemma_meta_texts()
    ensures
        "[‹]"@.len() == 3,
        "[›]"@.len() == 3,
        "[jump]"@.len() == 6,
        " · "@.len() == 3,
        " · pinned"@.len() == 9,
{
    reveal_strlit("[‹]");
    reveal_strlit("[›]");
    reveal_strlit("[jump]");
    reveal_strlit(" · ");
    reveal_strlit(" · pinned");
}

fn fmt_lead(exch: &ExchangeView, clock: (i32, i32)) -> (out: String)
    ensures
        out@ == meta_lead(exch@, clock),
        out@.len() <= 100,
{
    proof {
        reveal_strlit(" · ");
        figures::lemma_clock_short(clock.0, clock.1);
    }
    let mut lead: String = fmt_clock(clock.0, clock.1);
    lead.append(" · ");
    if let Some(secs) = exch.secs {
        proof {
            figures::lemma_span_short(secs@);
        }
        lead.append(fmt_secs(secs).as_str());
        lead.append(" · ");
    }
    assert(lead@ =~= meta_lead(exch@, clock));
    lead
}

/// What the meta row says of the place of an exchange among all.
pub open spec fn place_text(idx: int, total: nat) -> Seq<char> {
    " "@ + text::dec((idx + 1) as nat) + "/"@ + text::dec(total) + " "@
}

fn fmt_place(idx: usize, total: usize) -> (out: String)
    requires
        idx < total,
    ensures
        out@ == place_text(idx as int, total as nat),
        out@.len() <= 100,
{
    proof {
        reveal_strlit(" ");
        reveal_strlit("/");
        text::lemma_dec_u64((idx + 1) as u64);
        text::lemma_dec_u64(total as u64);
    }
    let mut place: String = " ".to_string();
    push_dec(&mut place, (idx + 1) as u64);
    place.append("/");
    push_dec(&mut place, total as u64);
    place.append(" ");
    place
}

fn button_style(live: bool, p: &Palette) -> (out: Style)
    ensures
        out == button_look(live, *p),
{
    if live {
        Style::plain().fg(p.text)
    } else {
        Style::plain().fg(p.overlay0)
    }
}

/// The viewer's meta row: time and duration, then the step and jump buttons
/// with the columns that they take; exhausted buttons are dimmed. `clock` is
/// the local hour and minute at which the shown exchange began.
#[verifier::rlimit(30)]
pub fn viewer_meta(
    app: &AppState,
    idx: usize,
    shown: &Vec<ExchangeView>,
    clock: (i32, i32),
) -> (out: (Line, Vec<MetaButton>))
    requires
        idx < shown@.len(),
    ensures
        out.0@ == meta_spans(*app, idx as int, views::of(shown@), clock),
        views::of(out.1@) == meta_buttons(out.0@, idx as int, views::of(shown@)),
{
    let p: &Palette = &app.palette;
    let faint: Style = Style::plain().fg(p.subtext0);
    let exch: &ExchangeView = &shown[idx];
    let ghost all = views::of(shown@);
    let ghost line = meta_spans(*app, idx as int, all, clock);
    proof {
        lemma_meta_texts();
    }
    let prev: Option<String> = if idx > 0 {
        Some(shown[idx - 1].u.clone())
    } else {
        None
    };
    let total: usize = shown.len();
    let next: Option<String> = if idx + 1 < total {
        Some(shown[idx + 1].u.clone())
    } else {
        None
    };
    let query: Option<String> = feed_query(exch.head.as_str());
    let pinned: bool = match &app.detail_panel_pinned {
        Some(u) => str_eq(u.as_str(), exch.u.as_str()),
        None => false,
    };
    assert(views::text(prev) == before(all, idx as int));
    assert(views::text(next) == behind(all, idx as int));

    let mut spans: Vec<Span> = Vec::new();
    let mut x: usize = 0;
    assert(columns(views::of(spans@), 0) == 0) by {
        reveal_with_fuel(columns, 1);
    }
    push_span(&mut spans, &mut x, fmt_lead(exch, clock), faint);
    let ghost one = views::of(spans@);
    let prev_start: usize = x;
    push_span(&mut spans, &mut x, "[‹]".to_string(), button_style(prev.is_some(), p));
    let ghost two = views::of(spans@);
    let prev_end: usize = x;
    push_span(&mut spans, &mut x, fmt_place(idx, total), faint);
    let ghost three = views::of(spans@);
    let next_start: usize = x;
    push_span(&mut spans, &mut x, "[›]".to_string(), button_style(next.is_some(), p));
    let ghost four = views::of(spans@);
    let next_end: usize = x;
    push_span(&mut spans, &mut x, " · ".to_string(), faint);
    let ghost five = views::of(spans@);
    let jump_start: usize = x;
    push_span(&mut spans, &mut x, "[jump]".to_string(), button_style(query.is_some(), p));
    let ghost six = views::of(spans@);
    let jump_end: usize = x;
    if pinned {
        push_span(&mut spans, &mut x, " · pinned".to_string(), faint);
    }
    assert(views::of(spans@) =~= line);
    proof {
        assert(six =~= line.take(6));
        assert(five =~= line.take(5));
        assert(four =~= line.take(4));
        assert(three =~= line.take(3));
        assert(two =~= line.take(2));
        assert(one =~= line.take(1));
        lemma_columns_take(line, 1);
        lemma_columns_take(line, 2);
        lemma_columns_take(line, 3);
        lemma_columns_take(line, 4);
        lemma_columns_take(line, 5);
        lemma_columns_take(line, 6);
    }
    let mut buttons: Vec<MetaButton> = Vec::new();
    buttons.push(
        MetaButton {
            start: prev_start,
            end: prev_end,
            hit: DetailPanelHit::ViewerPrev { u: prev },
        },
    );
    buttons.push(
        MetaButton {
            start: next_start,
            end: next_end,
            hit: DetailPanelHit::ViewerNext { u: next },
        },
    );
    buttons.push(
        MetaButton { start: jump_start, end: jump_end, hit: DetailPanelHit::ViewerJump { query } },
    );
    assert(views::of(buttons@) =~= meta_buttons(line, idx as int, all));
    (Line { spans }, buttons)
}

/// `texts`, each as a line in `style`.
pub open spec fn text_lines(texts: Seq<Seq<char>>, style: Style) -> Seq<Seq<SpanView>> {
    texts.map_values(|content: Seq<char>| seq![style::span(content, style)])
}

/// The prompt and then the response, wrapped: the part that scrolls.
pub open spec fn body_lines(exch: ShownExchange, width: int, p: Palette) -> Seq<Seq<SpanView>> {
    let wrap_w = geometry::max(width, 8) as nat;
    text_lines(wrap::wrapped(exch.head, wrap_w), Style::plain().fg(p.text)) + text_lines(
        wrap::wrapped(exch.rhead, wrap_w),
        panel::dim(p),
    )
}

fn put_texts(lines: &mut Vec<Line>, texts: Vec<String>, style: Style)
    ensures
        views::of(final(lines)@) == views::of(old(lines)@) + text_lines(
            views::of(texts@),
            style,
        ),
{
    broadcast use views::group_views;

    let ghost all = texts@;
    let ghost more = text_lines(views::of(all), style);
    let ghost start = views::of(lines@);
    assert(start + more.take(0) =~= start);
    for content in it: texts
        invariant
            it.seq() == all,
            more == text_lines(views::of(all), style),
            views::of(lines@) == start + more.take(it.index() as int),
    {
        let ghost n = it.index() as int;
        assert(more[n] == seq![style::span(content@, style)]);
        lines.push(Line::of(content, style));
        assert(start + more.take(n + 1) =~= (start + more.take(n)).push(more[n]));
    }
    assert(more.take(more.len() as int) =~= more);
}

/// The wrapped prompt and then the response: the part that scrolls.
pub fn viewer_body(exch: &ExchangeView, width: u16, p: &Palette) -> (out: Vec<Line>)
    ensures
        views::of(out@) == body_lines(exch@, width as int, *p),
{
    broadcast use views::group_views;

    let wrap_w: usize = if width < 8 {
        8
    } else {
        width as usize
    };
    let mut lines: Vec<Line> = Vec::new();
    put_texts(&mut lines, wrap_text(exch.head.as_str(), wrap_w), Style::plain().fg(p.text));
    put_texts(&mut lines, wrap_text(exch.rhead.as_str(), wrap_w), Style::plain().fg(p.subtext0));
    assert(views::of(lines@) =~= body_lines(exch@, width as int, *p));
    lines
}

/// How far a body of `len` lines scrolls where `height` rows are the viewer's.
pub open spec fn body_max_scroll(len: int, height: int) -> int {
    geometry::less(len, geometry::less(height, VIEWER_FIXED_ROWS as int))
}

/// The lines of the body that are shown, scrolled by `scroll` or as far as it goes.
pub open spec fn body_window(
    body: Seq<Seq<SpanView>>,
    height: int,
    scroll: int,
) -> Seq<Seq<SpanView>> {
    let from = geometry::min(scroll, body_max_scroll(body.len() as int, height));
    let room = geometry::less(height, VIEWER_FIXED_ROWS as int);
    body.subrange(from, geometry::min(from + room, body.len() as int))
}

/// The row above the body: what the exchange is about.
pub open spec fn label_spans(exch: ShownExchange, width: int, p: Palette) -> Seq<SpanView> {
    if exch.done {
        panel::item_spans("✓"@, exch.label, None, p.green, width, p)
    } else {
        panel::item_spans("●"@, exch.label, None, p.yellow, width, p)
    }
}

/// The lines of the viewer.
pub open spec fn viewer_rows(
    app: AppState,
    width: int,
    height: int,
    clock: (i32, i32),
) -> Seq<Seq<SpanView>> {
    let p = app.palette;
    let header = panel::header_spans("prompts"@, width, p);
    match shown_index(app) {
        None => seq![header, seq![style::span("no prompts yet"@, panel::dim(p))]],
        Some(idx) => {
            let exch = all_shown(app)[idx];
            seq![
                header,
                meta_spans(app, idx, all_shown(app), clock),
                label_spans(exch, width, p),
            ] + body_window(
                body_lines(exch, width, p),
                height,
                app.detail_panel_viewer_scroll as int,
            )
        },
    }
}

/// The lines of the viewer. `clock` is the local hour and minute at which the
/// shown exchange began.
pub fn viewer_lines(app: &AppState, width: u16, height: u16, clock: (i32, i32)) -> (out: Vec<Line>)
    ensures
        views::of(out@) == viewer_rows(*app, width as int, height as int, clock),
{
    broadcast use views::group_views;

    let p: &Palette = &app.palette;
    let mut lines: Vec<Line> = Vec::new();
    lines.push(section_header("prompts", width, p));
    let (idx, shown) = match viewer_state(app) {
        Some((idx, shown)) => (idx, shown),
        None => {
            lines.push(Line::of("no prompts yet".to_string(), Style::plain().fg(p.subtext0)));
            assert(views::of(lines@) =~= viewer_rows(*app, width as int, height as int, clock));
            return lines;
        },
    };
    lines.push(viewer_meta(app, idx, &shown, clock).0);
    let exch: &ExchangeView = &shown[idx];
    assert(exch@ == all_shown(*app)[idx as int]);
    let (glyph, color): (&str, Color) = if exch.done {
        ("✓", p.green)
    } else {
        ("●", p.yellow)
    };
    lines.push(item_line(glyph, exch.label.as_str(), None, color, width, p));
    let ghost start = views::of(lines@);
    let body: Vec<Line> = viewer_body(exch, width, p);
    let ghost all = body@;
    let room: usize = (height as usize).saturating_sub(VIEWER_FIXED_ROWS);
    let most: usize = body.len().saturating_sub(room);
    let scroll: usize = if app.detail_panel_viewer_scroll < most {
        app.detail_panel_viewer_scroll
    } else {
        most
    };
    let ghost window = body_window(
        views::of(all),
        height as int,
        app.detail_panel_viewer_scroll as int,
    );
    let end: usize = if body.len() - scroll < room {
        body.len()
    } else {
        scroll + room
    };
    assert(start + window.take(0) =~= start);
    let mut at: usize = 0;
    for line in it: body
        invariant
            it.seq() == all,
            at == it.index(),
            scroll <= end <= all.len(),
            all.len() <= usize::MAX,
            window == views::of(all).subrange(scroll as int, end as int),
            views::of(lines@) == start + window.take(
                geometry::max(geometry::min(at as int, end as int) - scroll, 0),
            ),
    {
        let ghost n = it.index() as int;
        if at >= scroll && at < end {
            assert(window[at - scroll] == line@);
            lines.push(line);
            assert(start + window.take(at - scroll + 1) =~= (start + window.take(at - scroll)).push(
                window[at - scroll],
            ));
        }
        at = at + 1;
    }
    assert(window.take(end - scroll) =~= window);
    assert(views::of(lines@) =~= viewer_rows(*app, width as int, height as int, clock));
    lines
}

/// How far the body scrolls in the viewer of the panel in `area`.
pub open spec fn viewer_max_scroll(app: AppState, area: Rect) -> int {
    let viewer = panel::viewer_of(area);
    match shown_index(app) {
        Some(idx) => if viewer.height == 0 {
            0
        } else {
            body_max_scroll(
                body_lines(all_shown(app)[idx], viewer.width as int, app.palette).len() as int,
                viewer.height as int,
            )
        },
        None => 0,
    }
}

/// How far the body scrolls in the viewer of the panel in `area`.
pub fn detail_panel_viewer_max_scroll(app: &AppState, area: Rect) -> (out: usize)
    requires
        panel::has_margins(area),
    ensures
        out == viewer_max_scroll(*app, area),
{
    broadcast use views::group_views;

    let viewer: Rect = detail_panel_viewer_rect(area);
    let (idx, shown) = match viewer_state(app) {
        Some((idx, shown)) => (idx, shown),
        None => {
            return 0;
        },
    };
    if viewer.height == 0 {
        return 0;
    }
    let room: usize = (viewer.height as usize).saturating_sub(VIEWER_FIXED_ROWS);
    assert(shown@[idx as int]@ == all_shown(*app)[idx as int]);
    viewer_body(&shown[idx], viewer.width, &app.palette).len().saturating_sub(room)
}

/// What the viewer shows.
pub open spec fn shown_u(app: AppState) -> Option<Seq<char>> {
    match shown_index(app) {
        Some(idx) => Some(all_shown(app)[idx].u),
        None => None,
    }
}

/// The scroll belongs to the exchange that is shown.
pub open spec fn viewer_synced(app: AppState) -> bool {
    views::text(app.detail_panel_viewer_shown) == shown_u(app)
}

/// Resets the viewer's scroll when the shown exchange changes, and only then.
pub fn sync_viewer_scroll(app: &mut AppState)
    ensures
        viewer_synced(*final(app)),
        viewer_synced(*old(app)) ==> *final(app) == *old(app),
        !viewer_synced(*old(app)) ==> *final(app) == (AppState {
            detail_panel_viewer_shown: final(app).detail_panel_viewer_shown,
            detail_panel_viewer_scroll: 0,
            ..*old(app)
        }),
{
    let shown: Option<String> = match viewer_exchange(app) {
        Some((_, _, exch)) => Some(exch.u),
        None => None,
    };
    let same: bool = match (&app.detail_panel_viewer_shown, &shown) {
        (Some(a), Some(b)) => str_eq(a.as_str(), b.as_str()),
        (None, None) => true,
        _ => false,
    };
    if !same {
        app.detail_panel_viewer_shown = shown;
        app.detail_panel_viewer_scroll = 0;
    }
    assert(all_shown(*app) == all_shown(*old(app)));
    assert(shown_index(*app) == shown_index(*old(app)));
}

/// The buttons that take column `x`.
pub open spec fn takes(x: int) -> spec_fn(ButtonView) -> bool {
    |b: ButtonView| b.start <= x < b.end
}

/// What a click into the viewer does: the buttons of the meta row claim their
/// columns, and everywhere else the cycle resumes.
pub open spec fn viewer_click(
    app: AppState,
    viewer: Rect,
    col: int,
    row: int,
    clock: (i32, i32),
) -> Hit {
    match shown_index(app) {
        Some(idx) => if row == viewer.y + 1 && col >= viewer.x {
            let shown = all_shown(app);
            let buttons = meta_buttons(meta_spans(app, idx, shown, clock), idx, shown);
            match seqs::first_where(buttons, takes(col - viewer.x)) {
                Some(i) => buttons[i].hit,
                None => Hit::ViewerResume,
            }
        } else {
            Hit::ViewerResume
        },
        None => Hit::ViewerResume,
    }
}

/// What a click into the viewer does. `clock` is the local hour and minute at
/// which the shown exchange began.
pub fn viewer_hit(app: &AppState, viewer: Rect, col: u16, row: u16, clock: (i32, i32)) -> (out:
    DetailPanelHit)
    requires
        viewer.y < u16::MAX,
    ensures
        out@ == viewer_click(*app, viewer, col as int, row as int, clock),
{
    broadcast use views::group_views;

    if row == viewer.y + 1 && col >= viewer.x {
        if let Some((idx, shown)) = viewer_state(app) {
            let x: usize = (col - viewer.x) as usize;
            let (line, buttons) = viewer_meta(app, idx, &shown, clock);
            let ghost all = views::of(buttons@);
            let ghost held = buttons@;
            for b in it: buttons
                invariant
                    it.seq() == held,
                    all == views::of(held),
                    row == viewer.y + 1,
                    col >= viewer.x,
                    x == col - viewer.x,
                    shown_index(*app) == Some(idx as int),
                    all == meta_buttons(
                        meta_spans(*app, idx as int, all_shown(*app), clock),
                        idx as int,
                        all_shown(*app),
                    ),
                    forall|j: int| 0 <= j < it.index() ==> !takes(x as int)(#[trigger] all[j]),
            {
                let ghost n = it.index() as int;
                assert(all[n] == b@);
                if b.start <= x && x < b.end {
                    proof {
                        seqs::lemma_first_is(all, takes(x as int), n);
                    }
                    return b.hit;
                }
            }
            proof {
                seqs::lemma_first_none(all, takes(x as int));
            }
        }
    }
    DetailPanelHit::ViewerResume
}

/// A pin that resolves is shown, however far the cycle has come; without one
/// the viewer shows one of the last [`CYCLE_WINDOW`] exchanges.
pub proof fn law_a_resolved_pin_is_shown(app: AppState)
    requires
        all_shown(app).len() > 0,
    ensures
        ({
            let shown = all_shown(app);
            let idx = shown_index(app)->0;
            &&& shown_index(app) is Some && 0 <= idx < shown.len()
            &&& match app.detail_panel_pinned {
                Some(u) => if exists|i: int| 0 <= i < shown.len() && #[trigger] shown[i].u == u@ {
                    shown[idx].u == u@
                } else {
                    shown.len() - idx <= CYCLE_WINDOW
                },
                None => shown.len() - idx <= CYCLE_WINDOW,
            }
        }),
{
    let shown = all_shown(app);
    if let Some(u) = app.detail_panel_pinned {
        seqs::lemma_first_where(shown, is_about(u@));
        if exists|i: int| 0 <= i < shown.len() && #[trigger] shown[i].u == u@ {
            let i = choose|i: int| 0 <= i < shown.len() && #[trigger] shown[i].u == u@;
            assert(is_about(u@)(shown[i]));
        }
    }
}

/// Unpinned, one step of the cycle moves on to the next newer exchange, and
/// from the newest back to the oldest of the window.
pub proof fn law_the_cycle_runs_oldest_to_newest(total: int, cycle: int)
    requires
        total > 0,
        cycle >= 0,
    ensures
        ({
            let oldest = total - geometry::min(total, CYCLE_WINDOW as int);
            let here = cycled_index(total, cycle);
            &&& oldest <= here < total
            &&& cycled_index(total, 0) == oldest
            &&& cycled_index(total, cycle + 1) == if here + 1 < total {
                here + 1
            } else {
                oldest
            }
        }),
{
    let window = geometry::min(total, CYCLE_WINDOW as int);
    vstd::arithmetic::div_mod::lemma_small_mod(0, window as nat);
    assert((cycle + 1) % window == if cycle % window + 1 < window {
        cycle % window + 1
    } else {
        0
    }) by {
        vstd::arithmetic::div_mod::lemma_fundamental_div_mod(cycle, window);
        assert((cycle / window) * window == window * (cycle / window)) by (nonlinear_arith);
        if cycle % window + 1 < window {
            vstd::arithmetic::div_mod::lemma_fundamental_div_mod_converse(
                cycle + 1,
                window,
                cycle / window,
                cycle % window + 1,
            );
        } else {
            assert((cycle / window + 1) * window == window * (cycle / window) + window)
                by (nonlinear_arith);
            vstd::arithmetic::div_mod::lemma_fundamental_div_mod_converse(
                cycle + 1,
                window,
                cycle / window + 1,
                0,
            );
        }
    }
}

proof fn lemma_columns_grow(line: Seq<SpanView>, n: nat, k: nat)
    requires
        n <= k,
    ensures
        columns(line, n) <= columns(line, k),
    decreases k,
{
    reveal_with_fuel(columns, 2);
    if n < k {
        lemma_columns_grow(line, n, (k - 1) as nat);
    }
}

/// No two buttons of the meta row claim the same column, so a column inside
/// one of them is a click on that one.
pub proof fn law_buttons_claim_their_own_columns(
    line: Seq<SpanView>,
    idx: int,
    shown: Seq<ShownExchange>,
    i: int,
    x: int,
)
    requires
        0 <= i < 3,
        meta_buttons(line, idx, shown)[i].start <= x < meta_buttons(line, idx, shown)[i].end,
    ensures
        seqs::first_where(meta_buttons(line, idx, shown), takes(x)) == Some(i),
{
    let buttons = meta_buttons(line, idx, shown);
    lemma_columns_grow(line, 2, 3);
    lemma_columns_grow(line, 4, 5);
    lemma_columns_grow(line, 2, 5);
    assert forall|j: int| 0 <= j < i implies !takes(x)(#[trigger] buttons[j]) by {
        if j == 0 {
            assert(buttons[0].end == columns(line, 2));
        } else {
            assert(buttons[1].end == columns(line, 4));
        }
    }
    seqs::lemma_first_is(buttons, takes(x), i);
}

/// At the oldest exchange there is nothing to step back to, at the newest
/// nothing to step on to; elsewhere both steps lead to a neighbour.
pub proof fn law_steps_end_at_the_ends(line: Seq<SpanView>, idx: int, shown: Seq<ShownExchange>)
    requires
        0 <= idx < shown.len(),
    ensures
        ({
            let buttons = meta_buttons(line, idx, shown);
            &&& buttons.len() == 3
            &&& buttons[0].hit == (Hit::ViewerPrev {
                u: if idx == 0 {
                    None
                } else {
                    Some(shown[idx - 1].u)
                },
            })
            &&& buttons[1].hit == (Hit::ViewerNext {
                u: if idx == shown.len() - 1 {
                    None
                } else {
                    Some(shown[idx + 1].u)
                },
            })
        }),
{
}

/// Whatever the scroll is, the rows below the label are filled as far as the
/// body goes; scrolled to the end, the last line of the body is the last row.
pub proof fn law_scrolling_never_runs_past_the_body(
    body: Seq<Seq<SpanView>>,
    height: int,
    scroll: int,
)
    requires
        height >= 0,
        scroll >= 0,
    ensures
        ({
            let room = geometry::less(height, VIEWER_FIXED_ROWS as int);
            let window = body_window(body, height, scroll);
            &&& window.len() == geometry::min(room, body.len() as int)
            &&& scroll >= body_max_scroll(body.len() as int, height) && window.len() > 0
                ==> window.last() == body.last()
            &&& scroll == 0 && window.len() > 0 ==> window[0] == body[0]
        }),
{
}

/// The meta row tells when the shown exchange began and, where that is known,
/// how long it took, then its place among all of them between the buttons that
/// step to its neighbours, then the button that jumps to it, and at the end
/// whether the viewer is pinned to it. A button that leads nowhere is dimmed.
#[verifier::spinoff_prover]
#[verifier::rlimit(30)]
pub proof fn law_the_meta_row_tells_of_the_shown_exchange(
    app: AppState,
    idx: int,
    shown: Seq<ShownExchange>,
    clock: (i32, i32),
)
    requires
        0 <= idx < shown.len(),
    ensures
        ({
            let p = app.palette;
            let exch = shown[idx];
            let line = meta_spans(app, idx, shown, clock);
            let dim = Style::plain().fg(p.subtext0);
            let (live, off) = (Style::plain().fg(p.text), Style::plain().fg(p.overlay0));
            let time = figures::clock_text(clock.0 as int, clock.1 as int);
            let pinned = app.detail_panel_pinned matches Some(u) && u@ == exch.u;
            let dot = seq![' ', '·', ' '];
            let place = text::dec((idx + 1) as nat) + seq!['/'] + text::dec(shown.len());
            &&& line.len() == if pinned {
                7int
            } else {
                6
            }
            &&& exch.secs is None ==> line[0].content == time + dot
            &&& exch.secs matches Some(secs) ==> line[0].content == time + dot + figures::span_text(
                secs,
            ) + dot
            &&& line[1] == style::span(
                seq!['[', '‹', ']'],
                if idx > 0 {
                    live
                } else {
                    off
                },
            )
            &&& line[2] == style::span(seq![' '] + place + seq![' '], dim)
            &&& line[3] == style::span(
                seq!['[', '›', ']'],
                if idx < shown.len() - 1 {
                    live
                } else {
                    off
                },
            )
            &&& line[4] == style::span(dot, dim)
            &&& line[5] == style::span(
                "[jump]"@,
                if wrap::query_of(exch.head) is Some {
                    live
                } else {
                    off
                },
            )
            &&& pinned ==> line[6] == style::span(" · pinned"@, dim)
            &&& line[0].style == dim
        }),
{
    let exch = shown[idx];
    let line = meta_spans(app, idx, shown, clock);
    reveal_strlit("[‹]");
    reveal_strlit("[›]");
    reveal_strlit(" · ");
    reveal_strlit(" ");
    reveal_strlit("/");
    assert("[‹]"@ =~= seq!['[', '‹', ']']);
    assert("[›]"@ =~= seq!['[', '›', ']']);
    assert(" · "@ =~= seq![' ', '·', ' ']);
    assert(" "@ =~= seq![' ']);
    assert("/"@ =~= seq!['/']);
    let place = text::dec((idx + 1) as nat) + seq!['/'] + text::dec(shown.len());
    assert(place_text(idx, shown.len()) =~= seq![' '] + place + seq![' ']);
    let time = figures::clock_text(clock.0 as int, clock.1 as int);
    let dot = seq![' ', '·', ' '];
    match exch.secs {
        Some(secs) => {
            assert(meta_lead(exch, clock) =~= time + dot + figures::span_text(secs) + dot);
        },
        None => {
            assert(meta_lead(exch, clock) =~= time + dot);
        },
    }
}

/// A click on the meta row does what the piece of it says that is drawn in the
/// column: the two steps lead to the neighbours of the shown exchange and the
/// jump to the exchange itself. A click anywhere else lets the cycle run on.
#[verifier::spinoff_prover]
#[verifier::rlimit(30)]
pub proof fn law_a_click_meets_the_button_that_is_drawn(
    app: AppState,
    viewer: Rect,
    col: int,
    row: int,
    clock: (i32, i32),
)
    requires
        shown_index(app) is Some,
    ensures
        ({
            let idx = shown_index(app)->0;
            let shown = all_shown(app);
            let line = meta_spans(app, idx, shown, clock);
            let x = col - viewer.x;
            let hit = viewer_click(app, viewer, col, row, clock);
            let on = |n: nat|
                row == viewer.y + 1 && 0 <= x && columns(line, n) <= x < columns(line, n + 1);
            &&& on(1) ==> hit == (Hit::ViewerPrev {
                u: if idx > 0 {
                    Some(shown[idx - 1].u)
                } else {
                    None
                },
            })
            &&& on(3) ==> hit == (Hit::ViewerNext {
                u: if idx < shown.len() - 1 {
                    Some(shown[idx + 1].u)
                } else {
                    None
                },
            })
            &&& on(5) ==> hit == (Hit::ViewerJump { query: wrap::query_of(shown[idx].head) })
            &&& !on(1) && !on(3) && !on(5) ==> hit is ViewerResume
        }),
{
    let idx = shown_index(app)->0;
    let shown = all_shown(app);
    let line = meta_spans(app, idx, shown, clock);
    let buttons = meta_buttons(line, idx, shown);
    let x = col - viewer.x;
    if row == viewer.y + 1 && 0 <= x {
        seqs::lemma_first_where(buttons, takes(x));
        assert(buttons[0].start == columns(line, 1) && buttons[0].end == columns(line, 2));
        assert(buttons[1].start == columns(line, 3) && buttons[1].end == columns(line, 4));
        assert(buttons[2].start == columns(line, 5) && buttons[2].end == columns(line, 6));
        law_the_viewer_always_shows_an_exchange(app);
        lemma_columns_grow(line, 2, 3);
        lemma_columns_grow(line, 2, 5);
        lemma_columns_grow(line, 4, 5);
        if takes(x)(buttons[0]) {
            law_buttons_claim_their_own_columns(line, idx, shown, 0, x);
        } else if takes(x)(buttons[1]) {
            law_buttons_claim_their_own_columns(line, idx, shown, 1, x);
        } else if takes(x)(buttons[2]) {
            law_buttons_claim_their_own_columns(line, idx, shown, 2, x);
        } else {
            assert forall|j: int| 0 <= j < buttons.len() implies !takes(x)(
                #[trigger] buttons[j],
            ) by {}
            seqs::lemma_first_none(buttons, takes(x));
        }
    }
}

/// Without an exchange a click into the viewer lets the cycle run on.
pub proof fn law_there_is_no_button_without_an_exchange(
    app: AppState,
    viewer: Rect,
    col: int,
    row: int,
    clock: (i32, i32),
)
    requires
        all_shown(app).len() == 0,
    ensures
        viewer_click(app, viewer, col, row, clock) is ViewerResume,
{
}

/// The columns in front of a piece are those of the pieces before it.
pub proof fn law_columns_count_the_cells_of_the_pieces(line: Seq<SpanView>, n: nat)
    ensures
        columns(line, 0) == 0,
        columns(line, n + 1) == columns(line, n) + text::text_width(line[n as int].content),
{
    reveal_with_fuel(columns, 2);
}

/// The viewer shows its header, the meta row, the label of the exchange with a
/// mark that tells whether it is done, and below them the body from the line on
/// that it is scrolled to, or from the last that leaves no row empty.
pub proof fn law_the_viewer_shows_one_exchange(
    app: AppState,
    width: int,
    height: int,
    clock: (i32, i32),
    i: int,
)
    requires
        height >= 3,
    ensures
        ({
            let p = app.palette;
            let rows = viewer_rows(app, width, height, clock);
            let shown = all_shown(app);
            &&& rows.len() >= 2
            &&& rows[0] == panel::header_spans("prompts"@, width, p)
            &&& shown.len() == 0 ==> rows.len() == 2 && rows[1] == seq![
                style::span("no prompts yet"@, Style::plain().fg(p.subtext0)),
            ]
            &&& shown_index(app) matches Some(idx) ==> {
                let exch = shown[idx];
                let body = body_lines(exch, width, p);
                let scroll = app.detail_panel_viewer_scroll as int;
                let from = if scroll + (height - 3) <= body.len() {
                    scroll
                } else {
                    geometry::max(body.len() - (height - 3), 0)
                };
                &&& 3 <= rows.len() <= height
                &&& rows[1] == meta_spans(app, idx, shown, clock)
                &&& exch.done ==> rows[2] == panel::item_spans(
                    "✓"@,
                    exch.label,
                    None,
                    p.green,
                    width,
                    p,
                )
                &&& !exch.done ==> rows[2] == panel::item_spans(
                    "●"@,
                    exch.label,
                    None,
                    p.yellow,
                    width,
                    p,
                )
                &&& rows.len() == 3 + geometry::min(height - 3, body.len() as int)
                &&& 3 <= i < rows.len() ==> rows[i] == body[from + i - 3]
            }
        }),
{
    law_the_viewer_always_shows_an_exchange(app);
}

/// The body is the prompt and then the response, each wrapped to the width of
/// the viewer, which counts as eight cells at least; the response stands back.
pub proof fn law_the_body_is_the_prompt_and_the_response(
    exch: ShownExchange,
    width: int,
    p: Palette,
    i: int,
)
    requires
        0 <= width,
    ensures
        ({
            let cells = geometry::max(width, 8) as nat;
            let body = body_lines(exch, width, p);
            let prompt = wrap::wrapped(exch.head, cells);
            let response = wrap::wrapped(exch.rhead, cells);
            &&& body.len() == prompt.len() + response.len()
            &&& 0 <= i < prompt.len() ==> body[i] == seq![
                style::span(prompt[i], Style::plain().fg(p.text)),
            ]
            &&& 0 <= i < response.len() ==> body[prompt.len() + i] == seq![
                style::span(response[i], Style::plain().fg(p.subtext0)),
            ]
        }),
{
}

/// The viewer scrolls until the last line of the body is its last row.
pub proof fn law_the_viewer_scrolls_to_the_end_of_the_body(app: AppState, area: Rect)
    requires
        area.fits(),
        area.height >= 10,
        area.width >= 4,
        shown_index(app) is Some,
    ensures
        ({
            let viewer = panel::viewer_of(area);
            let body = body_lines(
                all_shown(app)[shown_index(app)->0],
                viewer.width as int,
                app.palette,
            );
            let most = viewer_max_scroll(app, area);
            &&& most >= 0
            &&& most > 0 ==> most + viewer.height - 3 == body.len()
            &&& most == 0 ==> body.len() <= viewer.height - 3
        }),
{
}

/// Unpinned, the viewer shows one of the last eight exchanges, or of all where
/// there are fewer: the oldest of them first, and one further with each step.
pub proof fn law_the_cycle_runs_over_the_last_eight(total: int, cycle: int)
    requires
        total > 0,
        0 <= cycle < 8,
    ensures
        total >= 8 ==> cycled_index(total, cycle) == total - 8 + cycle,
        total < 8 && cycle < total ==> cycled_index(total, cycle) == cycle,
{
    if total >= 8 {
        vstd::arithmetic::div_mod::lemma_small_mod(cycle as nat, 8);
    } else if cycle < total {
        vstd::arithmetic::div_mod::lemma_small_mod(cycle as nat, total as nat);
    }
}

/// The scroll belongs to the shown exchange where it was kept for it.
pub proof fn law_the_scroll_is_kept_for_one_exchange(app: AppState)
    ensures
        viewer_synced(app) <==> match (app.detail_panel_viewer_shown, shown_index(app)) {
            (Some(u), Some(idx)) => all_shown(app)[idx].u == u@,
            (None, None) => true,
            _ => false,
        },
{
}

} // verus!
