//! What the drawn list of spaces shows of each tab, and in which rows.

use vstd::prelude::*;

use crate::app::state::{AppState, DragTarget, SidebarTabRow, WorkspaceCardArea};
use crate::draw;
use crate::draw::DrawOpView;
use crate::geometry;
use crate::geometry::Rect;
use crate::style;
use crate::style::{Color, Palette, Style};
use crate::text;
use crate::ui::figures;
use crate::ui::sidebar::attention;
use crate::ui::sidebar::boxes;
use crate::ui::sidebar::dash;
use crate::ui::sidebar::dash::{Dash, DashRow};
use crate::ui::sidebar::entries;
use crate::ui::sidebar::entries::WorkspaceListEntry;
use crate::ui::sidebar::layout;
use crate::ui::sidebar::render;
use crate::ui::sidebar::render::SpaceLook;
use crate::ui::sidebar::spaces;
use crate::ui::status::StatusTheme;
use crate::views;
use crate::workspace;

verus! {

/// `part` stands in `all` behind `front` and before `back`.
pub open spec fn stands_between(
    all: Seq<DrawOpView>,
    front: Seq<DrawOpView>,
    part: Seq<DrawOpView>,
    back: Seq<DrawOpView>,
) -> bool {
    all == front + part + back
}

/// `part` stands in `all`, its steps next to each other.
pub open spec fn shows(all: Seq<DrawOpView>, part: Seq<DrawOpView>) -> bool {
    exists|front: Seq<DrawOpView>, back: Seq<DrawOpView>|
        #[trigger] stands_between(all, front, part, back)
}

proof fn lemma_shows(a: Seq<DrawOpView>, b: Seq<DrawOpView>, part: Seq<DrawOpView>)
    ensures
        shows(part, part),
        shows(a, part) ==> shows(a + b, part),
        shows(b, part) ==> shows(a + b, part),
{
    let none = Seq::<DrawOpView>::empty();
    assert(none + part + none =~= part);
    assert(stands_between(part, none, part, none));
    if shows(a, part) {
        let (front, back) = choose|front: Seq<DrawOpView>, back: Seq<DrawOpView>|
            #[trigger] stands_between(a, front, part, back);
        assert(a + b =~= front + part + (back + b));
        assert(stands_between(a + b, front, part, back + b));
    }
    if shows(b, part) {
        let (front, back) = choose|front: Seq<DrawOpView>, back: Seq<DrawOpView>|
            #[trigger] stands_between(b, front, part, back);
        assert(a + b =~= (a + front) + part + back);
        assert(stands_between(a + b, a + front, part, back));
    }
}

/// The box of a tab in the rows of `row`: its fill, its frame and its rail all
/// over them, and what is said of the tab from the second of them to the one
/// before the last.
pub open spec fn tab_box(
    dash: Dash,
    row: Rect,
    look: SpaceLook,
    theme: StatusTheme,
    p: Palette,
    now_ms: Option<u64>,
) -> Seq<DrawOpView> {
    render::box_picture(row, render::box_bg(look, dash.tab_idx, p), look.rail, p)
        + render::rows_picture(
        dash,
        0,
        (row.x + 3) as u16,
        row.y + 1,
        row.end_y() - 1,
        (row.width - 5) as u16,
        theme,
        p,
        now_ms,
    )
}

#[verifier::spinoff_prover]
#[verifier::rlimit(30)]
proof fn lemma_boxes(
    ws_idx: usize,
    dashes: Seq<Dash>,
    body: Rect,
    t: int,
    y: int,
    bottom: int,
    look: SpaceLook,
    theme: StatusTheme,
    p: Palette,
    now_ms: Option<u64>,
    k: int,
)
    requires
        0 <= t,
        0 <= y,
        bottom <= u16::MAX,
        body.width >= 6,
        body.fits(),
        0 <= k < spaces::tabs_from(ws_idx, dashes, body, bottom, t, y).len(),
        spaces::tabs_from(ws_idx, dashes, body, bottom, t, y)[k].rect.height >= 2,
    ensures
        t + k < dashes.len(),
        spaces::tabs_from(ws_idx, dashes, body, bottom, t, y)[k].ws_idx == ws_idx,
        spaces::tabs_from(ws_idx, dashes, body, bottom, t, y)[k].rect.width == body.width,
        spaces::tabs_from(ws_idx, dashes, body, bottom, t, y)[k].tab_idx == dashes[t
            + k].tab_idx as usize,
        shows(
            render::boxes_picture(
                dashes,
                t,
                body.x,
                body.width,
                y,
                bottom,
                look,
                theme,
                p,
                now_ms,
            ),
            tab_box(
                dashes[t + k],
                spaces::tabs_from(ws_idx, dashes, body, bottom, t, y)[k].rect,
                look,
                theme,
                p,
                now_ms,
            ),
        ),
    decreases k,
{
    let rows = spaces::tabs_from(ws_idx, dashes, body, bottom, t, y);
    let height = geometry::min(dashes[t].rows.len() as int + 2, bottom - y);
    let rest = spaces::tabs_from(ws_idx, dashes, body, bottom, t + 1, y + height);
    let mine = tab_box(dashes[t], rows[0].rect, look, theme, p, now_ms);
    let more = render::boxes_picture(
        dashes,
        t + 1,
        body.x,
        body.width,
        y + height,
        bottom,
        look,
        theme,
        p,
        now_ms,
    );
    assert(height >= 2);
    assert(rows[0].rect.height == height);
    assert(render::boxes_picture(
        dashes,
        t,
        body.x,
        body.width,
        y,
        bottom,
        look,
        theme,
        p,
        now_ms,
    ) == mine + more);
    if k == 0 {
        lemma_shows(mine, more, mine);
    } else {
        assert(rows[k] == rest[k - 1]);
        lemma_boxes(
            ws_idx,
            dashes,
            body,
            t + 1,
            y + height,
            bottom,
            look,
            theme,
            p,
            now_ms,
            k - 1,
        );
        lemma_shows(
            mine,
            more,
            tab_box(dashes[t + k], rows[k].rect, look, theme, p, now_ms),
        );
    }
}

/// The boxes of the tabs of a card are drawn: its space heads no collapsed group.
pub open spec fn is_unfolded(app: AppState, card: WorkspaceCardArea) -> bool {
    render::card_group(app, card) matches Some((_, collapsed)) ==> !collapsed
}

/// The box of the tab in `row`, which says of the tab what its dashboard says.
pub open spec fn row_box(
    app: AppState,
    row: SidebarTabRow,
    navigating: bool,
    now_ms: Option<u64>,
) -> Seq<DrawOpView> {
    let ws = app.workspaces@[row.ws_idx as int];
    tab_box(
        dash::dash_of(
            app.terminals@,
            ws.tabs@[row.tab_idx as int],
            row.tab_idx as int,
            row.rect.width as int,
        ),
        row.rect,
        render::look_of(app, row.ws_idx as int, navigating),
        app.status_theme,
        app.palette,
        now_ms,
    )
}

#[verifier::spinoff_prover]
#[verifier::rlimit(30)]
proof fn lemma_card_boxes(
    app: AppState,
    names: Map<u64, String>,
    list: Seq<WorkspaceListEntry>,
    body: Rect,
    idx: int,
    y: int,
    navigating: bool,
    now_ms: Option<u64>,
    r: int,
)
    requires
        body.fits(),
        body.width >= 6,
        body.y <= y <= body.end_y(),
        0 <= r < spaces::card_tabs(app, list, body, idx, y).len(),
        spaces::card_tabs(app, list, body, idx, y)[r].rect.height >= 2,
        is_unfolded(app, spaces::card_at(app, list, body, idx, y)),
    ensures
        shows(
            render::card_picture(
                app,
                names,
                spaces::card_at(app, list, body, idx, y),
                body.end_y(),
                navigating,
                now_ms,
            ),
            row_box(app, spaces::card_tabs(app, list, body, idx, y)[r], navigating, now_ms),
        ),
{
    reveal(render::card_picture);
    let card = spaces::card_at(app, list, body, idx, y);
    let i = list[idx].idx();
    let ws = app.workspaces@[i];
    let height = spaces::placed_height(
        y,
        spaces::slot_of(app, list, body, idx).height as int,
        body.end_y(),
    );
    let bottom = geometry::min(spaces::capped(y + height), body.end_y());
    let from = spaces::capped(y + spaces::name_rows(app, i, list[idx]->indented));
    let dashes = dash::dashes_of(app.terminals@, ws, body.width as int);
    let look = render::look_of(app, i, navigating);
    let rows = spaces::card_tabs(app, list, body, idx, y);
    assert(ws.tabs@.len() == ws.tabs.len());
    lemma_boxes(
        list[idx]->ws_idx,
        dashes,
        body,
        0,
        from,
        bottom,
        look,
        app.status_theme,
        app.palette,
        now_ms,
        r,
    );
    assert(from < bottom);
    assert(dashes[r] == dash::dash_of(app.terminals@, ws.tabs@[r], r, body.width as int));
    assert(rows[r].tab_idx == r);
    let boxed = render::boxes_picture(
        dashes,
        0,
        body.x,
        body.width,
        from,
        bottom,
        look,
        app.status_theme,
        app.palette,
        now_ms,
    );
    let all = render::card_picture(app, names, card, body.end_y(), navigating, now_ms);
    let name = all.take(all.len() - boxed.len());
    assert(all =~= name + boxed);
    lemma_shows(name, boxed, row_box(app, rows[r], navigating, now_ms));
}

/// `row` lies on `card`, and where the tabs of that card are drawn and `row` has
/// room for a frame, the box of its tab is drawn there.
pub open spec fn is_drawn_on(
    app: AppState,
    names: Map<u64, String>,
    row: SidebarTabRow,
    card: WorkspaceCardArea,
    list_bottom: int,
    navigating: bool,
    now_ms: Option<u64>,
) -> bool {
    &&& spaces::on_card(row, card)
    &&& is_unfolded(app, card) && row.rect.height >= 2 ==> shows(
        render::card_picture(app, names, card, list_bottom, navigating, now_ms),
        row_box(app, row, navigating, now_ms),
    )
}

proof fn lemma_rows_drawn(
    app: AppState,
    names: Map<u64, String>,
    list: Seq<WorkspaceListEntry>,
    body: Rect,
    idx: int,
    y: int,
    navigating: bool,
    now_ms: Option<u64>,
    r: int,
)
    requires
        body.fits(),
        body.width >= 6,
        0 <= idx,
        body.y <= y <= body.end_y(),
        0 <= r < spaces::tab_rows_from(app, list, body, idx, y).len(),
    ensures
        exists|k: int|
            0 <= k < spaces::cards_from(app, list, body, idx, y).len() && is_drawn_on(
                app,
                names,
                spaces::tab_rows_from(app, list, body, idx, y)[r],
                #[trigger] spaces::cards_from(app, list, body, idx, y)[k],
                body.end_y(),
                navigating,
                now_ms,
            ),
    decreases (if idx <= list.len() {
        list.len() - idx
    } else {
        0
    }),
{
    let rows = spaces::tab_rows_from(app, list, body, idx, y);
    let cards = spaces::cards_from(app, list, body, idx, y);
    let mine = spaces::card_tabs(app, list, body, idx, y);
    let i = list[idx].idx();
    let height = spaces::placed_height(
        y,
        spaces::slot_of(app, list, body, idx).height as int,
        body.end_y(),
    );
    assert(cards[0] == spaces::card_at(app, list, body, idx, y));
    if r < mine.len() {
        assert(rows[r] == mine[r]);
        spaces::lemma_tabs_from(
            list[idx]->ws_idx,
            dash::dashes_of(app.terminals@, app.workspaces@[i], body.width as int),
            body,
            geometry::min(spaces::capped(y + height), body.end_y()),
            0,
            spaces::capped(y + spaces::name_rows(app, i, list[idx]->indented)),
        );
        assert(spaces::on_card(mine[r], cards[0]));
        if is_unfolded(app, cards[0]) && mine[r].rect.height >= 2 {
            lemma_card_boxes(app, names, list, body, idx, y, navigating, now_ms, r);
        }
        assert(is_drawn_on(app, names, rows[r], cards[0], body.end_y(), navigating, now_ms));
    } else {
        let next = spaces::row_behind(app, list, body, idx, y);
        let rest = spaces::cards_from(app, list, body, idx + 1, next);
        let more = spaces::tab_rows_from(app, list, body, idx + 1, next);
        assert(rows[r] == more[r - mine.len()]);
        lemma_rows_drawn(
            app,
            names,
            list,
            body,
            idx + 1,
            next,
            navigating,
            now_ms,
            r - mine.len(),
        );
        let k = choose|k: int|
            0 <= k < rest.len() && is_drawn_on(
                app,
                names,
                more[r - mine.len()],
                #[trigger] rest[k],
                body.end_y(),
                navigating,
                now_ms,
            );
        assert(cards[k + 1] == rest[k]);
        assert(is_drawn_on(app, names, rows[r], cards[k + 1], body.end_y(), navigating, now_ms));
    }
}

proof fn lemma_card_shown(
    app: AppState,
    names: Map<u64, String>,
    cards: Seq<WorkspaceCardArea>,
    list_bottom: int,
    navigating: bool,
    now_ms: Option<u64>,
    n: nat,
    k: int,
    part: Seq<DrawOpView>,
)
    requires
        0 <= k < n <= cards.len(),
        shows(render::card_picture(app, names, cards[k], list_bottom, navigating, now_ms), part),
    ensures
        shows(
            render::cards_picture(app, names, cards, list_bottom, navigating, now_ms, n),
            part,
        ),
    decreases n,
{
    let before = render::cards_picture(
        app,
        names,
        cards,
        list_bottom,
        navigating,
        now_ms,
        (n - 1) as nat,
    );
    let last = render::card_picture(app, names, cards[n - 1], list_bottom, navigating, now_ms);
    if k < n - 1 {
        lemma_card_shown(
            app,
            names,
            cards,
            list_bottom,
            navigating,
            now_ms,
            (n - 1) as nat,
            k,
            part,
        );
    }
    lemma_shows(before, last, part);
}

proof fn lemma_list_shows(
    app: AppState,
    names: Map<u64, String>,
    area: Rect,
    navigating: bool,
    now_ms: Option<u64>,
    part: Seq<DrawOpView>,
)
    requires
        shows(
            render::cards_picture(
                app,
                names,
                app.view.workspace_card_areas@,
                area.end_y(),
                navigating,
                now_ms,
                app.view.workspace_card_areas@.len(),
            ),
            part,
        ),
    ensures
        shows(render::list_picture(app, names, area, navigating, now_ms), part),
{
    let p = app.palette;
    let cards = app.view.workspace_card_areas@;
    let drawn = render::cards_picture(
        app,
        names,
        cards,
        area.end_y(),
        navigating,
        now_ms,
        cards.len(),
    );
    let header = if area.height >= 4 {
        render::header_picture(app)
    } else {
        Seq::empty()
    };
    let ruled = if area.height >= spaces::WORKSPACE_SECTION_HEADER_ROWS {
        header + render::rule_picture(
            area,
            area.y + spaces::WORKSPACE_SECTION_HEADER_ROWS - 1,
            p.text,
        )
    } else {
        header
    };
    lemma_shows(ruled, drawn, part);
    match render::insertion_row(app, area) {
        Some(y) => {
            lemma_shows(ruled + drawn, render::rule_picture(area, y, p.accent), part);
        },
        None => {},
    }
}

/// In a list that is drawn as it was laid out, the box of every tab whose space
/// heads no collapsed group is drawn in the row of that tab, so the boxes of two
/// tabs share no row. What is drawn there is of that tab.
#[verifier::spinoff_prover]
#[verifier::rlimit(30)]
pub proof fn law_the_box_of_a_tab_is_drawn_in_its_row(
    app: AppState,
    names: Map<u64, String>,
    area: Rect,
    navigating: bool,
    now_ms: Option<u64>,
    r: int,
)
    requires
        app.view.workspace_card_areas@ == spaces::space_cards(app, area),
        0 <= r < spaces::space_tab_rows(app, area).len(),
        spaces::space_tab_rows(app, area)[r].rect.width >= 6,
        spaces::space_tab_rows(app, area)[r].rect.height >= 2,
    ensures
        ({
            let row = spaces::space_tab_rows(app, area)[r];
            let cards = spaces::space_cards(app, area);
            exists|k: int|
                0 <= k < cards.len() && spaces::on_card(row, #[trigger] cards[k]) && (is_unfolded(
                    app,
                    cards[k],
                ) ==> shows(
                    render::list_picture(
                        app,
                        names,
                        spaces::list_rect(area),
                        navigating,
                        now_ms,
                    ),
                    row_box(app, row, navigating, now_ms),
                ))
        }),
        forall|j: int|
            0 <= j < spaces::space_tab_rows(app, area).len() && j != r ==> {
                ||| (#[trigger] spaces::space_tab_rows(app, area)[j]).rect.end_y()
                    <= spaces::space_tab_rows(app, area)[r].rect.y
                ||| spaces::space_tab_rows(app, area)[r].rect.end_y() <= spaces::space_tab_rows(
                    app,
                    area,
                )[j].rect.y
            },
{
    let body = spaces::body_rect(spaces::list_rect(area), false);
    let list = entries::workspace_entries(app, false);
    let bottom = spaces::list_rect(area).end_y();
    let rows = spaces::space_tab_rows(app, area);
    let cards = spaces::space_cards(app, area);
    assert forall|j: int| 0 <= j < rows.len() && j != r implies {
        ||| (#[trigger] rows[j]).rect.end_y() <= rows[r].rect.y
        ||| rows[r].rect.end_y() <= rows[j].rect.y
    } by {
        if j < r {
            spaces::law_tab_rows_do_not_overlap(app, area, j, r);
        } else {
            spaces::law_tab_rows_do_not_overlap(app, area, r, j);
        }
    }
    spaces::law_tab_rows_lie_on_their_cards(app, area, r);
    spaces::law_cards_follow_each_other_in_the_body(app, area);
    lemma_rows_drawn(
        app,
        names,
        list,
        body,
        app.workspace_scroll as int,
        body.y as int,
        navigating,
        now_ms,
        r,
    );
    let k = choose|k: int|
        0 <= k < cards.len() && is_drawn_on(
            app,
            names,
            rows[r],
            #[trigger] cards[k],
            body.end_y(),
            navigating,
            now_ms,
        );
    assert(spaces::on_card(rows[r], cards[k]));
    if is_unfolded(app, cards[k]) {
        let part = row_box(app, rows[r], navigating, now_ms);
        let drawn = render::cards_picture(
            app,
            names,
            cards,
            bottom,
            navigating,
            now_ms,
            cards.len(),
        );
        lemma_card_shown(app, names, cards, bottom, navigating, now_ms, cards.len(), k, part);
        let column = spaces::list_rect(area);
        lemma_list_shows(app, names, column, navigating, now_ms, part);
    }
}

/// The cells that a step of drawing is about; of a text, where it starts.
pub open spec fn cells_of(op: DrawOpView) -> Rect {
    match op {
        DrawOpView::Symbol { area, .. } => area,
        DrawOpView::Paint { area, .. } => area,
        DrawOpView::Text { x, y, .. } => Rect { x, y, width: 1, height: 1 },
        DrawOpView::Lines { area, .. } => area,
    }
}

/// The step that puts `symbol` into the cell at (`x`, `y`).
pub open spec fn symbol_at(x: int, y: int, symbol: Seq<char>) -> DrawOpView {
    DrawOpView::Symbol { area: Rect { x: x as u16, y: y as u16, width: 1, height: 1 }, symbol }
}

/// A box is drawn in its cells: the rail in the first column over its whole
/// height, the corners of the frame in the corners of what is right of the rail,
/// and the fill, where it has one, in all of that. Nothing of it lies elsewhere.
#[verifier::rlimit(40)]
#[verifier::spinoff_prover]
pub proof fn law_a_box_is_drawn_in_its_cells(
    rect: Rect,
    bg: Option<Color>,
    rail: Color,
    p: Palette,
)
    requires
        rect.fits(),
        rect.width >= 2,
        rect.height >= 2,
    ensures
        ({
            let drawn = render::box_picture(rect, bg, rail, p);
            let (left, right) = (rect.x + 1, rect.end_x() - 1);
            let (top, bottom) = (rect.y as int, rect.end_y() - 1);
            let column = Rect { x: rect.x, y: rect.y, width: 1, height: rect.height };
            let rest = Rect {
                x: (rect.x + 1) as u16,
                y: rect.y,
                width: (rect.width - 1) as u16,
                height: rect.height,
            };
            &&& drawn.contains(DrawOpView::Symbol { area: column, symbol: "▌"@ })
            &&& drawn.contains(DrawOpView::Paint { area: column, style: Style::plain().fg(rail) })
            &&& bg is None ==> {
                &&& drawn.contains(symbol_at(left, top, "┌"@))
                &&& drawn.contains(symbol_at(right, top, "┐"@))
                &&& drawn.contains(symbol_at(left, bottom, "└"@))
                &&& drawn.contains(symbol_at(right, bottom, "┘"@))
            }
            &&& bg matches Some(color) ==> {
                &&& drawn.contains(
                    DrawOpView::Paint { area: rest, style: Style::plain().bg(color) },
                )
                &&& drawn.contains(symbol_at(left, top, "▛"@))
                &&& drawn.contains(symbol_at(right, top, "▜"@))
                &&& drawn.contains(symbol_at(left, bottom, "▙"@))
                &&& drawn.contains(symbol_at(right, bottom, "▟"@))
            }
            &&& forall|i: int|
                0 <= i < drawn.len() ==> (cells_of(#[trigger] drawn[i])).inside(rect)
            &&& forall|i: int|
                0 <= i < drawn.len() && cells_of(#[trigger] drawn[i]).x == rect.x ==> cells_of(
                    drawn[i],
                ) == column
        }),
{
    reveal(render::box_picture);
    reveal(boxes::frame_picture);
    let drawn = render::box_picture(rect, bg, rail, p);
    let from: int = if bg is Some {
        1
    } else {
        0
    };
    assert(drawn.len() == from + 14);
    assert(drawn[from + 12] is Symbol && drawn[from + 13] is Paint);
    assert(drawn[from + 4] is Symbol && drawn[from + 5] is Symbol);
    assert(drawn[from + 6] is Symbol && drawn[from + 7] is Symbol);
    if bg is Some {
        assert(drawn[0] is Paint);
    }
}

proof fn lemma_pieces_are_text(
    pieces: Seq<boxes::Piece>,
    i: int,
    x: int,
    end: int,
    y: u16,
)
    ensures
        forall|k: int|
            0 <= k < boxes::pieces_picture(pieces, i, x, end, y).len() ==> {
                &&& (#[trigger] boxes::pieces_picture(pieces, i, x, end, y)[k]) is Text
                &&& boxes::pieces_picture(pieces, i, x, end, y)[k]->Text_y == y
            },
    decreases pieces.len() - i,
{
    if 0 <= i < pieces.len() && x < end {
        let shown = text::truncated(pieces[i].0, (end - x) as nat);
        lemma_pieces_are_text(pieces, i + 1, x, end, y);
        lemma_pieces_are_text(pieces, i + 1, x + text::text_width(shown), end, y);
    }
}

/// `ops` write text in row `y`, and nothing else.
pub open spec fn writes_in_row(ops: Seq<DrawOpView>, y: int) -> bool {
    forall|k: int| 0 <= k < ops.len() ==> (#[trigger] ops[k]) is Text && ops[k]->Text_y == y
}

/// What is said of a tab in one row of its box stands in that row.
#[verifier::spinoff_prover]
#[verifier::rlimit(30)]
pub proof fn law_a_row_of_a_tab_is_written_in_its_row(
    dash: Dash,
    row: DashRow,
    x: u16,
    y: u16,
    w: u16,
    theme: StatusTheme,
    p: Palette,
    now_ms: Option<u64>,
)
    ensures
        writes_in_row(render::row_picture(dash, row, x, y, w, theme, p, now_ms), y as int),
{
    reveal(render::row_picture);
    reveal(render::title_picture);
    reveal(render::dot_picture);
    reveal(boxes::line_picture);
    assert forall|pieces: Seq<boxes::Piece>, w: u16|
        writes_in_row(#[trigger] boxes::line_picture(x, y, w, pieces), y as int) by {
        lemma_pieces_are_text(pieces, 0, x as int, spaces::capped(x + w), y);
    }
}

/// The rows of a tab stand below each other in its box: the first in the first
/// row inside of the frame, and each behind it one row further down, as far as
/// the box goes.
pub proof fn law_rows_of_a_tab_stand_below_each_other(
    dash: Dash,
    i: int,
    x: u16,
    y: int,
    bottom: int,
    w: u16,
    theme: StatusTheme,
    p: Palette,
    now_ms: Option<u64>,
    k: int,
)
    requires
        0 <= i <= k < dash.rows.len(),
        0 <= y,
        y + k - i < bottom <= u16::MAX,
    ensures
        shows(
            render::rows_picture(dash, i, x, y, bottom, w, theme, p, now_ms),
            render::row_picture(
                dash,
                dash.rows[k],
                x,
                (y + k - i) as u16,
                w,
                theme,
                p,
                now_ms,
            ),
        ),
    decreases k - i,
{
    let first = render::row_picture(dash, dash.rows[i], x, y as u16, w, theme, p, now_ms);
    let rest = render::rows_picture(dash, i + 1, x, y + 1, bottom, w, theme, p, now_ms);
    if i < k {
        law_rows_of_a_tab_stand_below_each_other(
            dash,
            i + 1,
            x,
            y + 1,
            bottom,
            w,
            theme,
            p,
            now_ms,
            k,
        );
    }
    lemma_shows(
        first,
        rest,
        render::row_picture(dash, dash.rows[k], x, (y + k - i) as u16, w, theme, p, now_ms),
    );
}

/// The step that writes `text` from (`x`, `y`) on.
pub open spec fn text_at(x: int, y: int, text: Seq<char>, style: Style) -> DrawOpView {
    DrawOpView::Text { x: x as u16, y: y as u16, text, style }
}

/// The cells at the end of a tab's title row that its state takes: the dot, the
/// ring around it where subagents are at work, and the time and a blank where
/// the agent is.
pub open spec fn status_cells(dash: Dash, time: Option<Seq<char>>) -> int {
    (if dash.subs_live && dash.state is Working {
        3int
    } else {
        1
    }) + match time {
        Some(time) => text::text_width(time) + 1,
        None => 0,
    }
}

/// The title row of a tab ends with its dot in the last cell. While the agent is
/// at work, and only then, the time for which it has been stands before the dot,
/// and the dot is in a ring if subagents are at work too. The title keeps a
/// blank's distance.
#[verifier::spinoff_prover]
#[verifier::rlimit(30)]
pub proof fn law_a_title_row_ends_with_the_state(
    dash: Dash,
    content: Seq<char>,
    tint_at: Option<usize>,
    since_ms: Option<u64>,
    x: u16,
    y: u16,
    w: u16,
    theme: StatusTheme,
    p: Palette,
    now_ms: Option<u64>,
)
    requires
        x + w <= u16::MAX,
        w > status_cells(
            dash,
            if dash.state is Working && since_ms is Some {
                Some(figures::elapsed_text(since_ms->0, now_ms))
            } else {
                None
            },
        ),
    ensures
        ({
            let ringed = dash.subs_live && dash.state is Working;
            let look = theme.look(dash.state, dash.seen);
            let ring = Style::plain().fg(p.blue);
            let end = x + w;
            let row = DashRow::Title { text: content, tint_at, since_ms };
            let time = if dash.state is Working && since_ms is Some {
                Some(figures::elapsed_text(since_ms->0, now_ms))
            } else {
                None
            };
            let room = w - status_cells(dash, time) - 1;
            let title = boxes::line_picture(
                x,
                y,
                room as u16,
                boxes::line_pieces(
                    content,
                    tint_at,
                    true,
                    Style::plain().fg(p.text),
                    boxes::phase_tint(dash.state, dash.seen, &p),
                ),
            );
            let timed = match time {
                Some(time) => seq![
                    text_at(
                        end - status_cells(dash, Some(time)),
                        y as int,
                        time,
                        Style::plain().fg(p.subtext0),
                    ),
                ],
                None => Seq::empty(),
            };
            let dot = if ringed {
                seq![
                    text_at(end - 3, y as int, "("@, ring),
                    text_at(end - 2, y as int, look.icon@, look.style),
                    text_at(end - 1, y as int, ")"@, ring),
                ]
            } else {
                seq![text_at(end - 1, y as int, look.icon@, look.style)]
            };
            render::row_picture(dash, row, x, y, w, theme, p, now_ms) == title + timed + dot
        }),
{
    reveal(render::row_picture);
    reveal(render::title_picture);
    reveal(render::dot_picture);
    let row = DashRow::Title { text: content, tint_at, since_ms };
    let time = render::work_time(dash.state, since_ms, now_ms);
    let drawn = render::row_picture(dash, row, x, y, w, theme, p, now_ms);
    let title = boxes::line_picture(
        x,
        y,
        (w - status_cells(dash, time) - 1) as u16,
        boxes::line_pieces(
            content,
            tint_at,
            true,
            Style::plain().fg(p.text),
            boxes::phase_tint(dash.state, dash.seen, &p),
        ),
    );
    assert(drawn.take(title.len() as int) =~= title);
}

/// Counts and lanes are written from the first cell of their row on, cut to its
/// cells; the counts are dimmed.
pub proof fn law_counts_and_lanes_are_cut_to_their_row(
    dash: Dash,
    content: Seq<char>,
    x: u16,
    y: u16,
    w: u16,
    theme: StatusTheme,
    p: Palette,
    now_ms: Option<u64>,
)
    ensures
        render::row_picture(dash, DashRow::Counts(content), x, y, w, theme, p, now_ms) == seq![
            text_at(
                x as int,
                y as int,
                text::truncated(content, w as nat),
                Style { fg: Some(p.overlay1), bg: None, bold: None, dim: Some(true) },
            ),
        ],
        render::row_picture(dash, DashRow::Lane(content), x, y, w, theme, p, now_ms) == seq![
            text_at(
                x as int,
                y as int,
                text::truncated(content, w as nat),
                Style { fg: Some(p.overlay0), bg: None, bold: None, dim: None },
            ),
        ],
{
    reveal(render::row_picture);
}

proof fn lemma_pieces_fit(pieces: Seq<boxes::Piece>, i: int, x: int, end: int, y: u16)
    requires
        text::text_width(Seq::<char>::empty()) == 0,
        0 <= x,
        end <= u16::MAX,
    ensures
        ({
            let drawn = boxes::pieces_picture(pieces, i, x, end, y);
            &&& forall|k: int|
                0 <= k < drawn.len() ==> {
                    &&& (#[trigger] drawn[k]) is Text
                    &&& x <= drawn[k]->Text_x
                    &&& drawn[k]->Text_x + text::text_width(drawn[k]->Text_text) <= end
                }
            &&& drawn.len() > 0 ==> drawn[0]->Text_x == x
            &&& forall|k: int|
                0 < k < drawn.len() ==> (#[trigger] drawn[k])->Text_x == drawn[k - 1]->Text_x
                    + text::text_width(drawn[k - 1]->Text_text)
        }),
    decreases pieces.len() - i,
{
    if 0 <= i < pieces.len() && x < end {
        if pieces[i].0.len() == 0 {
            lemma_pieces_fit(pieces, i + 1, x, end, y);
        } else {
            let shown = text::truncated(pieces[i].0, (end - x) as nat);
            text::law_a_cut_text_keeps_what_fits(pieces[i].0, (end - x) as nat);
            if shown.len() == 0 {
                assert(shown =~= Seq::<char>::empty());
            }
            let next = x + text::text_width(shown);
            lemma_pieces_fit(pieces, i + 1, next, end, y);
            let drawn = boxes::pieces_picture(pieces, i, x, end, y);
            let rest = boxes::pieces_picture(pieces, i + 1, next, end, y);
            assert(drawn.len() == rest.len() + 1);
            assert forall|k: int| 0 < k < drawn.len() implies #[trigger] drawn[k] == rest[k
                - 1] by {}
            assert forall|k: int| 0 < k < drawn.len() implies (#[trigger] drawn[k])->Text_x
                == drawn[k - 1]->Text_x + text::text_width(drawn[k - 1]->Text_text) by {
                assert(drawn[k] == rest[k - 1]);
                if k > 1 {
                    assert(drawn[k - 1] == rest[k - 2]);
                }
            }
        }
    }
}

/// The pieces of a line stand directly behind each other from its first cell on,
/// inside of the cells of the line.
pub proof fn law_a_line_stays_in_its_cells(
    x: u16,
    y: u16,
    w: u16,
    pieces: Seq<boxes::Piece>,
    k: int,
)
    requires
        text::text_width(Seq::<char>::empty()) == 0,
        0 <= k < boxes::line_picture(x, y, w, pieces).len(),
    ensures
        ({
            let drawn = boxes::line_picture(x, y, w, pieces);
            &&& drawn[k] is Text && drawn[k]->Text_y == y
            &&& k == 0 ==> drawn[k]->Text_x == x
            &&& k > 0 ==> drawn[k]->Text_x == drawn[k - 1]->Text_x + text::text_width(
                drawn[k - 1]->Text_text,
            )
            &&& drawn[k]->Text_x + text::text_width(drawn[k]->Text_text) <= x + w
        }),
{
    reveal(boxes::line_picture);
    lemma_pieces_fit(pieces, 0, x as int, spaces::capped(x + w), y);
    lemma_pieces_are_text(pieces, 0, x as int, spaces::capped(x + w), y);
}

/// The first piece of a line that is not empty starts the line, and is shown in
/// full where it fits.
pub proof fn law_a_line_starts_with_its_first_piece(
    x: u16,
    y: u16,
    w: u16,
    pieces: Seq<boxes::Piece>,
)
    requires
        w > 0,
        x < u16::MAX,
        pieces.len() > 0,
        pieces[0].0.len() > 0,
        text::text_width(pieces[0].0) <= w,
        x + w <= u16::MAX,
    ensures
        boxes::line_picture(x, y, w, pieces).len() > 0,
        boxes::line_picture(x, y, w, pieces)[0] == text_at(
            x as int,
            y as int,
            pieces[0].0,
            pieces[0].1,
        ),
{
    reveal(boxes::line_picture);
}

/// The boxes of all tabs of a space stand out where the space is selected in
/// navigation, else where it is dragged or a tab of another space is dragged
/// onto it. Else only the box of the tab that the user is in does.
pub proof fn law_boxes_stand_out_by_what_the_user_does(
    app: AppState,
    i: int,
    t: int,
    navigating: bool,
)
    requires
        0 <= i < app.workspaces@.len(),
    ensures
        ({
            let fill = render::box_bg(render::look_of(app, i, navigating), t, app.palette);
            let moved = match app.drag {
                Some(drag) => match drag.target {
                    DragTarget::WorkspaceReorder { source_ws_idx, .. } => source_ws_idx == i,
                    DragTarget::SidebarTabMove { source_ws_idx, target_ws_idx, .. } =>
                        source_ws_idx != i && target_ws_idx == Some(i as usize),
                },
                None => false,
            };
            let inside = app.active == Some(i as usize) && app.workspaces@[i].active_tab == t;
            &&& navigating && app.selected == i ==> fill == Some(app.palette.surface0)
            &&& !(navigating && app.selected == i) && moved ==> fill == Some(app.palette.surface1)
            &&& !(navigating && app.selected == i) && !moved && inside ==> fill == Some(
                app.palette.surface_dim,
            )
            &&& !(navigating && app.selected == i) && !moved && !inside ==> fill is None
        }),
{
    assert(app.workspaces@.len() == app.workspaces.len());
}

/// The row with the name of a space says whether its group is open, where it
/// heads one, and then the name, cut to what is left of the row. The name stands
/// out where the space is selected in navigation, is the one that the user is
/// in, or is dragged.
pub proof fn law_the_name_of_a_space_is_shown_behind_its_arrow(
    app: AppState,
    names: Map<u64, String>,
    card: WorkspaceCardArea,
    navigating: bool,
)
    requires
        card.ws_idx < app.workspaces@.len(),
    ensures
        ({
            let i = card.ws_idx;
            let spans = render::name_spans(app, names, card, navigating);
            let group = spaces::headed_group(app, i as int);
            let arrow = !card.indented && group is Some;
            let named = render::card_label(app, names, card);
            let dragged = app.drag matches Some(drag) && drag.target matches
                DragTarget::WorkspaceReorder { source_ws_idx, .. } && source_ws_idx == i;
            let marked = (navigating && app.selected == i) || app.active == Some(i) || dragged;
            &&& arrow ==> {
                &&& spans.len() == 3
                &&& spans[0] == style::span(
                    if (group->0).1 {
                        seq!['▸']
                    } else {
                        seq!['▾']
                    },
                    Style::plain().fg(app.palette.accent),
                )
                &&& spans[1].content == seq![' ']
                &&& spans[2].content == text::truncated(
                    named,
                    geometry::max(card.rect.width - 3, 0) as nat,
                )
            }
            &&& !arrow ==> {
                &&& spans.len() == 2
                &&& spans[0].content == seq![' ']
                &&& spans[1].content == text::truncated(
                    named,
                    geometry::max(card.rect.width - 2, 0) as nat,
                )
            }
            &&& marked ==> spans.last().style == Style::plain().fg(app.palette.text).bold(true)
            &&& !marked ==> spans.last().style == Style::plain().fg(app.palette.subtext0)
        }),
{
    reveal_strlit("▸");
    reveal_strlit("▾");
    reveal_strlit(" ");
    assert("▸"@ =~= seq!['▸']);
    assert("▾"@ =~= seq!['▾']);
    assert(" "@ =~= seq![' ']);
}

/// The list is drawn below its header: the buttons where it has four rows, each
/// where the layout has placed it, and a line in the fifth row where it has
/// five. What is dragged leaves a line in the accent color on the row on which
/// it would land, over everything else.
#[verifier::spinoff_prover]
#[verifier::rlimit(30)]
pub proof fn law_the_list_is_headed_and_marked(
    app: AppState,
    names: Map<u64, String>,
    area: Rect,
    navigating: bool,
    now_ms: Option<u64>,
)
    requires
        area.fits(),
    ensures
        ({
            let all = render::list_picture(app, names, area, navigating, now_ms);
            let p = app.palette;
            let at = app.view.header_buttons;
            let plain = Style::plain().fg(p.text).bold(true);
            let menu = if app.menu_attention {
                Style::plain().fg(p.accent).bold(true)
            } else {
                plain
            };
            let row = |y: int| Rect { x: area.x, y: y as u16, width: area.width, height: 1 };
            &&& area.height >= 4 ==> {
                &&& shows(all, boxes::button_picture(at.minimize, "◧"@, plain, p))
                &&& shows(all, boxes::button_picture(at.new_tab, "new tab"@, plain, p))
                &&& shows(all, boxes::button_picture(at.new_space, "new space"@, plain, p))
                &&& shows(all, boxes::button_picture(at.menu, "menu"@, menu, p))
                &&& shows(all, boxes::button_picture(at.panel_toggle, "◨"@, plain, p))
            }
            &&& area.height >= 5 ==> shows(
                all,
                draw::filled(row(area.y + 4), "─"@, Style::plain().fg(p.text)),
            )
            &&& render::insertion_row(app, area) matches Some(y) ==> (0 <= y < area.end_y()
                ==> stands_between(
                all,
                all.take(all.len() - 2),
                draw::filled(row(y), "─"@, Style::plain().fg(p.accent)),
                Seq::empty(),
            ))
        }),
{
    let all = render::list_picture(app, names, area, navigating, now_ms);
    let p = app.palette;
    let at = app.view.header_buttons;
    let plain = Style::plain().fg(p.text).bold(true);
    let cards = app.view.workspace_card_areas@;
    let drawn = render::cards_picture(
        app,
        names,
        cards,
        area.end_y(),
        navigating,
        now_ms,
        cards.len(),
    );
    let b1 = boxes::button_picture(at.minimize, "◧"@, plain, p);
    let b2 = boxes::button_picture(at.new_tab, "new tab"@, plain, p);
    let b3 = boxes::button_picture(at.new_space, "new space"@, plain, p);
    let b4 = boxes::button_picture(at.menu, "menu"@, render::menu_style(app), p);
    let b5 = boxes::button_picture(at.panel_toggle, "◨"@, plain, p);
    let rule = render::rule_picture(area, area.y + 4, p.text);
    let head = if area.height >= 4 {
        render::header_picture(app)
    } else {
        Seq::empty()
    };
    let ruled = if area.height >= 5 {
        head + rule
    } else {
        head
    };
    let end = match render::insertion_row(app, area) {
        Some(y) => if y < area.end_y() {
            render::rule_picture(area, y, p.accent)
        } else {
            Seq::empty()
        },
        None => Seq::empty(),
    };
    assert(all =~= ruled + drawn + end);
    assert forall|part: Seq<DrawOpView>| #[trigger] shows(ruled, part) implies shows(all, part) by {
        lemma_shows(ruled, drawn, part);
        lemma_shows(ruled + drawn, end, part);
    }
    assert forall|part: Seq<DrawOpView>| #[trigger] shows(head, part) implies shows(
        ruled,
        part,
    ) by {
        lemma_shows(head, rule, part);
    }
    lemma_shows(head, rule, rule);
    if area.height >= 4 {
        lemma_shows(b1, b2, b1);
        lemma_shows(b1 + b2, b3, b1);
        lemma_shows(b1 + b2 + b3, b4, b1);
        lemma_shows(b1 + b2 + b3 + b4, b5, b1);
        assert(shows(head, b1));
        lemma_shows(b1, b2, b2);
        lemma_shows(b1 + b2, b3, b2);
        lemma_shows(b1 + b2 + b3, b4, b2);
        lemma_shows(b1 + b2 + b3 + b4, b5, b2);
        assert(shows(head, b2));
        lemma_shows(b1 + b2, b3, b3);
        lemma_shows(b1 + b2 + b3, b4, b3);
        lemma_shows(b1 + b2 + b3 + b4, b5, b3);
        assert(shows(head, b3));
        lemma_shows(b1 + b2 + b3, b4, b4);
        lemma_shows(b1 + b2 + b3 + b4, b5, b4);
        assert(shows(head, b4));
        lemma_shows(b1 + b2 + b3 + b4, b5, b5);
        assert(shows(head, b5));
    }
    if end.len() > 0 {
        assert(all =~= all.take(all.len() - 2) + end + Seq::<DrawOpView>::empty());
    }
}

/// What is dragged would land where the drag is: a space on the row that the
/// list has for it, a tab on the row that the space that it is dragged to has
/// for it, and nothing lands where no place is meant.
pub proof fn law_only_what_is_dragged_to_a_place_lands(app: AppState, area: Rect)
    ensures
        app.drag is None ==> render::insertion_row(app, area) is None,
        app.drag matches Some(drag) ==> {
            &&& drag.target matches DragTarget::WorkspaceReorder { insert_idx: None, .. }
                ==> render::insertion_row(app, area) is None
            &&& drag.target matches DragTarget::WorkspaceReorder { insert_idx: Some(at), .. }
                ==> render::insertion_row(app, area) == layout::space_drop_row(
                app.view.workspace_card_areas@,
                area,
                at,
            )
            &&& drag.target matches DragTarget::SidebarTabMove { target_ws_idx: None, .. }
                ==> render::insertion_row(app, area) is None
            &&& drag.target matches DragTarget::SidebarTabMove {
                target_ws_idx: Some(target),
                insert_idx,
                ..
            } ==> render::insertion_row(app, area) == layout::tab_drop_row(
                app.view.sidebar_tab_rows@,
                target,
                insert_idx,
            )
        },
{
}

/// The open sidebar has a line along its right edge over its whole height, its
/// list left of it, and its toggle in the last row next to the edge.
#[verifier::spinoff_prover]
#[verifier::rlimit(30)]
pub proof fn law_the_open_sidebar_is_edged(
    app: AppState,
    names: Map<u64, String>,
    area: Rect,
    now_ms: Option<u64>,
)
    requires
        area.fits(),
        area.width >= 2,
        area.height >= 1,
    ensures
        ({
            let all = render::sidebar_picture(app, names, area, now_ms);
            let column = Rect {
                x: (area.end_x() - 1) as u16,
                y: area.y,
                width: 1,
                height: area.height,
            };
            let list = Rect {
                x: area.x,
                y: area.y,
                width: (area.width - 1) as u16,
                height: area.height,
            };
            let toggle = DrawOpView::Lines {
                area: Rect {
                    x: (area.end_x() - 2) as u16,
                    y: (area.end_y() - 1) as u16,
                    width: 1,
                    height: 1,
                },
                lines: seq![
                    seq![style::span(seq!['«'], Style::plain().fg(app.palette.overlay0))],
                ],
                scroll: 0,
                centered: false,
            };
            all == draw::filled(column, seq!['│'], Style::plain().fg(app.palette.text))
                + render::list_picture(app, names, list, app.mode is Navigate, now_ms)
                + seq![toggle]
        }),
{
    reveal_strlit("«");
    reveal_strlit("│");
    assert("«"@ =~= seq!['«']);
    assert("│"@ =~= seq!['│']);
}

proof fn lemma_dot_box_shown(app: AppState, rows: Seq<SidebarTabRow>, n: nat, r: int)
    requires
        0 <= r < n <= rows.len(),
    ensures
        shows(render::dot_boxes_picture(app, rows, n), render::dot_box_picture(app, rows[r])),
    decreases n,
{
    let before = render::dot_boxes_picture(app, rows, (n - 1) as nat);
    if r < n - 1 {
        lemma_dot_box_shown(app, rows, (n - 1) as nat, r);
    }
    lemma_shows(before, render::dot_box_picture(app, rows[n - 1]), render::dot_box_picture(app, rows[r]));
}

/// The minimized sidebar draws the box of each tab in its place, with the dot of
/// the tab in the middle of it, in a ring where subagents are at work. The boxes
/// of the space that is selected in navigation stand out, and else that of the
/// tab that the user is in.
#[verifier::spinoff_prover]
#[verifier::rlimit(30)]
pub proof fn law_the_minimized_sidebar_draws_the_boxes_of_its_tabs(
    app: AppState,
    area: Rect,
    r: int,
)
    requires
        area.fits(),
        0 <= r < layout::collapsed_boxes(app, area).len(),
        layout::collapsed_boxes(app, area)[r].rect.height > 0,
        render::tab_of(app, layout::collapsed_boxes(app, area)[r]) is Some,
    ensures
        ({
            let row = layout::collapsed_boxes(app, area)[r];
            let (i, t) = (row.ws_idx as int, row.tab_idx as int);
            let ws = app.workspaces@[i];
            let tab = ws.tabs@[t];
            let mark = attention::tab_mark(app.terminals@, tab);
            let look = app.status_theme.look(mark.0, mark.1);
            let ring = Style::plain().fg(app.palette.blue);
            let (x, y) = (row.rect.x + 3, row.rect.y + 1);
            let selected = app.mode is Navigate && app.selected == i;
            let inside = app.active == Some(row.ws_idx) && ws.active_tab == row.tab_idx;
            let fill = if selected {
                Some(app.palette.surface0)
            } else if inside {
                Some(app.palette.surface_dim)
            } else {
                None
            };
            let dot = if dash::has_live_subs(tab.metadata_tokens) && mark.0 is Working {
                seq![
                    text_at(x - 1, y, "("@, ring),
                    text_at(x, y, look.icon@, look.style),
                    text_at(x + 1, y, ")"@, ring),
                ]
            } else {
                seq![text_at(x, y, look.icon@, look.style)]
            };
            shows(
                render::collapsed_picture(app, area),
                render::box_picture(
                    row.rect,
                    fill,
                    boxes::rail_color(ws, app.palette),
                    app.palette,
                ) + dot,
            )
        }),
{
    reveal(render::dot_box_picture);
    reveal(render::dot_picture);
    let p = app.palette;
    let rows = layout::collapsed_boxes(app, area);
    layout::law_boxes_follow_each_other_in_the_column(app, area);
    layout::law_minimized_boxes_are_three_rows_high(app, area, r);
    assert(rows[r].rect.inside(spaces::list_rect(area)));
    let part = render::dot_box_picture(app, rows[r]);
    lemma_dot_box_shown(app, rows, rows.len(), r);
    let drawn = render::dot_boxes_picture(app, rows, rows.len());
    let button = layout::minimize_button(area);
    let front = render::edge_picture(area, p) + (if button == geometry::no_rect() {
        Seq::empty()
    } else {
        boxes::button_picture(button, "◧"@, Style::plain().fg(p.text).bold(true), p)
    }) + (if area.height >= spaces::WORKSPACE_SECTION_HEADER_ROWS && geometry::less(
        area.width as int,
        1,
    ) > 0 {
        render::rule_picture(
            spaces::list_rect(area),
            area.y + spaces::WORKSPACE_SECTION_HEADER_ROWS - 1,
            p.text,
        )
    } else {
        Seq::empty()
    });
    lemma_shows(front, drawn, part);
    lemma_shows(front + drawn, render::toggle_picture(app, area, true), part);
}

/// The minimized sidebar has its line along the right edge, the button that
/// restores it one cell in from its corner, and the toggle in the middle of its
/// last row, which calls for attention where the menu does.
#[verifier::spinoff_prover]
#[verifier::rlimit(30)]
pub proof fn law_the_minimized_sidebar_is_edged(app: AppState, area: Rect)
    requires
        area.fits(),
        area.width >= 7,
        area.height >= 4,
    ensures
        ({
            let all = render::collapsed_picture(app, area);
            let p = app.palette;
            let column = Rect {
                x: (area.end_x() - 1) as u16,
                y: area.y,
                width: 1,
                height: area.height,
            };
            let button = Rect {
                x: (area.x + 1) as u16,
                y: (area.y + 1) as u16,
                width: 5,
                height: 3,
            };
            let toggle = DrawOpView::Lines {
                area: Rect {
                    x: (area.x + (area.width - 1) / 2) as u16,
                    y: (area.end_y() - 1) as u16,
                    width: 1,
                    height: 1,
                },
                lines: seq![
                    seq![
                        style::span(
                            seq!['»'],
                            if app.menu_attention {
                                Style::plain().fg(p.accent).bold(true)
                            } else {
                                Style::plain().fg(p.overlay0)
                            },
                        ),
                    ],
                ],
                scroll: 0,
                centered: false,
            };
            let edge = draw::filled(column, seq!['│'], Style::plain().fg(p.text));
            &&& all.take(2) == edge
            &&& shows(
                all,
                boxes::button_picture(button, "◧"@, Style::plain().fg(p.text).bold(true), p),
            )
            &&& all.last() == toggle
        }),
{
    reveal_strlit("»");
    reveal_strlit("│");
    assert("»"@ =~= seq!['»']);
    assert("│"@ =~= seq!['│']);
    let p = app.palette;
    let all = render::collapsed_picture(app, area);
    let rows = layout::collapsed_boxes(app, area);
    let edge = render::edge_picture(area, p);
    let button = boxes::button_picture(
        layout::minimize_button(area),
        "◧"@,
        Style::plain().fg(p.text).bold(true),
        p,
    );
    let rule = if area.height >= 5 {
        render::rule_picture(spaces::list_rect(area), area.y + 4, p.text)
    } else {
        Seq::empty()
    };
    let drawn = render::dot_boxes_picture(app, rows, rows.len());
    let toggle = render::toggle_picture(app, area, true);
    assert(all == edge + button + rule + drawn + toggle);
    assert(all.take(2) =~= edge);
    lemma_shows(edge, button, button);
    lemma_shows(edge + button, rule, button);
    lemma_shows(edge + button + rule, drawn, button);
    lemma_shows(edge + button + rule + drawn, toggle, button);
    assert(toggle.len() == 1);
    assert(all.last() == toggle[0]);
}

proof fn lemma_box_starts(rect: Rect, bg: Option<Color>, rail: Color, p: Palette)
    ensures
        render::box_picture(rect, bg, rail, p).len() > 0,
        !(render::box_picture(rect, bg, rail, p)[0] is Lines),
{
    reveal(render::box_picture);
    reveal(boxes::frame_picture);
}

proof fn lemma_boxes_start(
    dashes: Seq<Dash>,
    x: u16,
    width: u16,
    y: int,
    bottom: int,
    look: SpaceLook,
    theme: StatusTheme,
    p: Palette,
    now_ms: Option<u64>,
)
    ensures
        ({
            let drawn = render::boxes_picture(
                dashes,
                0,
                x,
                width,
                y,
                bottom,
                look,
                theme,
                p,
                now_ms,
            );
            drawn.len() > 0 ==> !(drawn[0] is Lines)
        }),
{
    let height = geometry::min(dashes[0].rows.len() as int + 2, bottom - y);
    lemma_box_starts(
        geometry::rect(x as int, y, width as int, height),
        render::box_bg(look, dashes[0].tab_idx, p),
        look.rail,
        p,
    );
}

/// The step that shows the name of a space in the first row of `card`.
pub open spec fn name_row(
    app: AppState,
    names: Map<u64, String>,
    card: WorkspaceCardArea,
    navigating: bool,
) -> DrawOpView {
    DrawOpView::Lines {
        area: Rect { x: card.rect.x, y: card.rect.y, width: card.rect.width, height: 1 },
        lines: seq![render::name_spans(app, names, card, navigating)],
        scroll: 0,
        centered: false,
    }
}

#[verifier::spinoff_prover]
#[verifier::rlimit(30)]
proof fn lemma_card_name(
    app: AppState,
    names: Map<u64, String>,
    card: WorkspaceCardArea,
    list_bottom: int,
    navigating: bool,
    now_ms: Option<u64>,
)
    requires
        card.rect.height > 0,
        card.rect.fits(),
        card.rect.end_y() <= list_bottom,
    ensures
        ({
            let grouped = card.indented || spaces::headed_group(app, card.ws_idx as int) is Some;
            let drawn = render::card_picture(app, names, card, list_bottom, navigating, now_ms);
            &&& grouped ==> drawn.len() > 0 && drawn[0] == name_row(app, names, card, navigating)
            &&& grouped && !is_unfolded(app, card) ==> drawn.len() == 1
            &&& !grouped && drawn.len() > 0 ==> !(drawn[0] is Lines)
        }),
{
    reveal(render::card_picture);
    let i = card.ws_idx as int;
    let grouped = card.indented || spaces::headed_group(app, i) is Some;
    if !grouped {
        let boxed = render::boxes_picture(
            dash::dashes_of(app.terminals@, app.workspaces@[i], card.rect.width as int),
            0,
            card.rect.x,
            card.rect.width,
            card.rect.y as int,
            card.rect.end_y(),
            render::look_of(app, i, navigating),
            app.status_theme,
            app.palette,
            now_ms,
        );
        lemma_boxes_start(
            dash::dashes_of(app.terminals@, app.workspaces@[i], card.rect.width as int),
            card.rect.x,
            card.rect.width,
            card.rect.y as int,
            card.rect.end_y(),
            render::look_of(app, i, navigating),
            app.status_theme,
            app.palette,
            now_ms,
        );
        let drawn = render::card_picture(app, names, card, list_bottom, navigating, now_ms);
        assert(drawn =~= boxed);
    }
}

/// A space shows its name in the first row of its card where it is below its
/// parent or heads a group, and nowhere else; one that heads a collapsed group
/// shows nothing but its name.
#[verifier::spinoff_prover]
#[verifier::rlimit(30)]
pub proof fn law_grouped_spaces_show_their_name(
    app: AppState,
    names: Map<u64, String>,
    area: Rect,
    navigating: bool,
    now_ms: Option<u64>,
    k: int,
)
    requires
        app.view.workspace_card_areas@ == spaces::space_cards(app, area),
        0 <= k < spaces::space_cards(app, area).len(),
        spaces::space_cards(app, area)[k].rect.height > 0,
    ensures
        ({
            let card = spaces::space_cards(app, area)[k];
            let grouped = card.indented || spaces::headed_group(app, card.ws_idx as int) is Some;
            let drawn = render::card_picture(
                app,
                names,
                card,
                spaces::list_rect(area).end_y(),
                navigating,
                now_ms,
            );
            let all = render::list_picture(
                app,
                names,
                spaces::list_rect(area),
                navigating,
                now_ms,
            );
            &&& shows(all, drawn)
            &&& grouped ==> drawn.len() > 0 && drawn[0] == name_row(app, names, card, navigating)
            &&& grouped && !is_unfolded(app, card) ==> drawn.len() == 1
            &&& !grouped && drawn.len() > 0 ==> !(drawn[0] is Lines)
        }),
{
    let cards = spaces::space_cards(app, area);
    let card = cards[k];
    let column = spaces::list_rect(area);
    spaces::law_cards_follow_each_other_in_the_body(app, area);
    assert(card.rect.inside(spaces::body_rect(column, false)));
    let drawn = render::card_picture(app, names, card, column.end_y(), navigating, now_ms);
    lemma_card_name(app, names, card, column.end_y(), navigating, now_ms);
    lemma_shows(drawn, drawn, drawn);
    lemma_card_shown(
        app,
        names,
        cards,
        column.end_y(),
        navigating,
        now_ms,
        cards.len(),
        k,
        drawn,
    );
    lemma_list_shows(app, names, column, navigating, now_ms, drawn);
}

/// The minimized sidebar has the line of the list's header where the list has
/// it: in its fifth row, left of the edge.
#[verifier::spinoff_prover]
#[verifier::rlimit(30)]
pub proof fn law_the_minimized_sidebar_keeps_the_line_of_its_header(app: AppState, area: Rect)
    requires
        area.fits(),
        area.width >= 2,
        area.height >= 5,
    ensures
        shows(
            render::collapsed_picture(app, area),
            draw::filled(
                Rect {
                    x: area.x,
                    y: (area.y + 4) as u16,
                    width: (area.width - 1) as u16,
                    height: 1,
                },
                "─"@,
                Style::plain().fg(app.palette.text),
            ),
        ),
{
    let p = app.palette;
    let rows = layout::collapsed_boxes(app, area);
    let button = layout::minimize_button(area);
    let front = render::edge_picture(area, p) + (if button == geometry::no_rect() {
        Seq::empty()
    } else {
        boxes::button_picture(button, "◧"@, Style::plain().fg(p.text).bold(true), p)
    });
    let rule = render::rule_picture(spaces::list_rect(area), area.y + 4, p.text);
    let drawn = render::dot_boxes_picture(app, rows, rows.len());
    lemma_shows(front, rule, rule);
    lemma_shows(front + rule, drawn, rule);
    lemma_shows(front + rule + drawn, render::toggle_picture(app, area, true), rule);
}

/// A space is called by its name on its card; one below its parent is called
/// by its branch where it has no name of its own.
pub proof fn law_cards_are_labelled_by_their_space(
    app: AppState,
    names: Map<u64, String>,
    card: WorkspaceCardArea,
)
    ensures
        ({
            let ws = app.workspaces@[card.ws_idx as int];
            let named = workspace::display_name(ws, names);
            let label = render::card_label(app, names, card);
            &&& !card.indented || ws.custom_name is Some || ws.cached_git_branch is None ==> label
                == named
            &&& card.indented && ws.custom_name is None ==> (ws.cached_git_branch matches Some(
                branch,
            ) ==> label == branch@ || "worktree/"@ + label == branch@)
        }),
{
    let ws = app.workspaces@[card.ws_idx as int];
    spaces::law_children_are_called_by_their_branch(
        workspace::display_name(ws, names),
        views::text(ws.cached_git_branch),
        ws.custom_name is Some,
    );
}

/// The further rows of a title have all cells of their row. Nothing in them
/// stands out as a handle, and the phase is tinted there as in the first row.
pub proof fn law_titles_go_on_over_the_whole_row(
    dash: Dash,
    content: Seq<char>,
    tint_at: Option<usize>,
    x: u16,
    y: u16,
    w: u16,
    theme: StatusTheme,
    p: Palette,
    now_ms: Option<u64>,
)
    ensures
        ({
            let row = DashRow::TitleCont { text: content, tint_at };
            let (pre, tinted) = boxes::cut_at(content, tint_at);
            let plain = (pre, Style { fg: Some(p.text), bg: None, bold: None, dim: None });
            let tint = (tinted, boxes::phase_tint(dash.state, dash.seen, &p));
            render::row_picture(dash, row, x, y, w, theme, p, now_ms) == boxes::line_picture(
                x,
                y,
                w,
                if tinted.len() > 0 {
                    seq![plain, tint]
                } else {
                    seq![plain]
                },
            )
        }),
{
    reveal(render::row_picture);
    let (pre, tinted) = boxes::cut_at(content, tint_at);
    let base = Style::plain().fg(p.text);
    let tint = boxes::phase_tint(dash.state, dash.seen, &p);
    let pieces = boxes::line_pieces(content, tint_at, false, base, tint);
    assert(boxes::handle_pieces(pre, false, base) =~= seq![(pre, base)]);
    if tinted.len() > 0 {
        assert(pieces =~= seq![(pre, base), (tinted, tint)]);
    }
}

} // verus!
