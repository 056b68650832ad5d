//! The parts of the sidebar besides the list: sections, buttons, the boxes of
//! the minimized sidebar, and where a dragged item would land.

use vstd::prelude::*;

use crate::app::state::{AppState, SidebarTabRow, WorkspaceCardArea};
use crate::geometry;
use crate::geometry::Rect;
use crate::seqs;
use crate::ui::sidebar::entries;
use crate::ui::sidebar::entries::{workspace_list_entries, WorkspaceListEntry};
use crate::ui::sidebar::spaces;
use crate::ui::sidebar::spaces::{
    workspace_entry_gap, workspace_list_rect, COLLAPSED_BOX_ROWS, WORKSPACE_SECTION_HEADER_ROWS,
};

verus! {

/// The rows of the upper and the lower section of a sidebar of `total` rows,
/// where `split` rows are asked for the upper one. Each section keeps at least
/// three rows; a sidebar too low for that is cut in half.
pub open spec fn section_heights(total: int, split: int) -> (int, int) {
    let upper = if total < 6 {
        (total + 1) / 2
    } else {
        geometry::min(geometry::max(split, 3), total - 3)
    };
    (upper, total - upper)
}

/// The rows of the upper and the lower section of a sidebar of `total_h` rows,
/// where `split_rows` rows are asked for the upper one.
pub fn sidebar_section_heights(total_h: u16, split_rows: u16) -> (out: (u16, u16))
    ensures
        (out.0 as int, out.1 as int) == section_heights(total_h as int, split_rows as int),
{
    if total_h == 0 {
        return (0, 0);
    }
    if total_h < 6 {
        let ws_h: u16 = (total_h + 1) / 2;
        return (ws_h, total_h - ws_h);
    }
    let most: u16 = total_h - 3;
    let ws_h: u16 = if split_rows < 3 {
        3
    } else if split_rows > most {
        most
    } else {
        split_rows
    };
    (ws_h, total_h - ws_h)
}

/// The upper and the lower section of the sidebar `area`.
pub open spec fn sections(area: Rect, split: int) -> (Rect, Rect) {
    let content = spaces::list_rect(area);
    if content.width == 0 || content.height == 0 {
        (geometry::no_rect(), geometry::no_rect())
    } else {
        let (upper, lower) = section_heights(content.height as int, split);
        (
            geometry::rect(content.x as int, content.y as int, content.width as int, upper),
            geometry::rect(content.x as int, content.y + upper, content.width as int, lower),
        )
    }
}

/// The upper and the lower section of the sidebar `area`, where `split_rows`
/// rows are asked for the upper one.
pub fn expanded_sidebar_sections(area: Rect, split_rows: u16) -> (out: (Rect, Rect))
    ensures
        out == sections(area, split_rows as int),
{
    let content: Rect = workspace_list_rect(area);
    if content.width == 0 || content.height == 0 {
        let nowhere: Rect = Rect { x: 0, y: 0, width: 0, height: 0 };
        return (nowhere, nowhere);
    }
    let (ws_h, detail_h): (u16, u16) = sidebar_section_heights(content.height, split_rows);
    (
        Rect::new(content.x, content.y, content.width, ws_h),
        Rect::new(content.x, content.y + ws_h, content.width, detail_h),
    )
}

/// The line between the sections of the sidebar `area`; none in a low one.
pub open spec fn divider(area: Rect, split: int) -> Rect {
    let content = spaces::list_rect(area);
    if content.width == 0 || content.height < 6 {
        geometry::no_rect()
    } else {
        geometry::rect(
            content.x as int,
            content.y + section_heights(content.height as int, split).0,
            content.width as int,
            1,
        )
    }
}

/// The line between the sections of the sidebar `area`; none in a low one.
pub fn sidebar_section_divider_rect(area: Rect, split_rows: u16) -> (out: Rect)
    ensures
        out == divider(area, split_rows as int),
        out == ({
            let content = spaces::list_rect(area);
            if content.width == 0 || content.height < 6 {
                geometry::no_rect()
            } else {
                let upper = section_heights(content.height as int, split_rows as int).0;
                geometry::rect(content.x as int, content.y + upper, content.width as int, 1)
            }
        }),
{
    let content: Rect = workspace_list_rect(area);
    if content.width == 0 || content.height < 6 {
        return Rect { x: 0, y: 0, width: 0, height: 0 };
    }
    let (ws_h, _detail_h): (u16, u16) = sidebar_section_heights(content.height, split_rows);
    Rect::new(content.x, content.y + ws_h, content.width, 1)
}

/// The sections share the column of the sidebar without a gap or an overlap,
/// whatever split is asked for, and neither of them vanishes where there are
/// two rows.
pub proof fn law_sections_share_the_column(area: Rect, split: int)
    ensures
        ({
            let content = spaces::list_rect(area);
            let (upper, lower) = sections(area, split);
            content.width > 0 && content.height > 0 ==> {
                &&& upper.inside(content) && lower.inside(content)
                &&& upper.y == content.y && lower.y == upper.end_y()
                &&& lower.end_y() == content.end_y()
                &&& upper.width == content.width && lower.width == content.width
                &&& content.height >= 2 ==> upper.height > 0 && lower.height > 0
                &&& content.height >= 6 ==> upper.height >= 3 && lower.height >= 3
            }
        }),
{
}

/// Where the button that restores the minimized sidebar is drawn.
pub open spec fn minimize_button(area: Rect) -> Rect {
    if geometry::less(area.width as int, 1) < 6 || area.height < 4 {
        geometry::no_rect()
    } else {
        geometry::rect(area.x + 1, area.y + 1, 5, 3)
    }
}

/// Where the button that restores the minimized sidebar is drawn: one cell in,
/// in line with the boxes below it.
pub fn collapsed_minimize_button_rect(area: Rect) -> (out: Rect)
    requires
        area.width < 7 || area.height < 4 || (area.x < u16::MAX && area.y < u16::MAX),
    ensures
        out == minimize_button(area),
        out.fits(),
{
    let content_w: u16 = area.width.saturating_sub(1);
    if content_w < 6 || area.height < 4 {
        return Rect { x: 0, y: 0, width: 0, height: 0 };
    }
    Rect::new(area.x + 1, area.y + 1, 5, 3)
}

/// The boxes of the tabs of space `ws_idx` from the `t`-th on, from row `y` on.
pub open spec fn boxes_of_space(
    ws_idx: usize,
    tabs: int,
    area: Rect,
    t: int,
    y: int,
) -> Seq<SidebarTabRow>
    decreases tabs - t,
{
    if t >= tabs || spaces::capped(y + COLLAPSED_BOX_ROWS) > area.end_y() {
        Seq::empty()
    } else {
        seq![
            SidebarTabRow {
                ws_idx,
                tab_idx: t as usize,
                rect: geometry::rect(
                    area.x as int,
                    y,
                    area.width - 1,
                    COLLAPSED_BOX_ROWS as int,
                ),
            },
        ] + boxes_of_space(ws_idx, tabs, area, t + 1, spaces::capped(y + COLLAPSED_BOX_ROWS))
    }
}

/// The boxes of the entries from the `idx`-th on, from row `y` on.
pub open spec fn boxes_from(
    app: AppState,
    list: Seq<WorkspaceListEntry>,
    area: Rect,
    idx: int,
    y: int,
) -> Seq<SidebarTabRow>
    decreases list.len() - idx,
{
    if idx < 0 || idx >= list.len() {
        Seq::empty()
    } else {
        let tabs = app.workspaces@[list[idx].idx()].tabs@.len() as int;
        let mine = boxes_of_space(list[idx]->ws_idx, tabs, area, 0, y);
        if mine.len() < tabs {
            mine
        } else {
            mine + boxes_from(
                app,
                list,
                area,
                idx + 1,
                geometry::min(
                    spaces::capped(
                        spaces::capped(y + COLLAPSED_BOX_ROWS * tabs) + spaces::gap_behind(
                            app,
                            list,
                            idx,
                            list[idx]->indented,
                        ),
                    ),
                    area.end_y(),
                ),
            )
        }
    }
}

/// The boxes of the minimized sidebar.
pub open spec fn collapsed_boxes(app: AppState, area: Rect) -> Seq<SidebarTabRow> {
    if geometry::less(area.width as int, 1) < 6 || area.height <= WORKSPACE_SECTION_HEADER_ROWS {
        Seq::empty()
    } else {
        boxes_from(
            app,
            entries::workspace_entries(app, false),
            area,
            0,
            area.y + WORKSPACE_SECTION_HEADER_ROWS,
        )
    }
}

/// The boxes of the minimized sidebar: one for each tab, touching within a
/// space, with the usual gap between spaces.
pub fn collapsed_tab_boxes(app: &AppState, area: Rect) -> (out: Vec<SidebarTabRow>)
    requires
        area.width < 7 || area.height <= WORKSPACE_SECTION_HEADER_ROWS || area.end_y() <= u16::MAX,
    ensures
        out@ == collapsed_boxes(*app, area),
        forall|k: int| 0 <= k < out@.len() ==> (#[trigger] out@[k]).rect.fits(),
{
    let content_w: u16 = area.width.saturating_sub(1);
    let mut boxes: Vec<SidebarTabRow> = Vec::new();
    if content_w < 6 || area.height <= WORKSPACE_SECTION_HEADER_ROWS {
        return boxes;
    }
    let mut y: u16 = area.y + WORKSPACE_SECTION_HEADER_ROWS;
    let bottom: u16 = area.y + area.height;
    let list: Vec<WorkspaceListEntry> = workspace_list_entries(app);
    proof {
        entries::law_no_space_is_listed_twice(*app, false);
    }
    let ghost all = collapsed_boxes(*app, area);
    let mut idx: usize = 0;
    assert(all =~= boxes@ + boxes_from(*app, list@, area, 0, y as int));
    while idx < list.len()
        invariant
            idx <= list@.len(),
            list@ == entries::workspace_entries(*app, false),
            forall|a: int|
                0 <= a < entries::workspace_entries(*app, false).len() ==> 0 <= (
                #[trigger] entries::workspace_entries(*app, false)[a]).idx()
                    < app.workspaces@.len(),
            area.width >= 7,
            content_w == area.width - 1,
            bottom == area.end_y(),
            y <= bottom,
            all == collapsed_boxes(*app, area),
            all == boxes@ + boxes_from(*app, list@, area, idx as int, y as int),
            forall|k: int| 0 <= k < boxes@.len() ==> (#[trigger] boxes@[k]).rect.fits(),
        decreases list@.len() - idx,
    {
        let WorkspaceListEntry::Workspace { ws_idx, indented } = list[idx];
        assert(list@[idx as int].idx() == ws_idx);
        let tabs: usize = app.workspaces[ws_idx].tabs.len();
        let ghost start = boxes@;
        let ghost y0 = y as int;
        let ghost mine = boxes_of_space(ws_idx, tabs as int, area, 0, y0);
        let mut t: usize = 0;
        assert(mine =~= Seq::<SidebarTabRow>::empty() + mine);
        assert(start + mine =~= boxes@ + boxes_of_space(ws_idx, tabs as int, area, 0, y as int));
        while t < tabs
            invariant
                t <= tabs,
                tabs == app.workspaces@[list@[idx as int].idx()].tabs@.len(),
                idx < list@.len(),
                ws_idx == list@[idx as int]->ws_idx,
                area.width >= 7,
                content_w == area.width - 1,
                bottom == area.end_y(),
                y <= bottom,
                y == spaces::capped(y0 + COLLAPSED_BOX_ROWS * t),
                mine == boxes_of_space(ws_idx, tabs as int, area, 0, y0),
                start + mine == boxes@ + boxes_of_space(
                    ws_idx,
                    tabs as int,
                    area,
                    t as int,
                    y as int,
                ),
                boxes@.len() == start.len() + t,
                all == collapsed_boxes(*app, area),
                all == start + boxes_from(*app, list@, area, idx as int, y0),
                forall|k: int| 0 <= k < boxes@.len() ==> (#[trigger] boxes@[k]).rect.fits(),
            decreases tabs - t,
        {
            if y.saturating_add(COLLAPSED_BOX_ROWS) > bottom {
                proof {
                    assert(boxes_of_space(ws_idx, tabs as int, area, t as int, y as int) =~= Seq::<
                        SidebarTabRow,
                    >::empty());
                    assert(start + mine =~= boxes@);
                    assert(mine.len() == t);
                    assert(boxes_from(*app, list@, area, idx as int, y0) == mine);
                }
                return boxes;
            }
            boxes.push(
                SidebarTabRow {
                    ws_idx,
                    tab_idx: t,
                    rect: Rect::new(area.x, y, content_w, COLLAPSED_BOX_ROWS),
                },
            );
            let below: u16 = y.saturating_add(COLLAPSED_BOX_ROWS);
            assert(start + mine =~= boxes@ + boxes_of_space(
                ws_idx,
                tabs as int,
                area,
                t + 1,
                below as int,
            ));
            y = below;
            t = t + 1;
        }
        let below: u16 = y.saturating_add(workspace_entry_gap(app, &list, idx, indented));
        proof {
            assert(start + mine =~= boxes@);
            assert(mine.len() == tabs);
            let next = geometry::min(below as int, bottom as int);
            assert(boxes_from(*app, list@, area, idx as int, y0) == mine + boxes_from(
                *app,
                list@,
                area,
                idx + 1,
                next,
            ));
            assert(all =~= boxes@ + boxes_from(*app, list@, area, idx + 1, next));
        }
        y = if below < bottom {
            below
        } else {
            bottom
        };
        idx = idx + 1;
    }
    assert(all =~= boxes@);
    boxes
}

/// The boxes lie in the column of the minimized sidebar, below its header, one
/// below the other.
pub proof fn law_boxes_follow_each_other_in_the_column(app: AppState, area: Rect)
    requires
        area.fits(),
    ensures
        ({
            let boxes = collapsed_boxes(app, area);
            &&& forall|k: int|
                0 <= k < boxes.len() ==> {
                    &&& (#[trigger] boxes[k]).rect.inside(spaces::list_rect(area))
                    &&& boxes[k].rect.y >= area.y + WORKSPACE_SECTION_HEADER_ROWS
                }
            &&& forall|j: int, k: int|
                0 <= j < k < boxes.len() ==> (#[trigger] boxes[j]).rect.end_y() <= (
                #[trigger] boxes[k]).rect.y
        }),
{
    if area.width >= 7 && area.height > WORKSPACE_SECTION_HEADER_ROWS {
        lemma_boxes_from(
            app,
            entries::workspace_entries(app, false),
            area,
            0,
            area.y + WORKSPACE_SECTION_HEADER_ROWS,
        );
    }
}

/// `boxes` lie in `area` between the rows `from` and `to`, one below the other.
pub open spec fn stacked(boxes: Seq<SidebarTabRow>, area: Rect, from: int, to: int) -> bool {
    &&& forall|k: int|
        0 <= k < boxes.len() ==> {
            &&& (#[trigger] boxes[k]).rect.inside(spaces::list_rect(area))
            &&& from <= boxes[k].rect.y && boxes[k].rect.end_y() <= to
        }
    &&& forall|j: int, k: int|
        0 <= j < k < boxes.len() ==> (#[trigger] boxes[j]).rect.end_y() <= (
        #[trigger] boxes[k]).rect.y
}

proof fn lemma_boxes_of_space(ws_idx: usize, tabs: int, area: Rect, t: int, y: int)
    requires
        area.fits(),
        area.width >= 7,
        area.y <= y <= area.end_y(),
        0 <= t <= tabs,
    ensures
        ({
            let boxes = boxes_of_space(ws_idx, tabs, area, t, y);
            &&& boxes.len() <= tabs - t
            &&& stacked(boxes, area, y, spaces::capped(y + COLLAPSED_BOX_ROWS * boxes.len()))
            &&& spaces::capped(y + COLLAPSED_BOX_ROWS * boxes.len()) <= area.end_y()
        }),
    decreases tabs - t,
{
    let boxes = boxes_of_space(ws_idx, tabs, area, t, y);
    if t < tabs && spaces::capped(y + COLLAPSED_BOX_ROWS) <= area.end_y() {
        let next = spaces::capped(y + COLLAPSED_BOX_ROWS);
        lemma_boxes_of_space(ws_idx, tabs, area, t + 1, next);
        let rest = boxes_of_space(ws_idx, tabs, area, t + 1, next);
        assert forall|k: int| 0 < k < boxes.len() implies #[trigger] boxes[k] == rest[k - 1] by {}
        assert forall|j: int, k: int| 0 <= j < k < boxes.len() implies (
        #[trigger] boxes[j]).rect.end_y() <= (#[trigger] boxes[k]).rect.y by {
            assert(boxes[k] == rest[k - 1]);
            if j > 0 {
                assert(boxes[j] == rest[j - 1]);
            }
        }
    }
}

proof fn lemma_boxes_from(
    app: AppState,
    list: Seq<WorkspaceListEntry>,
    area: Rect,
    idx: int,
    y: int,
)
    requires
        area.fits(),
        area.width >= 7,
        area.y <= y <= area.end_y(),
        0 <= idx,
    ensures
        stacked(boxes_from(app, list, area, idx, y), area, y, area.end_y()),
    decreases (if idx <= list.len() {
        list.len() - idx
    } else {
        0
    }),
{
    if idx < list.len() {
        let tabs = app.workspaces@[list[idx].idx()].tabs@.len() as int;
        let mine = boxes_of_space(list[idx]->ws_idx, tabs, area, 0, y);
        lemma_boxes_of_space(list[idx]->ws_idx, tabs, area, 0, y);
        if mine.len() >= tabs {
            let gap = spaces::gap_behind(app, list, idx, list[idx]->indented);
            let mid = spaces::capped(y + COLLAPSED_BOX_ROWS * tabs);
            let next = geometry::min(spaces::capped(mid + gap), area.end_y());
            lemma_boxes_from(app, list, area, idx + 1, next);
            let rest = boxes_from(app, list, area, idx + 1, next);
            let boxes = boxes_from(app, list, area, idx, y);
            assert(boxes =~= mine + rest);
            assert forall|k: int| mine.len() <= k < boxes.len() implies #[trigger] boxes[k]
                == rest[k - mine.len()] by {}
            assert forall|j: int, k: int| 0 <= j < k < boxes.len() implies (
            #[trigger] boxes[j]).rect.end_y() <= (#[trigger] boxes[k]).rect.y by {
                if k >= mine.len() {
                    assert(boxes[k] == rest[k - mine.len()]);
                    if j >= mine.len() {
                        assert(boxes[j] == rest[j - mine.len()]);
                    } else {
                        assert(boxes[j] == mine[j]);
                    }
                } else {
                    assert(boxes[j] == mine[j] && boxes[k] == mine[k]);
                }
            }
        }
    }
}

/// The rows of the tabs of space `ws` among the first `n` of `rows`.
pub open spec fn rows_of_space(rows: Seq<SidebarTabRow>, ws: usize, n: nat) -> Seq<SidebarTabRow>
    decreases n,
{
    if n == 0 {
        Seq::empty()
    } else if rows[n - 1].ws_idx == ws {
        rows_of_space(rows, ws, (n - 1) as nat).push(rows[n - 1])
    } else {
        rows_of_space(rows, ws, (n - 1) as nat)
    }
}

/// The row on which a tab that is dragged to space `target_ws` would land: a
/// place among the tabs is the top of the box there, any other place is the
/// bottom of the last box.
pub open spec fn tab_drop_row(
    rows: Seq<SidebarTabRow>,
    target_ws: usize,
    insert_idx: Option<usize>,
) -> Option<int> {
    let boxes = rows_of_space(rows, target_ws, rows.len());
    if boxes.len() == 0 {
        None
    } else if insert_idx is Some && insert_idx->0 < boxes.len() {
        Some(boxes[insert_idx->0 as int].rect.y as int)
    } else {
        Some(boxes.last().rect.y + geometry::less(boxes.last().rect.height as int, 1))
    }
}

/// The row on which a tab that is dragged to space `target_ws` would land.
pub fn sidebar_tab_drop_indicator_row(
    rows: &Vec<SidebarTabRow>,
    target_ws: usize,
    insert_idx: Option<usize>,
) -> (out: Option<u16>)
    requires
        tab_drop_row(rows@, target_ws, insert_idx) matches Some(y) ==> y <= u16::MAX,
    ensures
        match out {
            Some(y) => tab_drop_row(rows@, target_ws, insert_idx) == Some(y as int),
            None => tab_drop_row(rows@, target_ws, insert_idx) is None,
        },
{
    let mut boxes: Vec<SidebarTabRow> = Vec::new();
    let mut i: usize = 0;
    while i < rows.len()
        invariant
            i <= rows@.len(),
            boxes@ == rows_of_space(rows@, target_ws, i as nat),
        decreases rows@.len() - i,
    {
        if rows[i].ws_idx == target_ws {
            boxes.push(rows[i]);
        }
        i = i + 1;
    }
    if boxes.len() == 0 {
        return None;
    }
    if let Some(gap) = insert_idx {
        if gap < boxes.len() {
            return Some(boxes[gap].rect.y);
        }
    }
    let last: SidebarTabRow = boxes[boxes.len() - 1];
    Some(last.rect.y + last.rect.height.saturating_sub(1))
}

/// Row `y` lies above the last row `bottom` of the list.
pub open spec fn above(y: int, bottom: int) -> Option<int> {
    if 0 <= y < bottom {
        Some(y)
    } else {
        None
    }
}

/// The cards of space `ws_idx`.
pub open spec fn is_card_of(ws_idx: usize) -> spec_fn(WorkspaceCardArea) -> bool {
    |card: WorkspaceCardArea| card.ws_idx == ws_idx
}

/// The row on which a space that is dragged to the place of space `insert_idx`
/// would land: above that space, or below the last.
pub open spec fn space_drop_row(
    cards: Seq<WorkspaceCardArea>,
    area: Rect,
    insert_idx: usize,
) -> Option<int> {
    let bottom = area.y + area.height - 1;
    let below = spaces::capped(cards.last().rect.end_y());
    if area.height == 0 || cards.len() == 0 {
        None
    } else if insert_idx == cards[0].ws_idx {
        above(cards[0].rect.y - 1, bottom)
    } else if insert_idx == geometry::min(cards.last().ws_idx + 1, usize::MAX as int)
        && below < bottom {
        Some(below)
    } else {
        match seqs::first_where(cards, is_card_of(insert_idx)) {
            Some(i) => above(cards[i].rect.y - 1, bottom),
            None => None,
        }
    }
}

fn row_above(y: u16, bottom: u16) -> (out: Option<u16>)
    ensures
        match out {
            Some(row) => above(y - 1, bottom as int) == Some(row as int),
            None => above(y - 1, bottom as int) is None,
        },
{
    if y > 0 && y - 1 < bottom {
        Some(y - 1)
    } else {
        None
    }
}

/// The row on which a space that is dragged to the place of space `insert_idx`
/// would land.
pub fn workspace_drop_indicator_row(
    cards: &Vec<WorkspaceCardArea>,
    area: Rect,
    insert_idx: usize,
) -> (out: Option<u16>)
    requires
        area.y + geometry::less(area.height as int, 1) <= u16::MAX,
    ensures
        match out {
            Some(y) => space_drop_row(cards@, area, insert_idx) == Some(y as int),
            None => space_drop_row(cards@, area, insert_idx) is None,
        },
{
    if area.height == 0 {
        return None;
    }
    let bottom: u16 = area.y + area.height.saturating_sub(1);
    if cards.len() == 0 {
        return None;
    }
    if insert_idx == cards[0].ws_idx {
        return row_above(cards[0].rect.y, bottom);
    }
    let last: WorkspaceCardArea = cards[cards.len() - 1];
    if insert_idx == last.ws_idx.saturating_add(1) {
        let below: u16 = last.rect.y.saturating_add(last.rect.height);
        if below < bottom {
            return Some(below);
        }
    }
    let ghost wanted = is_card_of(insert_idx);
    let mut i: usize = 0;
    while i < cards.len()
        invariant
            i <= cards@.len(),
            wanted == is_card_of(insert_idx),
            forall|j: int| 0 <= j < i ==> !wanted(#[trigger] cards@[j]),
            area.height > 0,
            cards@.len() > 0,
            bottom == area.y + area.height - 1,
            insert_idx != cards@[0].ws_idx,
            !(insert_idx == geometry::min(cards@.last().ws_idx + 1, usize::MAX as int)
                && spaces::capped(cards@.last().rect.end_y()) < bottom),
        decreases cards@.len() - i,
    {
        if cards[i].ws_idx == insert_idx {
            proof {
                seqs::lemma_first_is(cards@, wanted, i as int);
            }
            return row_above(cards[i].rect.y, bottom);
        }
        i = i + 1;
    }
    proof {
        seqs::lemma_first_none(cards@, wanted);
    }
    None
}

/// A space that is dragged lands on a row of the list above its last one.
pub proof fn law_spaces_drop_inside_the_list(
    cards: Seq<WorkspaceCardArea>,
    area: Rect,
    insert_idx: usize,
)
    requires
        forall|i: int| 0 <= i < cards.len() ==> area.y < (#[trigger] cards[i]).rect.y,
    ensures
        space_drop_row(cards, area, insert_idx) matches Some(y) ==> area.y <= y < area.end_y() - 1,
{
    seqs::lemma_first_where(cards, is_card_of(insert_idx));
}

/// Where the toggle of the minimized sidebar is drawn.
pub open spec fn collapsed_toggle(area: Rect) -> Rect {
    let content_w = geometry::less(area.width as int, 1);
    if content_w == 0 || area.height == 0 {
        geometry::no_rect()
    } else {
        geometry::rect(area.x + content_w / 2, area.y + area.height - 1, 1, 1)
    }
}

/// Where the toggle of the minimized sidebar is drawn.
pub fn collapsed_sidebar_toggle_rect(area: Rect) -> (out: Rect)
    requires
        area.y + geometry::less(area.height as int, 1) <= u16::MAX,
        area.height == 0 || area.x + geometry::less(area.width as int, 1) / 2 <= u16::MAX,
    ensures
        out == collapsed_toggle(area),
{
    let bottom_y: u16 = area.y + area.height.saturating_sub(1);
    let content_w: u16 = area.width.saturating_sub(1);
    if content_w == 0 || area.height == 0 {
        return Rect { x: 0, y: 0, width: 0, height: 0 };
    }
    Rect::new(area.x + content_w / 2, bottom_y, 1, 1)
}

/// Where the toggle of the open sidebar is drawn: in the last row, left of the
/// edge.
pub open spec fn expanded_toggle(area: Rect) -> Rect {
    if area.width <= 1 || area.height == 0 {
        geometry::no_rect()
    } else {
        geometry::rect(area.x + area.width - 2, area.y + area.height - 1, 1, 1)
    }
}

/// Where the toggle of the open sidebar is drawn.
pub fn expanded_sidebar_toggle_rect(area: Rect) -> (out: Rect)
    requires
        area.width <= 1 || area.height == 0 || (area.x + area.width - 2 <= u16::MAX && area.y
            + area.height - 1 <= u16::MAX),
    ensures
        out == expanded_toggle(area),
{
    if area.width <= 1 || area.height == 0 {
        return Rect { x: 0, y: 0, width: 0, height: 0 };
    }
    Rect::new(area.x + (area.width - 2), area.y + (area.height - 1), 1, 1)
}

/// The boxes of one space touch: each begins where the one before ends.
pub proof fn law_boxes_of_a_space_touch(
    ws_idx: usize,
    tabs: int,
    area: Rect,
    t: int,
    y: int,
    k: int,
)
    requires
        area.end_y() < u16::MAX,
        0 <= y,
        0 <= t,
        0 <= k < boxes_of_space(ws_idx, tabs, area, t, y).len(),
    ensures
        ({
            let boxes = boxes_of_space(ws_idx, tabs, area, t, y);
            &&& boxes[k].rect.y == y + COLLAPSED_BOX_ROWS * k
            &&& boxes[k].rect.height == COLLAPSED_BOX_ROWS
            &&& boxes[k].tab_idx == (t + k) as usize
        }),
    decreases k,
{
    if k > 0 {
        let next = spaces::capped(y + COLLAPSED_BOX_ROWS);
        law_boxes_of_a_space_touch(ws_idx, tabs, area, t + 1, next, k - 1);
        assert(boxes_of_space(ws_idx, tabs, area, t, y)[k] == boxes_of_space(
            ws_idx,
            tabs,
            area,
            t + 1,
            next,
        )[k - 1]);
    }
}

proof fn lemma_rows_of_space(rows: Seq<SidebarTabRow>, ws: usize, n: nat, k: int)
    requires
        n <= rows.len(),
        0 <= k < rows_of_space(rows, ws, n).len(),
    ensures
        rows_of_space(rows, ws, n)[k].ws_idx == ws,
        rows.contains(rows_of_space(rows, ws, n)[k]),
    decreases n,
{
    let before = rows_of_space(rows, ws, (n - 1) as nat);
    if k < before.len() {
        lemma_rows_of_space(rows, ws, (n - 1) as nat, k);
    } else {
        assert(rows[n - 1] == rows_of_space(rows, ws, n)[k]);
    }
}

/// A tab that is dragged lands on a row of the boxes of the space that it is
/// dragged to, and nowhere where that space has none.
pub proof fn law_tabs_drop_on_their_space(
    rows: Seq<SidebarTabRow>,
    target_ws: usize,
    insert_idx: Option<usize>,
)
    requires
        forall|i: int| 0 <= i < rows.len() ==> (#[trigger] rows[i]).rect.height > 0,
    ensures
        match tab_drop_row(rows, target_ws, insert_idx) {
            Some(y) => exists|i: int|
                0 <= i < rows.len() && (#[trigger] rows[i]).ws_idx == target_ws && rows[i].rect.y
                    <= y < rows[i].rect.end_y(),
            None => forall|i: int|
                0 <= i < rows.len() ==> (#[trigger] rows[i]).ws_idx != target_ws,
        },
{
    let boxes = rows_of_space(rows, target_ws, rows.len());
    if boxes.len() > 0 {
        let k = if insert_idx is Some && insert_idx->0 < boxes.len() {
            insert_idx->0 as int
        } else {
            boxes.len() - 1
        };
        lemma_rows_of_space(rows, target_ws, rows.len(), k);
        let i = choose|i: int| 0 <= i < rows.len() && rows[i] == boxes[k];
        assert(rows[i].ws_idx == target_ws);
    } else {
        lemma_no_rows_of_space(rows, target_ws, rows.len());
    }
}

proof fn lemma_no_rows_of_space(rows: Seq<SidebarTabRow>, ws: usize, n: nat)
    requires
        n <= rows.len(),
        rows_of_space(rows, ws, n).len() == 0,
    ensures
        forall|i: int| 0 <= i < n ==> (#[trigger] rows[i]).ws_idx != ws,
    decreases n,
{
    if n > 0 {
        lemma_no_rows_of_space(rows, ws, (n - 1) as nat);
    }
}

proof fn lemma_minimized_boxes(
    app: AppState,
    list: Seq<WorkspaceListEntry>,
    area: Rect,
    idx: int,
    y: int,
    r: int,
)
    requires
        area.fits(),
        area.width >= 7,
        0 <= idx,
        area.y <= y <= area.end_y(),
        0 <= r < boxes_from(app, list, area, idx, y).len(),
    ensures
        ({
            let row = boxes_from(app, list, area, idx, y)[r];
            &&& row.rect.x == area.x
            &&& row.rect.width == area.width - 1
            &&& row.rect.height <= 3
            &&& row.rect.height == 3 || row.rect.end_y() == u16::MAX
            &&& exists|k: int|
                idx <= k < list.len() && (#[trigger] list[k])->ws_idx == row.ws_idx
        }),
    decreases list.len() - idx,
{
    let tabs = app.workspaces@[list[idx].idx()].tabs@.len() as int;
    let mine = boxes_of_space(list[idx]->ws_idx, tabs, area, 0, y);
    lemma_minimized_boxes_of_space(list[idx]->ws_idx, tabs, area, 0, y);
    lemma_boxes_of_space(list[idx]->ws_idx, tabs, area, 0, y);
    if r < mine.len() {
        assert(boxes_from(app, list, area, idx, y)[r] == mine[r]);
        assert(list[idx]->ws_idx == mine[r].ws_idx);
    } else {
        let next = geometry::min(
            spaces::capped(
                spaces::capped(y + COLLAPSED_BOX_ROWS * tabs) + spaces::gap_behind(
                    app,
                    list,
                    idx,
                    list[idx]->indented,
                ),
            ),
            area.end_y(),
        );
        assert(y <= next) by {
            assert(COLLAPSED_BOX_ROWS * tabs >= 0) by (nonlinear_arith)
                requires
                    tabs >= 0,
            ;
        }
        lemma_minimized_boxes(app, list, area, idx + 1, next, r - mine.len());
        assert(boxes_from(app, list, area, idx, y)[r] == boxes_from(
            app,
            list,
            area,
            idx + 1,
            next,
        )[r - mine.len()]);
    }
}

proof fn lemma_minimized_boxes_of_space(ws_idx: usize, tabs: int, area: Rect, t: int, y: int)
    requires
        area.fits(),
        area.width >= 7,
        0 <= y <= area.end_y(),
    ensures
        forall|k: int|
            0 <= k < boxes_of_space(ws_idx, tabs, area, t, y).len() ==> {
                let row = #[trigger] boxes_of_space(ws_idx, tabs, area, t, y)[k];
                &&& row.ws_idx == ws_idx
                &&& row.rect.x == area.x
                &&& row.rect.width == area.width - 1
                &&& row.rect.height <= 3
                &&& row.rect.height == 3 || row.rect.end_y() == u16::MAX
            },
    decreases tabs - t,
{
    let rows = boxes_of_space(ws_idx, tabs, area, t, y);
    if t < tabs && spaces::capped(y + COLLAPSED_BOX_ROWS) <= area.end_y() {
        let next = spaces::capped(y + COLLAPSED_BOX_ROWS);
        lemma_minimized_boxes_of_space(ws_idx, tabs, area, t + 1, next);
        let rest = boxes_of_space(ws_idx, tabs, area, t + 1, next);
        assert forall|k: int| 0 < k < rows.len() implies #[trigger] rows[k] == rest[k - 1] by {}
    }
}

/// A box of the minimized sidebar is as wide as its column and three rows high,
/// unless the coordinates end. It is of a space of the list.
pub proof fn law_minimized_boxes_are_three_rows_high(app: AppState, area: Rect, r: int)
    requires
        area.fits(),
        0 <= r < collapsed_boxes(app, area).len(),
    ensures
        ({
            let row = collapsed_boxes(app, area)[r];
            let list = entries::workspace_entries(app, false);
            &&& row.rect.x == area.x
            &&& row.rect.width == area.width - 1
            &&& row.rect.width >= 6
            &&& row.rect.height <= 3
            &&& row.rect.height == 3 || row.rect.end_y() == u16::MAX
            &&& exists|k: int| 0 <= k < list.len() && (#[trigger] list[k])->ws_idx == row.ws_idx
        }),
{
    lemma_minimized_boxes(
        app,
        entries::workspace_entries(app, false),
        area,
        0,
        area.y + WORKSPACE_SECTION_HEADER_ROWS,
        r,
    );
}

/// The upper section has the rows that are asked for where both sections then
/// have three; else the section that would be too low has three. In a sidebar of
/// fewer than six rows the upper section has half of them, and the odd one.
pub proof fn law_a_split_is_kept_where_it_can_be(total: int, split: int)
    requires
        0 <= total,
    ensures
        ({
            let (upper, lower) = section_heights(total, split);
            &&& upper + lower == total
            &&& total >= 6 && 3 <= split <= total - 3 ==> upper == split
            &&& total >= 6 && split < 3 ==> upper == 3
            &&& total >= 6 && split > total - 3 ==> lower == 3
            &&& total < 6 ==> lower <= upper <= lower + 1
        }),
{
}

/// How many of the first `n` rows are of space `ws`.
pub open spec fn count_of_space(rows: Seq<SidebarTabRow>, ws: usize, n: nat) -> nat
    decreases n,
{
    if n == 0 {
        0
    } else {
        count_of_space(rows, ws, (n - 1) as nat) + if rows[n - 1].ws_idx == ws {
            1nat
        } else {
            0
        }
    }
}

proof fn lemma_place_in_space(rows: Seq<SidebarTabRow>, ws: usize, n: nat, j: int)
    requires
        n <= rows.len(),
    ensures
        rows_of_space(rows, ws, n).len() == count_of_space(rows, ws, n),
        0 <= j < n && rows[j].ws_idx == ws ==> count_of_space(rows, ws, j as nat) < count_of_space(
            rows,
            ws,
            n,
        ) && rows_of_space(rows, ws, n)[count_of_space(rows, ws, j as nat) as int] == rows[j],
    decreases n,
{
    if n > 0 {
        lemma_place_in_space(rows, ws, (n - 1) as nat, j);
    }
}

/// A tab that is dragged to the place of a tab lands on the top of that tab's
/// box. One that is dragged behind the tabs of a space lands on the last row of
/// its last box.
pub proof fn law_a_dragged_tab_lands_before_the_tab_at_its_place(
    rows: Seq<SidebarTabRow>,
    target_ws: usize,
    insert_idx: Option<usize>,
    j: int,
)
    requires
        0 <= j < rows.len(),
        rows[j].ws_idx == target_ws,
        rows[j].rect.height > 0,
    ensures
        insert_idx matches Some(at) ==> (at == count_of_space(rows, target_ws, j as nat)
            ==> tab_drop_row(rows, target_ws, insert_idx) == Some(rows[j].rect.y as int)),
        (insert_idx is None || insert_idx->0 >= count_of_space(rows, target_ws, rows.len()))
            && count_of_space(rows, target_ws, j as nat) + 1 == count_of_space(
            rows,
            target_ws,
            rows.len(),
        ) ==> tab_drop_row(rows, target_ws, insert_idx) == Some(rows[j].rect.end_y() - 1),
{
    lemma_place_in_space(rows, target_ws, rows.len(), j);
}

/// A space that is dragged to the place of a space in the list lands on the row
/// above the first card of that space, and one that is dragged behind the last
/// space on the row below its card, if those rows are above the last of the
/// list.
pub proof fn law_a_dragged_space_lands_above_the_space_at_its_place(
    cards: Seq<WorkspaceCardArea>,
    area: Rect,
    insert_idx: usize,
    k: int,
)
    requires
        area.height > 0,
        0 <= k < cards.len(),
        cards[k].ws_idx == insert_idx,
        forall|j: int| 0 <= j < k ==> (#[trigger] cards[j]).ws_idx != insert_idx,
        insert_idx != cards.last().ws_idx + 1,
        cards.last().ws_idx < usize::MAX,
    ensures
        0 < cards[k].rect.y <= area.end_y() - 1 ==> space_drop_row(cards, area, insert_idx) == Some(
            cards[k].rect.y - 1,
        ),
        cards[k].rect.y == 0 || cards[k].rect.y > area.end_y() - 1 ==> space_drop_row(
            cards,
            area,
            insert_idx,
        ) is None,
{
    seqs::lemma_first_is(cards, is_card_of(insert_idx), k);
}

/// A space that is dragged behind the last space lands below its card, if there
/// is a row above the last of the list.
pub proof fn law_a_dragged_space_lands_below_the_last(
    cards: Seq<WorkspaceCardArea>,
    area: Rect,
    insert_idx: usize,
)
    requires
        area.height > 0,
        cards.len() > 0,
        insert_idx == cards.last().ws_idx + 1,
        insert_idx != cards[0].ws_idx,
        cards.last().rect.end_y() < area.end_y() - 1,
        cards.last().rect.fits(),
    ensures
        space_drop_row(cards, area, insert_idx) == Some(cards.last().rect.end_y()),
{
}

/// The toggle of the open sidebar is in its last row, next to the edge; that of
/// the minimized one is in its last row, in the middle of its column.
pub proof fn law_toggles_are_in_the_last_row(area: Rect)
    requires
        area.fits(),
        area.width >= 2,
        area.height >= 1,
    ensures
        expanded_toggle(area) == (Rect {
            x: (area.end_x() - 2) as u16,
            y: (area.end_y() - 1) as u16,
            width: 1,
            height: 1,
        }),
        collapsed_toggle(area) == (Rect {
            x: (area.x + (area.width - 1) / 2) as u16,
            y: (area.end_y() - 1) as u16,
            width: 1,
            height: 1,
        }),
{
}

/// The line between the sections is the first row of the lower one; a column of
/// fewer than six rows has none.
pub proof fn law_the_divider_is_the_top_of_the_lower_section(area: Rect, split: int)
    ensures
        ({
            let content = spaces::list_rect(area);
            let lower = sections(area, split).1;
            &&& content.width > 0 && content.height >= 6 ==> divider(area, split) == (Rect {
                height: 1,
                ..lower
            })
            &&& content.width == 0 || content.height < 6 ==> divider(area, split).width == 0
                && divider(area, split).height == 0
        }),
{
}

/// Behind the boxes of a space the minimized sidebar keeps the gap that the list
/// has there; a space follows only where all boxes of the one before were drawn.
#[verifier::spinoff_prover]
#[verifier::rlimit(30)]
pub proof fn law_minimized_spaces_keep_their_gap(
    app: AppState,
    list: Seq<WorkspaceListEntry>,
    area: Rect,
    idx: int,
    y: int,
)
    requires
        area.end_y() < u16::MAX,
        area.fits(),
        area.y <= y <= area.end_y(),
        0 <= idx < list.len(),
        ({
            let tabs = app.workspaces@[list[idx].idx()].tabs@.len();
            &&& tabs > 0
            &&& boxes_from(app, list, area, idx, y).len() > tabs
            &&& idx + 1 < list.len()
            &&& app.workspaces@[list[idx + 1].idx()].tabs@.len() > 0
        }),
    ensures
        ({
            let rows = boxes_from(app, list, area, idx, y);
            let tabs = app.workspaces@[list[idx].idx()].tabs@.len() as int;
            let gap = spaces::gap_behind(app, list, idx, list[idx]->indented);
            &&& rows[0].rect.y == y && rows[0].tab_idx == 0
            &&& rows[tabs - 1].ws_idx == list[idx]->ws_idx
            &&& rows[tabs - 1].tab_idx == tabs - 1
            &&& rows[tabs].ws_idx == list[idx + 1]->ws_idx && rows[tabs].tab_idx == 0
            &&& rows[tabs].rect.y == rows[tabs - 1].rect.end_y() + gap
        }),
{
    let ws = app.workspaces@[list[idx].idx()];
    let tabs = ws.tabs@.len() as int;
    let mine = boxes_of_space(list[idx]->ws_idx, tabs, area, 0, y);
    let rows = boxes_from(app, list, area, idx, y);
    let gap = spaces::gap_behind(app, list, idx, list[idx]->indented);
    let next = geometry::min(
        spaces::capped(spaces::capped(y + COLLAPSED_BOX_ROWS * tabs) + gap),
        area.end_y(),
    );
    let rest = boxes_from(app, list, area, idx + 1, next);
    assert(ws.tabs@.len() == ws.tabs.len());
    lemma_boxes_of_space_count(list[idx]->ws_idx, tabs, area, 0, y);
    assert(mine.len() == tabs);
    assert(rows == mine + rest);
    law_boxes_of_a_space_touch(list[idx]->ws_idx, tabs, area, 0, y, 0);
    law_boxes_of_a_space_touch(list[idx]->ws_idx, tabs, area, 0, y, tabs - 1);
    assert(rows[0] == mine[0]);
    assert(rows[tabs - 1] == mine[tabs - 1]);
    assert(rows[tabs] == rest[0]);
    let others = app.workspaces@[list[idx + 1].idx()].tabs@.len() as int;
    let theirs = boxes_of_space(list[idx + 1]->ws_idx, others, area, 0, next);
    if theirs.len() == 0 {
        assert(rest =~= theirs);
    }
    assert(rest[0] == theirs[0]);
    law_boxes_of_a_space_touch(list[idx + 1]->ws_idx, others, area, 0, next, 0);
    assert(COLLAPSED_BOX_ROWS * (tabs - 1) + COLLAPSED_BOX_ROWS == COLLAPSED_BOX_ROWS * tabs)
        by (nonlinear_arith);
}

proof fn lemma_boxes_of_space_count(ws_idx: usize, tabs: int, area: Rect, t: int, y: int)
    requires
        0 <= t <= tabs,
    ensures
        boxes_of_space(ws_idx, tabs, area, t, y).len() <= tabs - t,
        forall|k: int|
            0 <= k < boxes_of_space(ws_idx, tabs, area, t, y).len() ==> (#[trigger] boxes_of_space(
                ws_idx,
                tabs,
                area,
                t,
                y,
            )[k]).ws_idx == ws_idx,
    decreases tabs - t,
{
    if t < tabs && spaces::capped(y + COLLAPSED_BOX_ROWS) <= area.end_y() {
        let next = spaces::capped(y + COLLAPSED_BOX_ROWS);
        lemma_boxes_of_space_count(ws_idx, tabs, area, t + 1, next);
        let rows = boxes_of_space(ws_idx, tabs, area, t, y);
        let rest = boxes_of_space(ws_idx, tabs, area, t + 1, next);
        assert forall|k: int| 0 < k < rows.len() implies #[trigger] rows[k] == rest[k - 1] by {}
    }
}

} // verus!
