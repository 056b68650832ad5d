//! The list of spaces: how high each space is and where it is drawn.

use vstd::prelude::*;

use crate::app::state::{AppState, ScrollMetrics, SidebarTabRow, WorkspaceCardArea};
use crate::geometry;
use crate::geometry::Rect;
use crate::text;
use crate::text::{any_is, part_stands_at, str_chars, str_cut, str_eq};
use crate::ui::packing;
use crate::ui::packing::{count_visible, find_bottom_start, Slot};
use crate::ui::sidebar::dash;
use crate::ui::sidebar::dash::{tab_dashboards, Dash, TabDash};
use crate::ui::sidebar::entries;
use crate::ui::sidebar::entries::{workspace_list_entries, WorkspaceListEntry};
use crate::views;
use crate::workspace::Workspace;

verus! {

/// A blank row, three rows of buttons, and the line under them.
pub const WORKSPACE_SECTION_HEADER_ROWS: u16 = 5;

/// The rows of a box in the minimized sidebar.
pub const COLLAPSED_BOX_ROWS: u16 = 3;

/// The group that space `i` heads: its key, and whether it is collapsed.
pub open spec fn headed_group(app: AppState, i: int) -> Option<(Seq<char>, bool)> {
    let m = entries::members_of(app.workspaces@);
    if 0 <= i < m.len() && m[i] is Some && !m[i]->0.linked && entries::space_members(
        m,
        m[i]->0.key,
        m.len(),
    ).len() >= 2 {
        Some((m[i]->0.key, text::holds_text(app.collapsed_space_keys@, m[i]->0.key)))
    } else {
        None
    }
}

/// The group that space `ws_idx` heads: its key, and whether it is collapsed.
pub fn workspace_parent_group_state(app: &AppState, ws_idx: usize) -> (out: Option<(String, bool)>)
    ensures
        match out {
            Some((key, collapsed)) => headed_group(*app, ws_idx as int) == Some((key@, collapsed)),
            None => headed_group(*app, ws_idx as int) is None,
        },
{
    let ghost m = entries::members_of(app.workspaces@);
    if ws_idx >= app.workspaces.len() {
        return None;
    }
    let space = match app.workspaces[ws_idx].worktree_space() {
        Some(space) => space,
        None => {
            return None;
        },
    };
    if space.is_linked_worktree {
        return None;
    }
    let key: &str = space.key.as_str();
    let mut count: usize = 0;
    let mut i: usize = 0;
    while i < app.workspaces.len()
        invariant
            i <= app.workspaces.len(),
            m == entries::members_of(app.workspaces@),
            count == entries::space_members(m, key@, i as nat).len(),
            count <= i,
        decreases app.workspaces.len() - i,
    {
        let member: bool = match app.workspaces[i].worktree_space() {
            Some(other) => str_eq(other.key.as_str(), key),
            None => false,
        };
        if member {
            count = count + 1;
        }
        i = i + 1;
    }
    if count >= 2 {
        Some((space.key.clone(), any_is(&app.collapsed_space_keys, key)))
    } else {
        None
    }
}

/// What a space below its parent is called: its own name, else its branch
/// without the prefix of worktree branches.
pub open spec fn child_label(label: Seq<char>, branch: Option<Seq<char>>, custom: bool) -> Seq<
    char,
> {
    if custom {
        label
    } else {
        match branch {
            Some(branch) => if text::stands_at(branch, "worktree/"@, 0) {
                branch.skip("worktree/"@.len() as int)
            } else {
                branch
            },
            None => label,
        }
    }
}

/// What a space below its parent is called.
pub fn grouped_child_display_label(label: &str, branch: Option<&str>, has_custom_name: bool) -> (
    out: String)
    ensures
        out@ == child_label(
            label@,
            match branch {
                Some(branch) => Some(branch@),
                None => None,
            },
            has_custom_name,
        ),
{
    if has_custom_name {
        return label.to_string();
    }
    match branch {
        Some(branch) => {
            let chars: Vec<char> = str_chars(branch);
            let prefix: Vec<char> = str_chars("worktree/");
            if part_stands_at(&chars, &prefix, 0) {
                let out: String = str_cut(branch, prefix.len(), chars.len());
                assert(out@ =~= branch@.skip("worktree/"@.len() as int));
                out
            } else {
                branch.to_string()
            }
        },
        None => label.to_string(),
    }
}

/// The row with the space's name is shown: only in groups.
pub open spec fn has_name_row(app: AppState, i: int, indented: bool) -> bool {
    indented || headed_group(app, i) is Some
}

/// Only members of a group keep a row with their name; other spaces carry no
/// title at all.
pub fn workspace_name_row_visible(app: &AppState, ws_idx: usize, indented: bool) -> (out: bool)
    ensures
        out == has_name_row(*app, ws_idx as int, indented),
{
    indented || workspace_parent_group_state(app, ws_idx).is_some()
}

/// The rows of the boxes of the first `n` tabs: their text and two borders.
pub open spec fn boxed_rows(dashes: Seq<Dash>, n: nat) -> int
    decreases n,
{
    if n == 0 {
        0
    } else {
        boxed_rows(dashes, (n - 1) as nat) + dashes[n - 1].rows.len() + 2
    }
}

/// The row of the name, if it is shown, counts one.
pub open spec fn name_rows(app: AppState, i: int, indented: bool) -> int {
    if has_name_row(app, i, indented) {
        1
    } else {
        0
    }
}

/// The rows that space `i`, which is `ws`, takes in a column of `width` cells.
pub open spec fn row_height(
    app: AppState,
    i: int,
    ws: Workspace,
    indented: bool,
    width: int,
) -> int {
    let dashes = dash::dashes_of(app.terminals@, ws, width);
    geometry::min(
        geometry::max(name_rows(app, i, indented) + boxed_rows(dashes, dashes.len()), 3),
        u16::MAX as int,
    )
}

proof fn lemma_boxed_rows(dashes: Seq<Dash>, n: nat)
    ensures
        boxed_rows(dashes, n) >= 2 * n,
    decreases n,
{
    if n > 0 {
        lemma_boxed_rows(dashes, (n - 1) as nat);
    }
}

/// The rows that a space takes: each tab has a box of its own.
pub fn workspace_row_height(
    app: &AppState,
    ws_idx: usize,
    ws: &Workspace,
    indented: bool,
    width: u16,
) -> (out: u16)
    ensures
        out == row_height(*app, ws_idx as int, *ws, indented, width as int),
{
    broadcast use views::group_views;

    let dashes: Vec<TabDash> = tab_dashboards(app, ws, width);
    let ghost all = dash::dashes_of(app.terminals@, *ws, width as int);
    let mut boxed: usize = 0;
    let mut i: usize = 0;
    while i < dashes.len()
        invariant
            i <= dashes@.len(),
            all == views::of(dashes@),
            boxed == geometry::min(boxed_rows(all, i as nat), usize::MAX as int),
        decreases dashes@.len() - i,
    {
        proof {
            lemma_boxed_rows(all, i as nat);
            assert(all[i as int] == dashes@[i as int]@);
        }
        boxed = boxed.saturating_add(dashes[i].rows.len()).saturating_add(2);
        i = i + 1;
    }
    proof {
        lemma_boxed_rows(all, i as nat);
    }
    let name: usize = if workspace_name_row_visible(app, ws_idx, indented) {
        1
    } else {
        0
    };
    let content: usize = boxed.saturating_add(name);
    if content < 3 {
        3
    } else if content < 0xffff {
        content as u16
    } else {
        0xffff
    }
}

/// The rows that space `i` takes in `body`, at most all of them.
pub open spec fn row_height_in_body(
    app: AppState,
    i: int,
    ws: Workspace,
    indented: bool,
    body: Rect,
) -> int {
    geometry::min(row_height(app, i, ws, indented, body.width as int), body.height as int)
}

/// The rows that a space takes in `body`, at most all of them.
pub fn workspace_row_height_in_body(
    app: &AppState,
    ws_idx: usize,
    ws: &Workspace,
    indented: bool,
    body: Rect,
) -> (out: u16)
    ensures
        out == row_height_in_body(*app, ws_idx as int, *ws, indented, body),
{
    let height: u16 = workspace_row_height(app, ws_idx, ws, indented, body.width);
    if height < body.height {
        height
    } else {
        body.height
    }
}

/// The entry behind the `idx`-th is indented.
pub open spec fn next_is_indented(list: Seq<WorkspaceListEntry>, idx: int) -> bool {
    idx + 1 < list.len() && list[idx + 1]->indented
}

/// The entry behind the `idx`-th is indented.
pub fn next_entry_is_indented_workspace(list: &Vec<WorkspaceListEntry>, idx: usize) -> (out: bool)
    ensures
        out == next_is_indented(list@, idx as int),
{
    let next: usize = idx.saturating_add(1);
    if next < list.len() && idx < next {
        let WorkspaceListEntry::Workspace { ws_idx: _, indented } = list[next];
        indented
    } else {
        assert(list.len() == list@.len());
        false
    }
}

/// The empty rows behind the `idx`-th entry: none between the children of a
/// group, nor at the end.
pub open spec fn gap_behind(
    app: AppState,
    list: Seq<WorkspaceListEntry>,
    idx: int,
    indented: bool,
) -> int {
    if idx + 1 < list.len() && !(indented && next_is_indented(list, idx)) {
        app.sidebar_spaces.row_gap as int
    } else {
        0
    }
}

/// The empty rows behind the `entry_idx`-th entry.
pub fn workspace_entry_gap(
    app: &AppState,
    list: &Vec<WorkspaceListEntry>,
    entry_idx: usize,
    indented: bool,
) -> (out: u16)
    ensures
        out == gap_behind(*app, list@, entry_idx as int, indented),
{
    if entry_idx < list.len() && list.len() - entry_idx > 1 && !(indented
        && next_entry_is_indented_workspace(list, entry_idx)) {
        app.sidebar_spaces.row_gap
    } else {
        0
    }
}

/// The column of the space list: all of the sidebar but its right edge.
pub open spec fn list_rect(area: Rect) -> Rect {
    geometry::rect(
        area.x as int,
        area.y as int,
        geometry::less(area.width as int, 1),
        area.height as int,
    )
}

/// The column of the space list: all of the sidebar but its right edge.
pub fn workspace_list_rect(area: Rect) -> (out: Rect)
    ensures
        out == list_rect(area),
        out.fits(),
{
    Rect::new(area.x, area.y, area.width.saturating_sub(1), area.height)
}

/// The part of a column of `header` rows of header that scrolls.
pub open spec fn body_below(area: Rect, header: int, has_scrollbar: bool) -> Rect {
    if area.width == 0 || area.height <= header {
        geometry::no_rect()
    } else {
        geometry::rect(
            area.x as int,
            area.y + header,
            if has_scrollbar {
                area.width - 1
            } else {
                area.width as int
            },
            area.height - header,
        )
    }
}

/// The part of the space list that scrolls.
pub open spec fn body_rect(area: Rect, has_scrollbar: bool) -> Rect {
    body_below(area, WORKSPACE_SECTION_HEADER_ROWS as int, has_scrollbar)
}

/// The part of the space list that scrolls.
pub fn workspace_list_body_rect(area: Rect, has_scrollbar: bool) -> (out: Rect)
    requires
        has_rows(area),
    ensures
        out == body_rect(area, has_scrollbar),
        out.fits(),
        out.height < u16::MAX,
{
    if area.width == 0 || area.height <= WORKSPACE_SECTION_HEADER_ROWS {
        return Rect { x: 0, y: 0, width: 0, height: 0 };
    }
    let body_y: u16 = area.y.saturating_add(WORKSPACE_SECTION_HEADER_ROWS);
    let body_height: u16 = (area.y + area.height).saturating_sub(body_y);
    let body_width: u16 = area.width.saturating_sub(
        if has_scrollbar {
            1
        } else {
            0
        },
    );
    Rect::new(area.x, body_y, body_width, body_height)
}

/// The rows that the `idx`-th entry takes in `body`.
pub open spec fn full_height(
    app: AppState,
    list: Seq<WorkspaceListEntry>,
    body: Rect,
    idx: int,
) -> int {
    let i = list[idx].idx();
    row_height_in_body(app, i, app.workspaces@[i], list[idx]->indented, body)
}

/// The rows that the `idx`-th entry takes in `body`, and the empty rows behind it.
#[verifier::opaque]
pub open spec fn slot_of(
    app: AppState,
    list: Seq<WorkspaceListEntry>,
    body: Rect,
    idx: int,
) -> Slot {
    Slot {
        height: full_height(app, list, body, idx) as u16,
        gap: gap_behind(app, list, idx, list[idx]->indented) as u16,
    }
}

proof fn lemma_slot_of(app: AppState, list: Seq<WorkspaceListEntry>, body: Rect, idx: int)
    ensures
        slot_of(app, list, body, idx).height == full_height(app, list, body, idx),
        slot_of(app, list, body, idx).gap == gap_behind(app, list, idx, list[idx]->indented),
        slot_of(app, list, body, idx).height <= body.height,
{
    reveal(slot_of);
}

/// The rows that the entries take in `body`.
pub open spec fn slots_of(app: AppState, list: Seq<WorkspaceListEntry>, body: Rect) -> Seq<Slot> {
    Seq::new(list.len(), |idx: int| slot_of(app, list, body, idx))
}

fn space_slots(app: &AppState, list: &Vec<WorkspaceListEntry>, body: Rect) -> (out: Vec<Slot>)
    requires
        list@ == entries::workspace_entries(*app, false),
    ensures
        out@ == slots_of(*app, list@, body),
{
    proof {
        entries::law_no_space_is_listed_twice(*app, false);
    }
    let ghost all = slots_of(*app, list@, body);
    let mut out: Vec<Slot> = Vec::new();
    let mut idx: usize = 0;
    assert(out@ =~= all.take(0));
    while idx < list.len()
        invariant
            idx <= list@.len(),
            list@ == entries::workspace_entries(*app, false),
            forall|a: int|
                0 <= a < entries::workspace_entries(*app, false).len() ==> 0 <= (
                #[trigger] entries::workspace_entries(*app, false)[a]).idx()
                    < app.workspaces@.len(),
            all == slots_of(*app, list@, body),
            out@ == all.take(idx as int),
        decreases list@.len() - idx,
    {
        let WorkspaceListEntry::Workspace { ws_idx, indented } = list[idx];
        assert(list@[idx as int].idx() == ws_idx);
        proof {
            lemma_slot_of(*app, list@, body, idx as int);
        }
        out.push(
            Slot {
                height: workspace_row_height_in_body(
                    app,
                    ws_idx,
                    &app.workspaces[ws_idx],
                    indented,
                    body,
                ),
                gap: workspace_entry_gap(app, list, idx, indented),
            },
        );
        assert(all.take(idx + 1) =~= all.take(idx as int).push(all[idx as int]));
        idx = idx + 1;
    }
    assert(all.take(all.len() as int) =~= all);
    out
}

/// The rows that the spaces take in the list in `area`.
pub open spec fn list_slots(app: AppState, area: Rect) -> Seq<Slot> {
    slots_of(app, entries::workspace_entries(app, false), body_rect(area, false))
}

/// A list whose rows are coordinates.
pub open spec fn has_rows(area: Rect) -> bool {
    area.width == 0 || area.height <= WORKSPACE_SECTION_HEADER_ROWS || area.end_y() <= u16::MAX
}

/// How many spaces are shown in the list in `area`, scrolled by `scroll`.
pub open spec fn shown_spaces(app: AppState, area: Rect, scroll: int) -> int {
    let body = body_rect(area, false);
    if body.width == 0 || body.height == 0 {
        0
    } else {
        packing::visible_count(list_slots(app, area), body.height as int, scroll)
    }
}

/// How many spaces are shown in the list in `area`, scrolled by `scroll`.
pub fn workspace_list_visible_count(app: &AppState, area: Rect, scroll: usize) -> (out: usize)
    requires
        has_rows(area),
    ensures
        out == shown_spaces(*app, area, scroll as int),
{
    let body: Rect = workspace_list_body_rect(area, false);
    if body.width == 0 || body.height == 0 {
        return 0;
    }
    let list: Vec<WorkspaceListEntry> = workspace_list_entries(app);
    let slots: Vec<Slot> = space_slots(app, &list, body);
    count_visible(&slots, body.height, scroll)
}

/// The space that is first when the list in `area` is scrolled to its end.
pub open spec fn last_scroll(app: AppState, area: Rect) -> int {
    packing::bottom_start(list_slots(app, area), body_rect(area, false).height as int)
}

/// The space that is first when the list in `area` is scrolled to its end.
pub fn workspace_list_bottom_start(app: &AppState, area: Rect) -> (out: usize)
    requires
        has_rows(area),
    ensures
        out == last_scroll(*app, area),
{
    let body: Rect = workspace_list_body_rect(area, false);
    let list: Vec<WorkspaceListEntry> = workspace_list_entries(app);
    let slots: Vec<Slot> = space_slots(app, &list, body);
    find_bottom_start(&slots, body.height)
}

/// `requested`, or as far as the list in the sidebar `area` scrolls.
pub open spec fn normalized_scroll(app: AppState, area: Rect, requested: int) -> int {
    if body_rect(list_rect(area), false).height == 0 {
        requested
    } else if entries::workspace_entries(app, false).len() == 0 {
        0
    } else {
        geometry::min(requested, last_scroll(app, list_rect(area)))
    }
}

/// `requested`, or as far as the list in the sidebar `area` scrolls.
pub fn normalized_workspace_scroll(app: &AppState, area: Rect, requested: usize) -> (out: usize)
    ensures
        out == normalized_scroll(*app, area, requested as int),
        out == if body_rect(list_rect(area), false).height == 0 {
            requested as int
        } else if entries::workspace_entries(*app, false).len() == 0 {
            0
        } else {
            geometry::min(requested as int, last_scroll(*app, list_rect(area)))
        },
{
    let ws_area: Rect = workspace_list_rect(area);
    let body: Rect = workspace_list_body_rect(ws_area, false);
    if body.height == 0 {
        return requested;
    }
    if workspace_list_entries(app).len() == 0 {
        0
    } else {
        let most: usize = workspace_list_bottom_start(app, ws_area);
        if requested < most {
            requested
        } else {
            most
        }
    }
}

/// The scroll state of the list in `area`.
pub open spec fn list_metrics(app: AppState, area: Rect) -> ScrollMetrics {
    packing::metrics(
        list_slots(app, area),
        body_rect(area, false).height as int,
        shown_spaces(app, area, geometry::min(app.workspace_scroll as int, last_scroll(app, area))),
        app.workspace_scroll as int,
    )
}

/// The scroll state of the list in `area`.
pub fn workspace_list_scroll_metrics(app: &AppState, area: Rect) -> (out: ScrollMetrics)
    requires
        has_rows(area),
    ensures
        out == list_metrics(*app, area),
        out == ({
            let scroll = geometry::min(app.workspace_scroll as int, last_scroll(*app, area));
            packing::metrics(
                list_slots(*app, area),
                body_rect(area, false).height as int,
                shown_spaces(*app, area, scroll),
                app.workspace_scroll as int,
            )
        }),
{
    let most: usize = workspace_list_bottom_start(app, area);
    let scroll: usize = if app.workspace_scroll < most {
        app.workspace_scroll
    } else {
        most
    };
    let viewport_rows: usize = workspace_list_visible_count(app, area, scroll);
    ScrollMetrics {
        offset_from_bottom: most.saturating_sub(scroll),
        max_offset_from_bottom: most,
        viewport_rows,
    }
}

/// The list scrolls without a scrollbar.
pub fn workspace_list_scrollbar_rect(_app: &AppState, _area: Rect) -> (out: Option<Rect>)
    ensures
        out is None,
{
    None
}

/// The largest coordinate, where `n` is none.
pub open spec fn capped(n: int) -> int {
    geometry::min(n, u16::MAX as int)
}

/// The rows that a space of `height` rows gets at row `y` of a body that ends at
/// `bottom`: one that only part-fits fills the rows that are left.
pub open spec fn placed_height(y: int, height: int, bottom: int) -> int {
    if capped(y + height) > bottom {
        bottom - y
    } else {
        height
    }
}

/// The card of the `idx`-th entry at row `y`.
pub open spec fn card_at(
    app: AppState,
    list: Seq<WorkspaceListEntry>,
    body: Rect,
    idx: int,
    y: int,
) -> WorkspaceCardArea {
    let height = placed_height(y, slot_of(app, list, body, idx).height as int, body.end_y());
    WorkspaceCardArea {
        ws_idx: list[idx]->ws_idx,
        rect: geometry::rect(body.x as int, y, body.width as int, height),
        indented: list[idx]->indented,
    }
}

/// No entry is placed at row `y`, nor behind it.
pub open spec fn is_full(
    app: AppState,
    list: Seq<WorkspaceListEntry>,
    body: Rect,
    idx: int,
    y: int,
) -> bool {
    let height = slot_of(app, list, body, idx).height as int;
    idx < 0 || idx >= list.len() || (capped(y + height) > body.end_y() && y == body.end_y())
}

/// The `idx`-th entry is the last one that is placed.
pub open spec fn is_clipped(
    app: AppState,
    list: Seq<WorkspaceListEntry>,
    body: Rect,
    idx: int,
    y: int,
) -> bool {
    capped(y + slot_of(app, list, body, idx).height) > body.end_y()
}

/// The row at which the entry behind the `idx`-th is placed.
pub open spec fn row_behind(
    app: AppState,
    list: Seq<WorkspaceListEntry>,
    body: Rect,
    idx: int,
    y: int,
) -> int {
    let slot = slot_of(app, list, body, idx);
    geometry::min(capped(y + slot.height + slot.gap), body.end_y())
}

/// The cards of the entries from the `idx`-th on, from row `y` on.
pub open spec fn cards_from(
    app: AppState,
    list: Seq<WorkspaceListEntry>,
    body: Rect,
    idx: int,
    y: int,
) -> Seq<WorkspaceCardArea>
    decreases list.len() - idx,
{
    if is_full(app, list, body, idx, y) {
        Seq::empty()
    } else if is_clipped(app, list, body, idx, y) {
        seq![card_at(app, list, body, idx, y)]
    } else {
        seq![card_at(app, list, body, idx, y)] + cards_from(
            app,
            list,
            body,
            idx + 1,
            row_behind(app, list, body, idx, y),
        )
    }
}

/// The rows of the tabs of `dashes` from the `t`-th on, in rows `y` to `bottom`.
pub open spec fn tabs_from(
    ws_idx: usize,
    dashes: Seq<Dash>,
    body: Rect,
    bottom: int,
    t: int,
    y: int,
) -> Seq<SidebarTabRow>
    decreases dashes.len() - t,
{
    if t < 0 || t >= dashes.len() || y >= bottom {
        Seq::empty()
    } else {
        let height = geometry::min(dashes[t].rows.len() as int + 2, bottom - y);
        seq![
            SidebarTabRow {
                ws_idx,
                tab_idx: dashes[t].tab_idx as usize,
                rect: geometry::rect(body.x as int, y, body.width as int, height),
            },
        ] + tabs_from(ws_idx, dashes, body, bottom, t + 1, y + height)
    }
}

/// The rows of the tabs of the `idx`-th entry, which is placed at row `y`.
pub open spec fn card_tabs(
    app: AppState,
    list: Seq<WorkspaceListEntry>,
    body: Rect,
    idx: int,
    y: int,
) -> Seq<SidebarTabRow> {
    let i = list[idx].idx();
    let height = placed_height(y, slot_of(app, list, body, idx).height as int, body.end_y());
    tabs_from(
        list[idx]->ws_idx,
        dash::dashes_of(app.terminals@, app.workspaces@[i], body.width as int),
        body,
        geometry::min(capped(y + height), body.end_y()),
        0,
        capped(y + name_rows(app, i, list[idx]->indented)),
    )
}

/// The rows of the tabs of the entries from the `idx`-th on, from row `y` on.
pub open spec fn tab_rows_from(
    app: AppState,
    list: Seq<WorkspaceListEntry>,
    body: Rect,
    idx: int,
    y: int,
) -> Seq<SidebarTabRow>
    decreases list.len() - idx,
{
    if is_full(app, list, body, idx, y) {
        Seq::empty()
    } else if is_clipped(app, list, body, idx, y) {
        card_tabs(app, list, body, idx, y)
    } else {
        card_tabs(app, list, body, idx, y) + tab_rows_from(
            app,
            list,
            body,
            idx + 1,
            row_behind(app, list, body, idx, y),
        )
    }
}

/// The cards of the spaces in the sidebar `area`.
pub open spec fn space_cards(app: AppState, area: Rect) -> Seq<WorkspaceCardArea> {
    let body = body_rect(list_rect(area), false);
    if body.width == 0 || body.height == 0 {
        Seq::empty()
    } else {
        cards_from(
            app,
            entries::workspace_entries(app, false),
            body,
            app.workspace_scroll as int,
            body.y as int,
        )
    }
}

/// The rows of the tabs in the sidebar `area`.
pub open spec fn space_tab_rows(app: AppState, area: Rect) -> Seq<SidebarTabRow> {
    let body = body_rect(list_rect(area), false);
    if body.width == 0 || body.height == 0 {
        Seq::empty()
    } else {
        tab_rows_from(
            app,
            entries::workspace_entries(app, false),
            body,
            app.workspace_scroll as int,
            body.y as int,
        )
    }
}

fn put_tab_rows(
    rows: &mut Vec<SidebarTabRow>,
    app: &AppState,
    ws_idx: usize,
    ws: &Workspace,
    body: Rect,
    bottom: u16,
    from: u16,
)
    ensures
        final(rows)@ == old(rows)@ + tabs_from(
            ws_idx,
            dash::dashes_of(app.terminals@, *ws, body.width as int),
            body,
            bottom as int,
            0,
            from as int,
        ),
{
    broadcast use views::group_views;

    let dashes: Vec<TabDash> = tab_dashboards(app, ws, body.width);
    let ghost all = views::of(dashes@);
    let ghost goal = old(rows)@ + tabs_from(ws_idx, all, body, bottom as int, 0, from as int);
    let mut y: u16 = from;
    let mut t: usize = 0;
    while t < dashes.len()
        invariant
            t <= dashes@.len(),
            all == views::of(dashes@),
            all == dash::dashes_of(app.terminals@, *ws, body.width as int),
            goal == old(rows)@ + tabs_from(ws_idx, all, body, bottom as int, 0, from as int),
            goal == rows@ + tabs_from(ws_idx, all, body, bottom as int, t as int, y as int),
        decreases dashes@.len() - t,
    {
        if y >= bottom {
            assert(goal =~= rows@);
            return;
        }
        proof {
            assert(all[t as int] == dashes@[t as int]@);
            dash::lemma_dash_rows_len(
                app.terminals@,
                ws.tabs@[t as int],
                t as int,
                body.width as int,
            );
        }
        let full: u16 = dashes[t].rows.len() as u16 + 2;
        let height: u16 = if full < bottom - y {
            full
        } else {
            bottom - y
        };
        let ghost before = rows@;
        rows.push(
            SidebarTabRow {
                ws_idx,
                tab_idx: dashes[t].tab_idx,
                rect: Rect::new(body.x, y, body.width, height),
            },
        );
        proof {
            let rest = tabs_from(
                ws_idx,
                all,
                body,
                bottom as int,
                t + 1,
                y + height,
            );
            assert(goal =~= rows@ + rest);
        }
        y = y + height;
        t = t + 1;
    }
    assert(goal =~= rows@);
}

/// Where the spaces and their tabs are drawn in the sidebar `area`.
pub fn compute_workspace_list_areas(app: &AppState, area: Rect) -> (out: (
    Vec<WorkspaceCardArea>,
    Vec<SidebarTabRow>,
))
    ensures
        out.0@ == space_cards(*app, area),
        out.1@ == space_tab_rows(*app, area),
{
    let ws_area: Rect = workspace_list_rect(area);
    let body: Rect = workspace_list_body_rect(ws_area, false);
    let mut cards: Vec<WorkspaceCardArea> = Vec::new();
    let mut tab_rows: Vec<SidebarTabRow> = Vec::new();
    if body.width == 0 || body.height == 0 {
        return (cards, tab_rows);
    }
    let ghost all_cards = space_cards(*app, area);
    let ghost all_rows = space_tab_rows(*app, area);
    let list: Vec<WorkspaceListEntry> = workspace_list_entries(app);
    proof {
        entries::law_no_space_is_listed_twice(*app, false);
    }
    let bottom: u16 = body.y + body.height;
    let mut row_y: u16 = body.y;
    let mut idx: usize = app.workspace_scroll;
    assert(all_cards =~= cards@ + cards_from(*app, list@, body, idx as int, row_y as int));
    assert(all_rows =~= tab_rows@ + tab_rows_from(*app, list@, body, idx as int, row_y as int));
    while idx < list.len()
        invariant_except_break
            all_cards == cards@ + cards_from(*app, list@, body, idx as int, row_y as int),
            all_rows == tab_rows@ + tab_rows_from(*app, list@, body, idx as int, row_y as int),
        invariant
            list@ == entries::workspace_entries(*app, false),
            forall|a: int|
                0 <= a < entries::workspace_entries(*app, false).len() ==> 0 <= (
                #[trigger] entries::workspace_entries(*app, false)[a]).idx()
                    < app.workspaces@.len(),
            bottom == body.end_y(),
            row_y <= bottom,
        ensures
            all_cards == cards@,
            all_rows == tab_rows@,
        decreases list@.len() - idx,
    {
        let WorkspaceListEntry::Workspace { ws_idx, indented } = list[idx];
        assert(list@[idx as int].idx() == ws_idx);
        let ws: &Workspace = &app.workspaces[ws_idx];
        let mut height: u16 = workspace_row_height_in_body(app, ws_idx, ws, indented, body);
        let gap: u16 = workspace_entry_gap(app, &list, idx, indented);
        let ghost slot = slot_of(*app, list@, body, idx as int);
        proof {
            lemma_slot_of(*app, list@, body, idx as int);
        }
        assert(slot.height == height && slot.gap == gap);
        let clipped: bool = row_y.saturating_add(height) > bottom;
        if clipped {
            height = bottom.saturating_sub(row_y);
            if height == 0 {
                assert(all_cards =~= cards@);
                assert(all_rows =~= tab_rows@);
                break;
            }
        }
        let ghost cards_before = cards@;
        let ghost rows_before = tab_rows@;
        cards.push(
            WorkspaceCardArea {
                ws_idx,
                rect: Rect::new(body.x, row_y, body.width, height),
                indented,
            },
        );
        let end: u16 = row_y.saturating_add(height);
        let content_bottom: u16 = if end < bottom {
            end
        } else {
            bottom
        };
        let name: u16 = if workspace_name_row_visible(app, ws_idx, indented) {
            1
        } else {
            0
        };
        let tab_y: u16 = row_y.saturating_add(name);
        put_tab_rows(&mut tab_rows, app, ws_idx, ws, body, content_bottom, tab_y);
        assert(cards@.last() == card_at(*app, list@, body, idx as int, row_y as int));
        assert(tab_rows@ == rows_before + card_tabs(*app, list@, body, idx as int, row_y as int));
        if clipped {
            assert(all_cards =~= cards@);
            assert(all_rows =~= tab_rows@);
            break;
        }
        let below: u16 = row_y.saturating_add(height).saturating_add(gap);
        let ghost next_y = row_behind(*app, list@, body, idx as int, row_y as int);
        assert(all_cards =~= cards@ + cards_from(*app, list@, body, idx + 1, next_y));
        assert(all_rows =~= tab_rows@ + tab_rows_from(*app, list@, body, idx + 1, next_y));
        row_y = if below < bottom {
            below
        } else {
            bottom
        };
        assert(row_y == next_y);
        idx = idx + 1;
    }
    (cards, tab_rows)
}

/// Where the spaces are drawn in the sidebar `area`.
pub fn compute_workspace_card_areas(app: &AppState, area: Rect) -> (out: Vec<WorkspaceCardArea>)
    ensures
        out@ == space_cards(*app, area),
{
    compute_workspace_list_areas(app, area).0
}

proof fn lemma_cards_from(
    app: AppState,
    list: Seq<WorkspaceListEntry>,
    body: Rect,
    idx: int,
    y: int,
)
    requires
        body.fits(),
        0 <= idx,
        body.y <= y <= body.end_y(),
    ensures
        ({
            let cards = cards_from(app, list, body, idx, y);
            &&& idx <= list.len() ==> cards.len() <= list.len() - idx
            &&& idx > list.len() ==> cards.len() == 0
            &&& forall|k: int|
                0 <= k < cards.len() ==> {
                    &&& (#[trigger] cards[k]).rect.inside(body)
                    &&& cards[k].rect.x == body.x && cards[k].rect.width == body.width
                    &&& cards[k].rect.y >= y
                    &&& cards[k].ws_idx == list[idx + k]->ws_idx
                    &&& cards[k].indented == list[idx + k]->indented
                    &&& cards[k].rect.height == geometry::min(
                        slot_of(app, list, body, idx + k).height as int,
                        body.end_y() - cards[k].rect.y,
                    )
                }
            &&& forall|j: int, k: int|
                0 <= j < k < cards.len() ==> (#[trigger] cards[j]).rect.end_y() <= (
                #[trigger] cards[k]).rect.y
            &&& forall|k: int|
                0 <= k < cards.len() - 1 ==> (#[trigger] cards[k + 1]).rect.y == geometry::min(
                    cards[k].rect.end_y() + slot_of(app, list, body, idx + k).gap,
                    body.end_y(),
                )
            &&& body.end_y() < u16::MAX ==> forall|k: int|
                0 <= k < cards.len() - 1 ==> (#[trigger] cards[k]).rect.height == slot_of(
                    app,
                    list,
                    body,
                    idx + k,
                ).height
            &&& cards.len() > 0 ==> cards[0].rect.y == y
        }),
    decreases (if idx <= list.len() {
        list.len() - idx
    } else {
        0
    }),
{
    if !is_full(app, list, body, idx, y) && !is_clipped(app, list, body, idx, y) {
        let next = row_behind(app, list, body, idx, y);
        lemma_cards_from(app, list, body, idx + 1, next);
        let cards = cards_from(app, list, body, idx, y);
        let rest = cards_from(app, list, body, idx + 1, next);
        assert(cards =~= seq![card_at(app, list, body, idx, y)] + rest);
        assert forall|k: int| 0 < k < cards.len() implies #[trigger] cards[k] == rest[k - 1] by {}
        assert forall|j: int, k: int| 0 <= j < k < cards.len() implies (
        #[trigger] cards[j]).rect.end_y() <= (#[trigger] cards[k]).rect.y by {
            assert(cards[k] == rest[k - 1]);
            if j > 0 {
                assert(cards[j] == rest[j - 1]);
            }
        }
        assert forall|k: int| 0 <= k < cards.len() - 1 implies (#[trigger] cards[k + 1]).rect.y
            == geometry::min(
            cards[k].rect.end_y() + slot_of(app, list, body, idx + k).gap,
            body.end_y(),
        ) by {
            assert(cards[k + 1] == rest[k]);
            if k > 0 {
                assert(cards[k] == rest[k - 1]);
                assert(rest[(k - 1) + 1] == rest[k]);
            }
        }
        if body.end_y() < u16::MAX {
            assert forall|k: int| 0 <= k < cards.len() - 1 implies (
            #[trigger] cards[k]).rect.height == slot_of(app, list, body, idx + k).height by {
                if k > 0 {
                    assert(cards[k] == rest[k - 1]);
                }
            }
        }
    }
}

/// The spaces are drawn below each other in the order of the list, inside its
/// body and as wide as it is, each behind the gap of the one before. Each has
/// the height that it takes in the body, as far as the body goes; where the body
/// ends above the largest coordinate, all but the last have it in full.
pub proof fn law_cards_follow_each_other_in_the_body(app: AppState, area: Rect)
    ensures
        ({
            let body = body_rect(list_rect(area), false);
            let list = entries::workspace_entries(app, false);
            let scroll = app.workspace_scroll as int;
            let cards = space_cards(app, area);
            &&& cards.len() > 0 ==> scroll + cards.len() <= list.len() && cards[0].rect.y == body.y
            &&& forall|k: int|
                0 <= k < cards.len() ==> {
                    &&& (#[trigger] cards[k]).rect.inside(body)
                    &&& cards[k].rect.x == body.x && cards[k].rect.width == body.width
                    &&& cards[k].ws_idx == list[scroll + k].idx()
                    &&& cards[k].indented == list[scroll + k]->indented
                    &&& cards[k].rect.height == geometry::min(
                        full_height(app, list, body, scroll + k),
                        body.end_y() - cards[k].rect.y,
                    )
                }
            &&& forall|j: int, k: int|
                0 <= j < k < cards.len() ==> (#[trigger] cards[j]).rect.end_y() <= (
                #[trigger] cards[k]).rect.y
            &&& forall|k: int|
                0 <= k < cards.len() - 1 ==> (#[trigger] cards[k + 1]).rect.y == geometry::min(
                    cards[k].rect.end_y() + gap_behind(
                        app,
                        list,
                        scroll + k,
                        list[scroll + k]->indented,
                    ),
                    body.end_y(),
                )
            &&& body.end_y() < u16::MAX ==> forall|k: int|
                0 <= k < cards.len() - 1 ==> (#[trigger] cards[k]).rect.height == full_height(
                    app,
                    list,
                    body,
                    scroll + k,
                )
        }),
{
    let body = body_rect(list_rect(area), false);
    let list = entries::workspace_entries(app, false);
    let scroll = app.workspace_scroll as int;
    if body.width > 0 && body.height > 0 {
        lemma_cards_from(app, list, body, scroll, body.y as int);
        assert forall|k: int| true implies (#[trigger] slot_of(app, list, body, scroll + k)).height
            == full_height(app, list, body, scroll + k) && slot_of(
            app,
            list,
            body,
            scroll + k,
        ).gap == gap_behind(app, list, scroll + k, list[scroll + k]->indented) by {
            lemma_slot_of(app, list, body, scroll + k);
        }
    }
}

#[verifier::spinoff_prover]
proof fn lemma_cards_fill(
    app: AppState,
    list: Seq<WorkspaceListEntry>,
    body: Rect,
    idx: int,
    y: int,
)
    requires
        body.fits(),
        0 <= idx,
        body.y <= y <= body.end_y(),
    ensures
        ({
            let cards = cards_from(app, list, body, idx, y);
            let last = cards.len() - 1;
            idx + cards.len() < list.len() ==> if cards.len() == 0 {
                y == body.end_y()
            } else {
                cards[last].rect.end_y() == body.end_y() || cards[last].rect.end_y() + slot_of(
                    app,
                    list,
                    body,
                    idx + last,
                ).gap >= body.end_y()
            }
        }),
    decreases (if idx <= list.len() {
        list.len() - idx
    } else {
        0
    }),
{
    if !is_full(app, list, body, idx, y) && !is_clipped(app, list, body, idx, y) {
        let next = row_behind(app, list, body, idx, y);
        lemma_cards_fill(app, list, body, idx + 1, next);
        let cards = cards_from(app, list, body, idx, y);
        let rest = cards_from(app, list, body, idx + 1, next);
        assert(cards =~= seq![card_at(app, list, body, idx, y)] + rest);
        if rest.len() > 0 {
            assert(cards[cards.len() - 1] == rest[rest.len() - 1]);
        }
    }
}

/// Where the list goes on below what is drawn, no row is left over but the gap
/// of the last space: a space that only part-fits fills what is left.
pub proof fn law_the_body_is_filled(app: AppState, area: Rect)
    ensures
        ({
            let body = body_rect(list_rect(area), false);
            let list = entries::workspace_entries(app, false);
            let scroll = app.workspace_scroll as int;
            let cards = space_cards(app, area);
            let last = cards.len() - 1;
            body.width > 0 && body.height > 0 && scroll + cards.len() < list.len() ==> {
                &&& cards.len() > 0
                &&& cards[last].rect.end_y() + gap_behind(
                    app,
                    list,
                    scroll + last,
                    list[scroll + last]->indented,
                ) >= body.end_y()
            }
        }),
{
    let body = body_rect(list_rect(area), false);
    let list = entries::workspace_entries(app, false);
    let scroll = app.workspace_scroll as int;
    if body.width > 0 && body.height > 0 {
        lemma_cards_fill(app, list, body, scroll, body.y as int);
        lemma_slot_of(app, list, body, scroll + space_cards(app, area).len() - 1);
    }
}

/// The rows of the tabs of a space stand below each other, from row `y` on and
/// above `bottom`.
pub proof fn lemma_tabs_from(
    ws_idx: usize,
    dashes: Seq<Dash>,
    body: Rect,
    bottom: int,
    t: int,
    y: int,
)
    requires
        0 <= t,
        0 <= y,
        bottom <= u16::MAX,
        body.fits(),
    ensures
        ({
            let rows = tabs_from(ws_idx, dashes, body, bottom, t, y);
            &&& forall|k: int|
                0 <= k < rows.len() ==> {
                    &&& (#[trigger] rows[k]).ws_idx == ws_idx
                    &&& rows[k].rect.x == body.x && rows[k].rect.width == body.width
                    &&& y <= rows[k].rect.y && rows[k].rect.end_y() <= bottom
                    &&& rows[k].rect.height > 0
                }
            &&& forall|j: int, k: int|
                0 <= j < k < rows.len() ==> (#[trigger] rows[j]).rect.end_y() <= (
                #[trigger] rows[k]).rect.y
        }),
    decreases (if t <= dashes.len() {
        dashes.len() - t
    } else {
        0
    }),
{
    if t < dashes.len() && y < bottom {
        let height = geometry::min(dashes[t].rows.len() as int + 2, bottom - y);
        lemma_tabs_from(ws_idx, dashes, body, bottom, t + 1, y + height);
        let rows = tabs_from(ws_idx, dashes, body, bottom, t, y);
        let rest = tabs_from(ws_idx, dashes, body, bottom, t + 1, y + height);
        assert forall|k: int| 0 < k < rows.len() implies #[trigger] rows[k] == rest[k - 1] by {}
        assert forall|j: int, k: int| 0 <= j < k < rows.len() implies (
        #[trigger] rows[j]).rect.end_y() <= (#[trigger] rows[k]).rect.y by {
            assert(rows[k] == rest[k - 1]);
            if j > 0 {
                assert(rows[j] == rest[j - 1]);
            }
        }
    }
}

/// `row` lies on the card of its space.
pub open spec fn on_card(row: SidebarTabRow, card: WorkspaceCardArea) -> bool {
    row.ws_idx == card.ws_idx && row.rect.inside(card.rect) && row.rect.height > 0
}

proof fn lemma_tab_rows_on_cards(
    app: AppState,
    list: Seq<WorkspaceListEntry>,
    body: Rect,
    idx: int,
    y: int,
)
    requires
        body.fits(),
        0 <= idx,
        body.y <= y <= body.end_y(),
    ensures
        ({
            let rows = tab_rows_from(app, list, body, idx, y);
            let cards = cards_from(app, list, body, idx, y);
            forall|r: int|
                0 <= r < rows.len() ==> exists|k: int|
                    0 <= k < cards.len() && on_card(#[trigger] rows[r], #[trigger] cards[k])
        }),
    decreases (if idx <= list.len() {
        list.len() - idx
    } else {
        0
    }),
{
    let rows = tab_rows_from(app, list, body, idx, y);
    let cards = cards_from(app, list, body, idx, y);
    if !is_full(app, list, body, idx, y) {
        let i = list[idx].idx();
        let height = placed_height(y, slot_of(app, list, body, idx).height as int, body.end_y());
        let mine = card_tabs(app, list, body, idx, y);
        lemma_tabs_from(
            list[idx]->ws_idx,
            dash::dashes_of(app.terminals@, app.workspaces@[i], body.width as int),
            body,
            geometry::min(capped(y + height), body.end_y()),
            0,
            capped(y + name_rows(app, i, list[idx]->indented)),
        );
        assert(cards[0] == card_at(app, list, body, idx, y));
        assert forall|r: int| 0 <= r < mine.len() implies on_card(
            #[trigger] mine[r],
            cards[0],
        ) by {}
        if !is_clipped(app, list, body, idx, y) {
            let next = row_behind(app, list, body, idx, y);
            lemma_tab_rows_on_cards(app, list, body, idx + 1, next);
            let more = tab_rows_from(app, list, body, idx + 1, next);
            let rest = cards_from(app, list, body, idx + 1, next);
            assert forall|r: int| 0 <= r < rows.len() implies exists|k: int|
                0 <= k < cards.len() && on_card(#[trigger] rows[r], #[trigger] cards[k]) by {
                if r < mine.len() {
                    assert(rows[r] == mine[r]);
                    assert(on_card(rows[r], cards[0]));
                } else {
                    assert(rows[r] == more[r - mine.len()]);
                    let k = choose|k: int|
                        0 <= k < rest.len() && on_card(more[r - mine.len()], #[trigger] rest[k]);
                    assert(cards[k + 1] == rest[k]);
                    assert(on_card(rows[r], cards[k + 1]));
                }
            }
        } else {
            assert forall|r: int| 0 <= r < rows.len() implies exists|k: int|
                0 <= k < cards.len() && on_card(#[trigger] rows[r], #[trigger] cards[k]) by {
                assert(on_card(rows[r], cards[0]));
            }
        }
    }
}

/// Every row of a tab lies on the card of its space, so a click on it is one on
/// that space too.
pub proof fn law_tab_rows_lie_on_their_cards(app: AppState, area: Rect, r: int)
    requires
        0 <= r < space_tab_rows(app, area).len(),
    ensures
        exists|k: int|
            0 <= k < space_cards(app, area).len() && on_card(
                space_tab_rows(app, area)[r],
                #[trigger] space_cards(app, area)[k],
            ),
{
    let body = body_rect(list_rect(area), false);
    lemma_tab_rows_on_cards(
        app,
        entries::workspace_entries(app, false),
        body,
        app.workspace_scroll as int,
        body.y as int,
    );
    let rows = space_tab_rows(app, area);
    let cards = space_cards(app, area);
    let k = choose|k: int|
        0 <= k < cards.len() && on_card(#[trigger] rows[r], #[trigger] cards[k]);
    assert(on_card(rows[r], cards[k]));
}

proof fn lemma_tab_rows_apart(
    app: AppState,
    list: Seq<WorkspaceListEntry>,
    body: Rect,
    idx: int,
    y: int,
)
    requires
        body.fits(),
        0 <= idx,
        body.y <= y <= body.end_y(),
    ensures
        ({
            let rows = tab_rows_from(app, list, body, idx, y);
            &&& forall|k: int| 0 <= k < rows.len() ==> y <= (#[trigger] rows[k]).rect.y
            &&& forall|j: int, k: int|
                0 <= j < k < rows.len() ==> (#[trigger] rows[j]).rect.end_y() <= (
                #[trigger] rows[k]).rect.y
        }),
    decreases (if idx <= list.len() {
        list.len() - idx
    } else {
        0
    }),
{
    if !is_full(app, list, body, idx, y) {
        let i = list[idx].idx();
        let height = placed_height(y, slot_of(app, list, body, idx).height as int, body.end_y());
        let mine = card_tabs(app, list, body, idx, y);
        lemma_tabs_from(
            list[idx]->ws_idx,
            dash::dashes_of(app.terminals@, app.workspaces@[i], body.width as int),
            body,
            geometry::min(capped(y + height), body.end_y()),
            0,
            capped(y + name_rows(app, i, list[idx]->indented)),
        );
        if !is_clipped(app, list, body, idx, y) {
            let next = row_behind(app, list, body, idx, y);
            lemma_tab_rows_apart(app, list, body, idx + 1, next);
            let rows = tab_rows_from(app, list, body, idx, y);
            let more = tab_rows_from(app, list, body, idx + 1, next);
            assert(rows =~= mine + more);
            assert forall|j: int, k: int| 0 <= j < k < rows.len() implies (
            #[trigger] rows[j]).rect.end_y() <= (#[trigger] rows[k]).rect.y by {
                if j >= mine.len() {
                    assert(rows[j] == more[j - mine.len()]);
                } else {
                    assert(rows[j] == mine[j]);
                }
                if k >= mine.len() {
                    assert(rows[k] == more[k - mine.len()]);
                } else {
                    assert(rows[k] == mine[k]);
                }
            }
        }
    }
}

/// The rows of the tabs stand below each other: none overlaps another, within a
/// space and across spaces.
pub proof fn law_tab_rows_do_not_overlap(app: AppState, area: Rect, j: int, k: int)
    requires
        0 <= j < k < space_tab_rows(app, area).len(),
    ensures
        space_tab_rows(app, area)[j].rect.end_y() <= space_tab_rows(app, area)[k].rect.y,
{
    let body = body_rect(list_rect(area), false);
    lemma_tab_rows_apart(
        app,
        entries::workspace_entries(app, false),
        body,
        app.workspace_scroll as int,
        body.y as int,
    );
}

/// The list of spaces can be packed: no space is higher than the body, and
/// behind the last there is no gap.
pub proof fn lemma_list_slots_fit(app: AppState, area: Rect)
    ensures
        packing::all_fit(list_slots(app, area), body_rect(area, false).height as int),
        list_slots(app, area).len() == entries::workspace_entries(app, false).len(),
{
    let list = entries::workspace_entries(app, false);
    let body = body_rect(area, false);
    let slots = list_slots(app, area);
    assert forall|i: int| 0 <= i < slots.len() implies (#[trigger] slots[i]).height <= body.height
        && (i == slots.len() - 1 ==> slots[i].gap == 0) by {
        lemma_slot_of(app, list, body, i);
    }
}

/// Scrolled to its end the list of spaces shows its last space, and as many
/// before it as fit; a scroll within the list shows the space that it is at.
pub proof fn law_the_last_space_can_be_reached(app: AppState, area: Rect, scroll: int)
    requires
        body_rect(area, false).width > 0,
        body_rect(area, false).height > 0,
        0 <= scroll < entries::workspace_entries(app, false).len(),
    ensures
        ({
            let n = entries::workspace_entries(app, false).len();
            let most = last_scroll(app, area);
            &&& 0 <= most < n
            &&& most + shown_spaces(app, area, most) == n
            &&& 1 <= shown_spaces(app, area, scroll) <= n - scroll
        }),
{
    lemma_list_slots_fit(app, area);
    let room = body_rect(area, false).height as int;
    packing::law_the_end_is_packed(list_slots(app, area), room);
    packing::law_the_first_item_is_visible(list_slots(app, area), room, scroll);
}

/// The children of a group stay compact whatever the gap between spaces is:
/// each begins right below the one before.
pub proof fn law_children_of_a_group_stay_compact(app: AppState, area: Rect, k: int)
    requires
        0 <= k,
        k + 1 < space_cards(app, area).len(),
        space_cards(app, area)[k].indented,
        space_cards(app, area)[k + 1].indented,
    ensures
        space_cards(app, area)[k + 1].rect.y == space_cards(app, area)[k].rect.end_y(),
{
    law_cards_follow_each_other_in_the_body(app, area);
    let list = entries::workspace_entries(app, false);
    let scroll = app.workspace_scroll as int;
    let cards = space_cards(app, area);
    assert(cards[k + 1].indented == list[scroll + k + 1]->indented);
    assert(cards[k].rect.inside(body_rect(list_rect(area), false)));
    assert(gap_behind(app, list, scroll + k, list[scroll + k]->indented) == 0);
}

proof fn lemma_tab_places(
    ws_idx: usize,
    dashes: Seq<Dash>,
    body: Rect,
    bottom: int,
    t: int,
    y: int,
    k: int,
)
    requires
        0 <= t <= k < dashes.len(),
        0 <= y,
        bottom <= u16::MAX,
        y + boxed_rows(dashes, k as nat) - boxed_rows(dashes, t as nat) < bottom,
    ensures
        ({
            let rows = tabs_from(ws_idx, dashes, body, bottom, t, y);
            let from = y + boxed_rows(dashes, k as nat) - boxed_rows(dashes, t as nat);
            &&& k - t < rows.len() <= dashes.len() - t
            &&& rows[k - t].tab_idx == dashes[k].tab_idx as usize
            &&& rows[k - t].rect.y == from
            &&& rows[k - t].rect.height == geometry::min(
                dashes[k].rows.len() as int + 2,
                bottom - from,
            )
        }),
    decreases k - t,
{
    let height = geometry::min(dashes[t].rows.len() as int + 2, bottom - y);
    let rows = tabs_from(ws_idx, dashes, body, bottom, t, y);
    let rest = tabs_from(ws_idx, dashes, body, bottom, t + 1, y + height);
    lemma_boxed_rows_grow(dashes, t as nat, k as nat);
    lemma_tabs_count(ws_idx, dashes, body, bottom, t + 1, y + height);
    if t < k {
        lemma_boxed_rows_grow(dashes, (t + 1) as nat, k as nat);
        lemma_tab_places(ws_idx, dashes, body, bottom, t + 1, y + height, k);
        assert(rows[k - t] == rest[k - t - 1]);
    }
}

proof fn lemma_tabs_count(
    ws_idx: usize,
    dashes: Seq<Dash>,
    body: Rect,
    bottom: int,
    t: int,
    y: int,
)
    requires
        0 <= t <= dashes.len(),
    ensures
        tabs_from(ws_idx, dashes, body, bottom, t, y).len() <= dashes.len() - t,
    decreases dashes.len() - t,
{
    if t < dashes.len() && y < bottom {
        let height = geometry::min(dashes[t].rows.len() as int + 2, bottom - y);
        lemma_tabs_count(ws_idx, dashes, body, bottom, t + 1, y + height);
    }
}

proof fn lemma_boxed_rows_grow(dashes: Seq<Dash>, a: nat, b: nat)
    requires
        a <= b,
    ensures
        boxed_rows(dashes, a) + 2 * (b - a) <= boxed_rows(dashes, b),
        a < b ==> boxed_rows(dashes, a) + dashes[a as int].rows.len() + 2 <= boxed_rows(dashes, b),
    decreases b - a,
{
    if a < b {
        lemma_boxed_rows_grow(dashes, a, (b - 1) as nat);
    }
}

/// The box of a tab has a row for each thing that is said of the tab and two
/// for its frame, and stands below those of the tabs before it, as far as the
/// card goes.
pub proof fn law_a_tab_gets_its_rows(
    ws_idx: usize,
    dashes: Seq<Dash>,
    body: Rect,
    bottom: int,
    y: int,
    k: int,
)
    requires
        0 <= k < dashes.len(),
        0 <= y,
        bottom <= u16::MAX,
        y + boxed_rows(dashes, k as nat) < bottom,
    ensures
        ({
            let rows = tabs_from(ws_idx, dashes, body, bottom, 0, y);
            &&& k < rows.len() <= dashes.len()
            &&& rows[k].tab_idx == dashes[k].tab_idx as usize
            &&& k == 0 ==> rows[k].rect.y == y
            &&& k > 0 ==> rows[k].rect.y == rows[k - 1].rect.end_y()
            &&& rows[k].rect.end_y() <= bottom
            &&& rows[k].rect.height == dashes[k].rows.len() + 2 || rows[k].rect.end_y() == bottom
        }),
{
    lemma_tab_places(ws_idx, dashes, body, bottom, 0, y, k);
    if k > 0 {
        lemma_boxed_rows_grow(dashes, (k - 1) as nat, k as nat);
        lemma_tab_places(ws_idx, dashes, body, bottom, 0, y, k - 1);
    }
}

/// A space is as high as the boxes of its tabs, and a row for its name where
/// that is shown; at least three rows.
pub proof fn law_a_space_is_as_high_as_its_tabs(
    app: AppState,
    i: int,
    ws: Workspace,
    indented: bool,
    width: int,
)
    ensures
        ({
            let dashes = dash::dashes_of(app.terminals@, ws, width);
            let tabs = tabs_from(
                i as usize,
                dashes,
                Rect { x: 0, y: 0, width: 0, height: 0 },
                u16::MAX as int,
                0,
                0,
            );
            let named: int = if indented || headed_group(app, i) is Some {
                1
            } else {
                0
            };
            let height = row_height(app, i, ws, indented, width);
            &&& 3 <= height <= u16::MAX
            &&& ws.tabs@.len() == 0 ==> height == 3
            &&& ws.tabs@.len() > 0 && named + boxed_rows(dashes, dashes.len()) < u16::MAX ==> {
                &&& tabs.len() == ws.tabs@.len()
                &&& height == geometry::max(named + tabs.last().rect.end_y(), 3)
            }
        }),
{
    let dashes = dash::dashes_of(app.terminals@, ws, width);
    let n = dashes.len();
    if n > 0 && boxed_rows(dashes, n) < u16::MAX {
        lemma_boxed_rows_grow(dashes, (n - 1) as nat, n);
        lemma_tab_places(
            i as usize,
            dashes,
            Rect { x: 0, y: 0, width: 0, height: 0 },
            u16::MAX as int,
            0,
            0,
            n - 1,
        );
    }
}

/// A space heads a group where it is no linked worktree and another space is of
/// the same repository. Its group is collapsed where its key is listed as such.
#[verifier::spinoff_prover]
#[verifier::rlimit(30)]
pub proof fn law_a_group_is_headed_by_its_main_checkout(app: AppState, i: int)
    ensures
        ({
            let ws = app.workspaces@;
            let heads = 0 <= i < ws.len() && (ws[i].worktree_space matches Some(space)
                && !space.is_linked_worktree && exists|j: int|
                0 <= j < ws.len() && j != i && ((#[trigger] ws[j]).worktree_space matches Some(
                    other,
                ) && other.key@ == space.key@));
            &&& headed_group(app, i) is Some <==> heads
            &&& headed_group(app, i) matches Some((key, collapsed)) ==> {
                &&& key == ws[i].worktree_space->0.key@
                &&& collapsed <==> exists|k: int|
                    0 <= k < app.collapsed_space_keys@.len() && (
                    #[trigger] app.collapsed_space_keys@[k])@ == key
            }
        }),
{
    let ws = app.workspaces@;
    let m = entries::members_of(ws);
    if 0 <= i < ws.len() && m[i] is Some {
        let key = m[i]->0.key;
        entries::lemma_members_of_key(m, key, m.len(), i);
        if exists|j: int|
            0 <= j < ws.len() && j != i && ((#[trigger] ws[j]).worktree_space matches Some(other)
                && other.key@ == key) {
            let j = choose|j: int|
                0 <= j < ws.len() && j != i && ((#[trigger] ws[j]).worktree_space matches Some(
                    other,
                ) && other.key@ == key);
            assert(m[j] is Some && m[j]->0.key == key);
        }
        if entries::space_members(m, key, m.len()).len() >= 2 {
            let j = choose|j: int|
                0 <= j < m.len() && j != i && (#[trigger] m[j]) is Some && m[j]->0.key == key;
            assert(ws[j].worktree_space is Some);
        }
    }
}

/// A space below its parent is called by its own name, else by its branch, which
/// loses the prefix of worktree branches; one without a branch keeps its label.
pub proof fn law_children_are_called_by_their_branch(
    label: Seq<char>,
    branch: Option<Seq<char>>,
    custom: bool,
)
    ensures
        custom || branch is None ==> child_label(label, branch, custom) == label,
        !custom && branch is Some ==> {
            let out = child_label(label, branch, custom);
            ||| branch->0 == "worktree/"@ + out
            ||| branch->0 == out && !text::stands_at(out, "worktree/"@, 0)
        },
{
    if branch is Some {
        let name = branch->0;
        if text::stands_at(name, "worktree/"@, 0) {
            assert(name =~= name.subrange(0, "worktree/"@.len() as int) + name.skip(
                "worktree/"@.len() as int,
            ));
        }
    }
}

/// A scroll that the list can take is kept, a larger one goes to its end. The
/// scroll state tells how far that is from the end, and how many spaces are
/// shown there.
pub proof fn law_the_list_scrolls_to_its_end_only(app: AppState, area: Rect, requested: int)
    requires
        0 <= requested,
        body_rect(list_rect(area), false).height > 0,
        entries::workspace_entries(app, false).len() > 0,
    ensures
        ({
            let most = last_scroll(app, list_rect(area));
            let scroll = normalized_scroll(app, area, requested);
            let state = list_metrics(app, list_rect(area));
            let at = normalized_scroll(app, area, app.workspace_scroll as int);
            &&& requested <= most ==> scroll == requested
            &&& requested > most ==> scroll == most
            &&& state.max_offset_from_bottom == most
            &&& state.offset_from_bottom == most - at
            &&& state.viewport_rows == shown_spaces(app, list_rect(area), at)
        }),
{
    let column = list_rect(area);
    let room = body_rect(column, false).height as int;
    let slots = list_slots(app, column);
    let most = last_scroll(app, column);
    assert(app.workspaces.len() == app.workspaces@.len());
    lemma_list_slots_fit(app, column);
    packing::law_the_end_is_packed(slots, room);
    let at = geometry::min(app.workspace_scroll as int, most);
    packing::law_the_first_item_is_visible(slots, room, at);
    entries::lemma_entries_are_few(app, false);
    packing::law_the_scroll_state_counts_from_the_end(
        slots,
        room,
        shown_spaces(app, column, at),
        app.workspace_scroll as int,
    );
}

/// The list scrolls below five rows of header, down to the end of its column.
/// No space takes more rows than that.
pub proof fn law_the_list_scrolls_below_its_header(
    app: AppState,
    list: Seq<WorkspaceListEntry>,
    area: Rect,
    idx: int,
)
    requires
        area.fits(),
        area.width > 0,
    ensures
        ({
            let body = body_rect(area, false);
            let i = list[idx].idx();
            let rows = row_height(
                app,
                i,
                app.workspaces@[i],
                list[idx]->indented,
                area.width as int,
            );
            &&& area.height > 5 ==> {
                &&& body.x == area.x && body.width == area.width
                &&& body.y == area.y + 5 && body.end_y() == area.end_y()
                &&& rows <= area.height - 5 ==> full_height(app, list, body, idx) == rows
                &&& rows > area.height - 5 ==> full_height(app, list, body, idx) == area.height - 5
            }
            &&& area.height <= 5 ==> body.width == 0 && body.height == 0
        }),
{
}

/// Between two spaces there is the gap of the list, but none between two
/// children of a group, and none behind the last space.
pub proof fn law_gaps_stand_between_spaces(
    app: AppState,
    list: Seq<WorkspaceListEntry>,
    idx: int,
)
    requires
        0 <= idx < list.len(),
    ensures
        ({
            let gap = gap_behind(app, list, idx, list[idx]->indented);
            &&& idx == list.len() - 1 ==> gap == 0
            &&& idx < list.len() - 1 ==> gap == if list[idx]->indented && list[idx + 1]->indented {
                0
            } else {
                app.sidebar_spaces.row_gap as int
            }
        }),
{
}

/// The first tab of a space begins at the top of its card, or one row further
/// down where the name of the space is shown there.
pub proof fn law_the_first_tab_stands_below_the_name(
    app: AppState,
    list: Seq<WorkspaceListEntry>,
    body: Rect,
    idx: int,
    y: int,
)
    requires
        body.fits(),
        body.y <= y < body.end_y(),
        card_tabs(app, list, body, idx, y).len() > 0,
    ensures
        ({
            let first = card_tabs(app, list, body, idx, y)[0];
            let named = list[idx]->indented || headed_group(app, list[idx].idx()) is Some;
            &&& first.tab_idx == 0
            &&& named ==> first.rect.y == y + 1
            &&& !named ==> first.rect.y == y
        }),
{
    let i = list[idx].idx();
    let ws = app.workspaces@[i];
    let dashes = dash::dashes_of(app.terminals@, ws, body.width as int);
    assert(dashes[0].tab_idx == 0);
}

} // verus!
