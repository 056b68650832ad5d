//! The agent panel: which agents it lists, in which order, and how it scrolls.

use vstd::prelude::*;

use crate::app::agent_view;
use crate::app::agent_view::apply_agent_view;
use crate::app::state::{AgentPanelSort, AppState, ScrollMetrics};
use crate::geometry;
use crate::geometry::Rect;
use crate::metadata::TokenMap;
use crate::text;
use crate::text::display_width_u16;
use crate::ui::packing;
use crate::ui::packing::{count_visible, find_bottom_start, scroll_to_reveal, Slot};
use crate::ui::sidebar::attention;
use crate::ui::sidebar::spaces;
use crate::ui::sidebar::tokens;
use crate::ui::sidebar::tokens::{agent_rows, ResolvedToken, TokenView};
use crate::views;
use crate::workspace;
use crate::workspace::{
    Agent, AgentState, PaneDetail, PaneDetailView, PaneId, TerminalRuntimeRegistry, Workspace,
};

verus! {

/// The rows of the panel above the list.
pub const AGENT_PANEL_HEADER_ROWS: u16 = 3;

/// An agent as the panel lists it.
#[derive(Debug)]
pub struct AgentPanelEntry {
    pub ws_idx: usize,
    pub tab_idx: usize,
    pub pane_id: PaneId,
    pub primary_label: String,
    pub primary_tab_label: Option<String>,
    pub pane_label: Option<String>,
    pub terminal_title: Option<String>,
    pub terminal_title_stripped: Option<String>,
    pub agent_label: Option<String>,
    pub agent_kind_label: Option<String>,
    pub agent: Option<Agent>,
    pub state: AgentState,
    pub seen: bool,
    pub last_agent_state_change_seq: Option<u64>,
    pub state_labels: TokenMap,
    pub tokens: TokenMap,
}

/// An [`AgentPanelEntry`] by its texts.
pub struct AgentEntry {
    pub ws_idx: int,
    pub tab_idx: int,
    pub pane_id: PaneId,
    pub primary_label: Seq<char>,
    pub primary_tab_label: Option<Seq<char>>,
    pub pane_label: Option<Seq<char>>,
    pub terminal_title: Option<Seq<char>>,
    pub terminal_title_stripped: Option<Seq<char>>,
    pub agent_label: Option<Seq<char>>,
    pub agent_kind_label: Option<Seq<char>>,
    pub agent: Option<Agent>,
    pub state: AgentState,
    pub seen: bool,
    pub last_agent_state_change_seq: Option<u64>,
    pub state_labels: Map<Seq<char>, Seq<char>>,
    pub tokens: Map<Seq<char>, Seq<char>>,
}

impl View for AgentPanelEntry {
    type V = AgentEntry;

    open spec fn view(&self) -> AgentEntry {
        AgentEntry {
            ws_idx: self.ws_idx as int,
            tab_idx: self.tab_idx as int,
            pane_id: self.pane_id,
            primary_label: self.primary_label@,
            primary_tab_label: views::text(self.primary_tab_label),
            pane_label: views::text(self.pane_label),
            terminal_title: views::text(self.terminal_title),
            terminal_title_stripped: views::text(self.terminal_title_stripped),
            agent_label: views::text(self.agent_label),
            agent_kind_label: views::text(self.agent_kind_label),
            agent: self.agent,
            state: self.state,
            seen: self.seen,
            last_agent_state_change_seq: self.last_agent_state_change_seq,
            state_labels: self.state_labels@,
            tokens: self.tokens@,
        }
    }
}

/// The panel's entry of an agent in space `ws_idx`. The tab is named where the
/// space has several, or where it has a name of its own.
pub open spec fn entry_of(
    ws: Workspace,
    ws_idx: int,
    names: Map<u64, String>,
    detail: PaneDetailView,
) -> AgentEntry {
    let tabs = ws.tabs@;
    let show_tab = tabs.len() > 1 || (detail.tab_idx < tabs.len()
        && tabs[detail.tab_idx].custom_name is Some);
    AgentEntry {
        ws_idx,
        tab_idx: detail.tab_idx,
        pane_id: detail.pane_id,
        primary_label: workspace::display_name(ws, names),
        primary_tab_label: if show_tab {
            Some(detail.tab_label)
        } else {
            None
        },
        pane_label: detail.pane_label,
        terminal_title: detail.terminal_title,
        terminal_title_stripped: detail.terminal_title_stripped,
        agent_label: Some(detail.agent_label),
        agent_kind_label: detail.agent_kind_label,
        agent: detail.agent,
        state: detail.state,
        seen: detail.seen,
        last_agent_state_change_seq: detail.last_agent_state_change_seq,
        state_labels: detail.state_labels,
        tokens: detail.tokens,
    }
}

/// The entries of the agents in space `ws_idx`.
pub open spec fn entries_of_space(
    app: AppState,
    ws_idx: int,
    names: Map<u64, String>,
) -> Seq<AgentEntry> {
    let ws = app.workspaces@[ws_idx];
    workspace::details_of(
        ws.tabs@,
        workspace::panes_of(ws.tabs@, ws.tabs@.len()),
        app.terminals@,
    ).map_values(|detail: PaneDetailView| entry_of(ws, ws_idx, names, detail))
}

/// The entries of the agents in the first `n` spaces.
pub open spec fn entries_to(app: AppState, names: Map<u64, String>, n: nat) -> Seq<AgentEntry>
    decreases n,
{
    if n == 0 {
        Seq::empty()
    } else {
        entries_to(app, names, (n - 1) as nat) + entries_of_space(app, n - 1, names)
    }
}

/// The entries of all agents, as the spaces stand.
pub open spec fn all_entries(app: AppState, names: Map<u64, String>) -> Seq<AgentEntry> {
    entries_to(app, names, app.workspaces@.len())
}

fn make_entry(ws: &Workspace, ws_idx: usize, runtimes: &TerminalRuntimeRegistry, detail: PaneDetail)
    -> (out: AgentPanelEntry)
    ensures
        out@ == entry_of(*ws, ws_idx as int, runtimes.names@, detail@),
{
    let named: bool = if detail.tab_idx < ws.tabs.len() {
        !ws.tabs[detail.tab_idx].is_auto_named()
    } else {
        false
    };
    let show_tab: bool = ws.tabs.len() > 1 || named;
    AgentPanelEntry {
        ws_idx,
        tab_idx: detail.tab_idx,
        pane_id: detail.pane_id,
        primary_label: ws.display_name_from(runtimes),
        primary_tab_label: if show_tab {
            Some(detail.tab_label)
        } else {
            None
        },
        pane_label: detail.pane_label,
        terminal_title: detail.terminal_title,
        terminal_title_stripped: detail.terminal_title_stripped,
        agent_label: Some(detail.agent_label),
        agent_kind_label: detail.agent_kind_label,
        agent: detail.agent,
        state: detail.state,
        seen: detail.seen,
        last_agent_state_change_seq: detail.last_agent_state_change_seq,
        state_labels: detail.state_labels,
        tokens: detail.tokens,
    }
}

fn put_space_entries(
    out: &mut Vec<AgentPanelEntry>,
    app: &AppState,
    ws_idx: usize,
    runtimes: &TerminalRuntimeRegistry,
)
    requires
        ws_idx < app.workspaces@.len(),
    ensures
        views::of(final(out)@) == views::of(old(out)@) + entries_of_space(
            *app,
            ws_idx as int,
            runtimes.names@,
        ),
{
    broadcast use views::group_views;

    let ws: &Workspace = &app.workspaces[ws_idx];
    let ghost start = views::of(out@);
    let ghost mine = entries_of_space(*app, ws_idx as int, runtimes.names@);
    let details: Vec<PaneDetail> = ws.pane_details(&app.terminals);
    let ghost all = details@;
    assert(start + mine.take(0) =~= start);
    for detail in it: details
        invariant
            it.seq() == all,
            mine == entries_of_space(*app, ws_idx as int, runtimes.names@),
            mine.len() == all.len(),
            *ws == app.workspaces@[ws_idx as int],
            views::of(all) == workspace::details_of(
                ws.tabs@,
                workspace::panes_of(ws.tabs@, ws.tabs@.len()),
                app.terminals@,
            ),
            views::of(out@) == start + mine.take(it.index() as int),
    {
        let ghost n = it.index() as int;
        assert(views::of(all)[n] == detail@);
        out.push(make_entry(ws, ws_idx, runtimes, detail));
        assert(start + mine.take(n + 1) =~= (start + mine.take(n)).push(mine[n]));
    }
    assert(mine.take(mine.len() as int) =~= mine);
}

/// The names that `runtimes` gives; none without running terminals.
pub open spec fn names_of(runtimes: Option<&TerminalRuntimeRegistry>) -> Map<u64, String> {
    match runtimes {
        Some(runtimes) => runtimes.names@,
        None => Map::empty(),
    }
}

/// The entries of all agents, as the spaces stand.
pub fn collect_agent_panel_entries_with_runtimes(
    app: &AppState,
    terminal_runtimes: Option<&TerminalRuntimeRegistry>,
) -> (out: Vec<AgentPanelEntry>)
    ensures
        views::of(out@) == all_entries(*app, names_of(terminal_runtimes)),
{
    let empty: TerminalRuntimeRegistry = TerminalRuntimeRegistry::new();
    let runtimes: &TerminalRuntimeRegistry = match terminal_runtimes {
        Some(runtimes) => runtimes,
        None => &empty,
    };
    let mut out: Vec<AgentPanelEntry> = Vec::new();
    let mut i: usize = 0;
    assert(views::of(out@) =~= entries_to(*app, runtimes.names@, 0));
    while i < app.workspaces.len()
        invariant
            i <= app.workspaces@.len(),
            views::of(out@) == entries_to(*app, runtimes.names@, i as nat),
        decreases app.workspaces@.len() - i,
    {
        put_space_entries(&mut out, app, i, runtimes);
        i = i + 1;
    }
    out
}

/// The entries that the panel shows.
pub open spec fn shown_entries(app: AppState, names: Map<u64, String>) -> Seq<AgentEntry> {
    agent_view::viewed(app, all_entries(app, names))
}

/// The entries that the panel shows.
pub fn agent_panel_entries_with_runtimes(
    app: &AppState,
    terminal_runtimes: Option<&TerminalRuntimeRegistry>,
) -> (out: Vec<AgentPanelEntry>)
    ensures
        views::of(out@) == shown_entries(*app, names_of(terminal_runtimes)),
{
    apply_agent_view(app, collect_agent_panel_entries_with_runtimes(app, terminal_runtimes))
}

/// The entries that the panel shows where no terminal runs.
pub fn agent_panel_entries(app: &AppState) -> (out: Vec<AgentPanelEntry>)
    ensures
        views::of(out@) == shown_entries(*app, Map::empty()),
{
    agent_panel_entries_with_runtimes(app, None)
}

/// The entries of all agents, whatever the panel selects, where no terminal runs.
pub fn all_agent_panel_entries(app: &AppState) -> (out: Vec<AgentPanelEntry>)
    ensures
        views::of(out@) == all_entries(*app, Map::empty()),
{
    collect_agent_panel_entries_with_runtimes(app, None)
}

/// The entries that the panel shows, with the names of running terminals.
pub fn agent_panel_entries_from(app: &AppState, terminal_runtimes: &TerminalRuntimeRegistry) -> (
    out: Vec<AgentPanelEntry>)
    ensures
        views::of(out@) == shown_entries(*app, terminal_runtimes.names@),
{
    agent_panel_entries_with_runtimes(app, Some(terminal_runtimes))
}

/// The name of a state among those that plugins can label.
pub open spec fn status_key(state: AgentState, seen: bool) -> Seq<char> {
    match (state, seen) {
        (AgentState::Idle, false) => "done"@,
        (AgentState::Idle, true) => "idle"@,
        (AgentState::Working, _) => "working"@,
        (AgentState::Blocked, _) => "blocked"@,
        (AgentState::Unknown, _) => "unknown"@,
    }
}

/// The name of a state among those that plugins can label.
pub fn agent_panel_status_key(state: AgentState, seen: bool) -> (out: &'static str)
    ensures
        out@ == status_key(state, seen),
{
    match (state, seen) {
        (AgentState::Idle, false) => "done",
        (AgentState::Idle, true) => "idle",
        (AgentState::Working, _) => "working",
        (AgentState::Blocked, _) => "blocked",
        (AgentState::Unknown, _) => "unknown",
    }
}

/// What the panel's order is called.
pub open spec fn sort_label(sort: AgentPanelSort) -> Seq<char> {
    match sort {
        AgentPanelSort::Spaces => "grouped"@,
        AgentPanelSort::Priority => "priority"@,
    }
}

/// What the panel's order is called.
pub fn agent_panel_sort_label(sort: AgentPanelSort) -> (out: &'static str)
    ensures
        out@ == sort_label(sort),
{
    match sort {
        AgentPanelSort::Spaces => "grouped",
        AgentPanelSort::Priority => "priority",
    }
}

/// What the panel's selection is called, where there is one.
pub open spec fn view_label(app: AppState) -> Option<Seq<char>> {
    match app.agent_view_override {
        Some(view) => Some(
            match view.label {
                Some(label) => label@,
                None => "filtered"@,
            },
        ),
        None => None,
    }
}

/// What the panel's selection is called, where there is one.
pub fn active_agent_view_label(app: &AppState) -> (out: Option<&str>)
    ensures
        match out {
            Some(label) => view_label(*app) == Some(label@),
            None => view_label(*app) is None,
        },
{
    match &app.agent_view_override {
        Some(view) => match &view.label {
            Some(label) => Some(label.as_str()),
            None => Some("filtered"),
        },
        None => None,
    }
}

/// Where a label at the right end of the panel's header is drawn.
pub open spec fn header_label(area: Rect, label: Seq<char>) -> Rect {
    if area.width == 0 || area.height < 2 {
        geometry::no_rect()
    } else {
        let width = geometry::min(text::text_width(label) as int, area.width as int);
        geometry::rect(
            spaces::capped(area.x + area.width - width),
            spaces::capped(area.y + 1),
            width,
            1,
        )
    }
}

/// Where a label at the right end of the panel's header is drawn.
pub fn agent_panel_header_label_rect(area: Rect, label: &str) -> (out: Rect)
    ensures
        out == header_label(area, label@),
{
    if area.width == 0 || area.height < 2 {
        return Rect { x: 0, y: 0, width: 0, height: 0 };
    }
    let full: u16 = display_width_u16(label);
    let width: u16 = if full < area.width {
        full
    } else {
        area.width
    };
    Rect::new(area.x.saturating_add(area.width - width), area.y.saturating_add(1), width, 1)
}

/// Where the toggle of the panel's order is drawn.
pub fn agent_panel_toggle_rect(area: Rect, sort: AgentPanelSort) -> (out: Rect)
    ensures
        out == header_label(area, sort_label(sort)),
{
    agent_panel_header_label_rect(area, agent_panel_sort_label(sort))
}

/// A panel whose rows are coordinates.
pub open spec fn has_rows(area: Rect) -> bool {
    area.width == 0 || area.height <= AGENT_PANEL_HEADER_ROWS || area.end_y() <= u16::MAX
}

/// The part of the panel that scrolls.
pub open spec fn body_rect(area: Rect, has_scrollbar: bool) -> Rect {
    spaces::body_below(area, AGENT_PANEL_HEADER_ROWS as int, has_scrollbar)
}

/// The part of the panel that scrolls.
pub fn agent_panel_body_rect(area: Rect, has_scrollbar: bool) -> (out: Rect)
    requires
        has_rows(area),
    ensures
        out == body_rect(area, has_scrollbar),
        out.fits(),
        out.height < u16::MAX,
{
    if area.width == 0 || area.height <= AGENT_PANEL_HEADER_ROWS {
        return Rect { x: 0, y: 0, width: 0, height: 0 };
    }
    let body_y: u16 = area.y.saturating_add(AGENT_PANEL_HEADER_ROWS);
    let body_height: u16 = (area.y + area.height).saturating_sub(body_y);
    let body_width: u16 = area.width.saturating_sub(
        if has_scrollbar {
            1
        } else {
            0
        },
    );
    Rect::new(area.x, body_y, body_width, body_height)
}

/// What the state of an agent is called: as its plugins call it, else as usual.
pub open spec fn state_text(app: AppState, entry: AgentEntry) -> Seq<char> {
    let key = status_key(entry.state, entry.seen);
    if entry.state_labels.contains_key(key) {
        entry.state_labels[key]
    } else {
        app.status_theme.look(entry.state, entry.seen).label@
    }
}

/// The rows that the panel shows of an agent.
pub open spec fn rows_of(app: AppState, entry: AgentEntry) -> Seq<Seq<TokenView>> {
    tokens::entry_rows(app.sidebar_agents, entry, state_text(app, entry))
}

/// The rows that the panel shows of an agent.
pub fn resolved_agent_rows(app: &AppState, entry: &AgentPanelEntry) -> (out: Vec<
    Vec<ResolvedToken>,
>)
    ensures
        tokens::rows_view(out@) == rows_of(*app, entry@),
{
    let label: &str = match entry.state_labels.get(
        agent_panel_status_key(entry.state, entry.seen),
    ) {
        Some(label) => label.as_str(),
        None => app.status_theme.look(entry.state, entry.seen).label,
    };
    agent_rows(&app.sidebar_agents, entry, label)
}

/// The rows that an agent takes in a body of `body_height` rows.
pub open spec fn entry_height(app: AppState, entry: AgentEntry, body_height: int) -> int {
    geometry::min(
        geometry::min(geometry::max(rows_of(app, entry).len() as int, 1), u16::MAX as int),
        body_height,
    )
}

/// The rows that an agent takes in a body of `body_height` rows: at least one,
/// at most all of them.
pub fn agent_entry_height_in_body(app: &AppState, entry: &AgentPanelEntry, body_height: u16) -> (
    out: u16)
    ensures
        out == entry_height(*app, entry@, body_height as int),
{
    let rows: Vec<Vec<ResolvedToken>> = resolved_agent_rows(app, entry);
    assert(tokens::rows_view(rows@).len() == rows@.len());
    let height: u16 = if rows.len() < 1 {
        1
    } else if rows.len() < 0xffff {
        rows.len() as u16
    } else {
        0xffff
    };
    if height < body_height {
        height
    } else {
        body_height
    }
}

/// The empty rows behind the `idx`-th of `count` agents: none at the end.
pub open spec fn gap_behind(app: AppState, idx: int, count: int) -> int {
    if idx + 1 < count {
        app.sidebar_agents.row_gap as int
    } else {
        0
    }
}

/// The empty rows behind the `entry_idx`-th of `entry_count` agents.
pub fn agent_entry_gap(app: &AppState, entry_idx: usize, entry_count: usize) -> (out: u16)
    ensures
        out == gap_behind(*app, entry_idx as int, entry_count as int),
{
    if entry_idx < entry_count && entry_count - entry_idx > 1 {
        app.sidebar_agents.row_gap
    } else {
        0
    }
}

/// The rows that the agents of the panel take in a body of `body_height` rows.
pub open spec fn slots_of(app: AppState, body_height: int) -> Seq<Slot> {
    let list = shown_entries(app, Map::empty());
    Seq::new(
        list.len(),
        |idx: int|
            Slot {
                height: entry_height(app, list[idx], body_height) as u16,
                gap: gap_behind(app, idx, list.len() as int) as u16,
            },
    )
}

fn agent_slots(app: &AppState, body_height: u16) -> (out: Vec<Slot>)
    ensures
        out@ == slots_of(*app, body_height as int),
{
    broadcast use views::group_views;

    let list: Vec<AgentPanelEntry> = agent_panel_entries(app);
    let ghost all = slots_of(*app, body_height as int);
    let mut out: Vec<Slot> = Vec::new();
    let mut idx: usize = 0;
    assert(out@ =~= all.take(0));
    while idx < list.len()
        invariant
            idx <= list@.len(),
            views::of(list@) == shown_entries(*app, Map::empty()),
            all == slots_of(*app, body_height as int),
            out@ == all.take(idx as int),
        decreases list@.len() - idx,
    {
        assert(views::of(list@)[idx as int] == list@[idx as int]@);
        out.push(
            Slot {
                height: agent_entry_height_in_body(app, &list[idx], body_height),
                gap: agent_entry_gap(app, idx, list.len()),
            },
        );
        assert(all.take(idx + 1) =~= all.take(idx as int).push(all[idx as int]));
        idx = idx + 1;
    }
    assert(all.take(all.len() as int) =~= all);
    out
}

/// The rows that the agents take in the panel in `area`.
pub open spec fn panel_slots(app: AppState, area: Rect) -> Seq<Slot> {
    slots_of(app, body_rect(area, false).height as int)
}

/// How many agents are shown in the panel in `area`, scrolled by `scroll`.
pub open spec fn shown_agents(app: AppState, area: Rect, scroll: int) -> int {
    let body = body_rect(area, false);
    if body.width == 0 || body.height == 0 {
        0
    } else {
        packing::visible_count(panel_slots(app, area), body.height as int, scroll)
    }
}

/// How many agents are shown in the panel in `area`, scrolled by `scroll`.
pub fn agent_panel_visible_count_from(app: &AppState, area: Rect, scroll: usize) -> (out: usize)
    requires
        has_rows(area),
    ensures
        out == shown_agents(*app, area, scroll as int),
{
    let body: Rect = agent_panel_body_rect(area, false);
    if body.width == 0 || body.height == 0 {
        return 0;
    }
    let slots: Vec<Slot> = agent_slots(app, body.height);
    count_visible(&slots, body.height, scroll)
}

/// The agent that is first when the panel in `area` is scrolled to its end.
pub open spec fn last_scroll(app: AppState, area: Rect) -> int {
    packing::bottom_start(panel_slots(app, area), body_rect(area, false).height as int)
}

/// The agent that is first when the panel in `area` is scrolled to its end.
pub fn agent_panel_bottom_start(app: &AppState, area: Rect) -> (out: usize)
    requires
        has_rows(area),
    ensures
        out == last_scroll(*app, area),
{
    let body: Rect = agent_panel_body_rect(area, false);
    let slots: Vec<Slot> = agent_slots(app, body.height);
    find_bottom_start(&slots, body.height)
}

/// The scroll that reveals agent `target` in the panel in `area`.
pub open spec fn target_scroll(app: AppState, area: Rect, current: int, target: int) -> int {
    let body = body_rect(area, false);
    let most = last_scroll(app, area);
    if body.width == 0 || body.height == 0 {
        geometry::min(target, most)
    } else {
        packing::revealing_scroll(panel_slots(app, area), body.height as int, current, target)
    }
}

/// The scroll that reveals agent `target` in the panel in `area`, which is
/// scrolled by `current_scroll`.
pub fn agent_panel_scroll_for_target(
    app: &AppState,
    area: Rect,
    current_scroll: usize,
    target: usize,
) -> (out: usize)
    requires
        has_rows(area),
    ensures
        out == target_scroll(*app, area, current_scroll as int, target as int),
{
    let body: Rect = agent_panel_body_rect(area, false);
    let slots: Vec<Slot> = agent_slots(app, body.height);
    if body.width == 0 || body.height == 0 {
        let most: usize = find_bottom_start(&slots, body.height);
        return if target < most {
            target
        } else {
            most
        };
    }
    scroll_to_reveal(&slots, body.height, current_scroll, target)
}

/// The scroll state of the panel in `area`.
pub open spec fn panel_metrics(app: AppState, area: Rect) -> ScrollMetrics {
    let scroll = geometry::min(app.agent_panel_scroll as int, last_scroll(app, area));
    packing::metrics(
        panel_slots(app, area),
        body_rect(area, false).height as int,
        shown_agents(app, area, scroll),
        app.agent_panel_scroll as int,
    )
}

/// The scroll state of the panel in `area`.
pub fn agent_panel_scroll_metrics(app: &AppState, area: Rect) -> (out: ScrollMetrics)
    requires
        has_rows(area),
    ensures
        out == panel_metrics(*app, area),
{
    let most: usize = agent_panel_bottom_start(app, area);
    let scroll: usize = if app.agent_panel_scroll < most {
        app.agent_panel_scroll
    } else {
        most
    };
    let viewport_rows: usize = agent_panel_visible_count_from(app, area, scroll);
    ScrollMetrics {
        offset_from_bottom: most.saturating_sub(scroll),
        max_offset_from_bottom: most,
        viewport_rows,
    }
}

/// A list that scrolls has a scrollbar.
pub open spec fn needs_scrollbar(metrics: ScrollMetrics) -> bool {
    metrics.max_offset_from_bottom > 0
}

/// A list that scrolls has a scrollbar.
pub fn should_show_scrollbar(metrics: ScrollMetrics) -> (out: bool)
    ensures
        out == needs_scrollbar(metrics),
{
    metrics.max_offset_from_bottom > 0
}

/// Where the scrollbar of the panel is drawn, if it has one.
pub open spec fn scrollbar(app: AppState, area: Rect) -> Option<Rect> {
    let body = body_rect(area, true);
    if needs_scrollbar(panel_metrics(app, area)) && body.width > 0 && body.height > 0 {
        Some(
            geometry::rect(
                spaces::capped(area.x + area.width - 1),
                body.y as int,
                1,
                body.height as int,
            ),
        )
    } else {
        None
    }
}

/// Where the scrollbar of the panel is drawn, if it has one.
pub fn agent_panel_scrollbar_rect(app: &AppState, area: Rect) -> (out: Option<Rect>)
    requires
        has_rows(area),
    ensures
        out == scrollbar(*app, area),
        out == ({
            let body = body_rect(area, true);
            if needs_scrollbar(panel_metrics(*app, area)) && body.width > 0 && body.height > 0 {
                Some(
                    geometry::rect(
                        spaces::capped(area.x + area.width - 1),
                        body.y as int,
                        1,
                        body.height as int,
                    ),
                )
            } else {
                None
            }
        }),
{
    let metrics: ScrollMetrics = agent_panel_scroll_metrics(app, area);
    let body: Rect = agent_panel_body_rect(area, true);
    if should_show_scrollbar(metrics) && body.width > 0 && body.height > 0 {
        Some(
            Rect::new(
                area.x.saturating_add(area.width.saturating_sub(1)),
                body.y,
                1,
                body.height,
            ),
        )
    } else {
        None
    }
}

/// The panel can be packed: no agent is higher than the body, and behind the
/// last there is no gap.
pub proof fn lemma_panel_slots_fit(app: AppState, area: Rect)
    ensures
        packing::all_fit(panel_slots(app, area), body_rect(area, false).height as int),
        panel_slots(app, area).len() == shown_entries(app, Map::empty()).len(),
{
}

/// A panel that is scrolled to reveal an agent shows it, and is not scrolled
/// past the end, where the last agent is shown.
pub proof fn law_a_revealed_agent_is_shown(app: AppState, area: Rect, current: int, target: int)
    requires
        body_rect(area, false).width > 0,
        body_rect(area, false).height > 0,
        0 <= current,
        0 <= target < shown_entries(app, Map::empty()).len(),
    ensures
        ({
            let scroll = target_scroll(app, area, current, target);
            let most = last_scroll(app, area);
            &&& 0 <= scroll <= most
            &&& scroll <= target < scroll + shown_agents(app, area, scroll)
            &&& most + shown_agents(app, area, most) == shown_entries(app, Map::empty()).len()
        }),
{
    lemma_panel_slots_fit(app, area);
    let room = body_rect(area, false).height as int;
    packing::law_revealing_shows_the_target(panel_slots(app, area), room, current, target);
    packing::law_the_end_is_packed(panel_slots(app, area), room);
}

/// The entry of an agent tells of its space, its tab and its pane. The tab is
/// named where the space has several, or where the tab has a name of its own.
pub proof fn law_an_entry_tells_of_its_agent(
    ws: Workspace,
    ws_idx: int,
    names: Map<u64, String>,
    detail: PaneDetailView,
)
    requires
        0 <= detail.tab_idx < ws.tabs@.len(),
    ensures
        ({
            let entry = entry_of(ws, ws_idx, names, detail);
            let named = ws.tabs@[detail.tab_idx].custom_name is Some;
            &&& entry.ws_idx == ws_idx && entry.tab_idx == detail.tab_idx
            &&& entry.pane_id == detail.pane_id
            &&& entry.primary_label == workspace::display_name(ws, names)
            &&& ws.tabs@.len() > 1 || named ==> entry.primary_tab_label == Some(detail.tab_label)
            &&& ws.tabs@.len() == 1 && !named ==> entry.primary_tab_label is None
            &&& entry.agent_label == Some(detail.agent_label)
            &&& entry.pane_label == detail.pane_label
            &&& entry.terminal_title == detail.terminal_title
            &&& entry.terminal_title_stripped == detail.terminal_title_stripped
            &&& entry.agent_kind_label == detail.agent_kind_label
            &&& entry.agent == detail.agent
            &&& entry.state == detail.state && entry.seen == detail.seen
            &&& entry.last_agent_state_change_seq == detail.last_agent_state_change_seq
            &&& entry.state_labels == detail.state_labels && entry.tokens == detail.tokens
        }),
{
}

/// How many agents the first `n` spaces have.
pub open spec fn agents_in(app: AppState, n: nat) -> nat
    decreases n,
{
    if n == 0 {
        0
    } else {
        let tabs = app.workspaces@[n - 1].tabs@;
        agents_in(app, (n - 1) as nat) + workspace::details_of(
            tabs,
            workspace::panes_of(tabs, tabs.len()),
            app.terminals@,
        ).len()
    }
}

proof fn lemma_entries_to(app: AppState, names: Map<u64, String>, n: nat, i: int, k: int)
    requires
        n <= app.workspaces@.len(),
    ensures
        entries_to(app, names, n).len() == agents_in(app, n),
        0 <= i < n ==> {
            let ws = app.workspaces@[i];
            let mine = workspace::details_of(
                ws.tabs@,
                workspace::panes_of(ws.tabs@, ws.tabs@.len()),
                app.terminals@,
            );
            0 <= k < mine.len() ==> agents_in(app, i as nat) + k < entries_to(app, names, n).len()
                && entries_to(app, names, n)[agents_in(app, i as nat) + k] == entry_of(
                ws,
                i,
                names,
                mine[k],
            )
        },
    decreases n,
{
    if n > 0 {
        lemma_entries_to(app, names, (n - 1) as nat, i, k);
    }
}

/// The agents are listed space by space, those of a space in its own order.
pub proof fn law_agents_are_listed_space_by_space(
    app: AppState,
    names: Map<u64, String>,
    i: int,
    k: int,
)
    requires
        0 <= i < app.workspaces@.len(),
        0 <= k < workspace::details_of(
            app.workspaces@[i].tabs@,
            workspace::panes_of(app.workspaces@[i].tabs@, app.workspaces@[i].tabs@.len()),
            app.terminals@,
        ).len(),
    ensures
        ({
            let ws = app.workspaces@[i];
            let mine = workspace::details_of(
                ws.tabs@,
                workspace::panes_of(ws.tabs@, ws.tabs@.len()),
                app.terminals@,
            );
            let at = agents_in(app, i as nat) + k;
            let all = all_entries(app, names);
            &&& all.len() == agents_in(app, app.workspaces@.len())
            &&& at < all.len()
            &&& all[at] == entry_of(ws, i, names, mine[k])
        }),
{
    lemma_entries_to(app, names, app.workspaces@.len(), i, k);
}

/// A state is called as the plugins of its agent call it, and as usual where
/// they do not; an idle agent is done until it has been seen.
pub proof fn law_plugins_can_name_a_state(app: AppState, entry: AgentEntry)
    ensures
        ({
            let key = match entry.state {
                AgentState::Blocked => "blocked"@,
                AgentState::Working => "working"@,
                AgentState::Unknown => "unknown"@,
                AgentState::Idle => if entry.seen {
                    "idle"@
                } else {
                    "done"@
                },
            };
            let look = match entry.state {
                AgentState::Blocked => app.status_theme.blocked,
                AgentState::Working => app.status_theme.working,
                AgentState::Unknown => app.status_theme.unknown,
                AgentState::Idle => if entry.seen {
                    app.status_theme.idle
                } else {
                    app.status_theme.done
                },
            };
            &&& status_key(entry.state, entry.seen) == key
            &&& entry.state_labels.contains_key(key) ==> state_text(app, entry)
                == entry.state_labels[key]
            &&& !entry.state_labels.contains_key(key) ==> state_text(app, entry) == look.label@
        }),
{
}

/// A label of the panel's header ends at the right end of its second row, cut
/// where the panel is narrower than it.
pub proof fn law_header_labels_end_at_the_right(area: Rect, label: Seq<char>)
    requires
        area.fits(),
        area.width > 0,
        area.height >= 2,
    ensures
        ({
            let rect = header_label(area, label);
            &&& rect.end_x() == area.end_x()
            &&& rect.y == area.y + 1 && rect.height == 1
            &&& text::text_width(label) <= area.width ==> rect.width == text::text_width(label)
            &&& text::text_width(label) > area.width ==> rect.width == area.width
        }),
{
}

/// The panel scrolls below three rows of header, as wide as it is but for the
/// scrollbar.
pub proof fn law_the_panel_scrolls_below_its_header(area: Rect)
    requires
        area.fits(),
        area.width > 0,
    ensures
        area.height > 3 ==> {
            let body = body_rect(area, false);
            let narrow = body_rect(area, true);
            &&& body.x == area.x && body.width == area.width
            &&& body.y == area.y + 3 && body.end_y() == area.end_y()
            &&& narrow == (Rect { width: (area.width - 1) as u16, ..body })
        },
        area.height <= 3 ==> body_rect(area, false).height == 0,
{
}

/// An agent takes the rows that are shown of it, at least one and no more than
/// the body has; behind each but the last there is the gap of the panel.
pub proof fn law_agents_take_their_rows(app: AppState, area: Rect, idx: int)
    requires
        0 <= idx < shown_entries(app, Map::empty()).len(),
    ensures
        ({
            let list = shown_entries(app, Map::empty());
            let rows = rows_of(app, list[idx]).len();
            let body = body_rect(area, false);
            let slot = panel_slots(app, area)[idx];
            &&& 1 <= rows <= body.height ==> slot.height == rows
            &&& rows == 0 && body.height > 0 ==> slot.height == 1
            &&& rows > body.height ==> slot.height == body.height
            &&& idx < list.len() - 1 ==> slot.gap == app.sidebar_agents.row_gap
            &&& idx == list.len() - 1 ==> slot.gap == 0
        }),
{
}

/// A panel whose agents do not all fit has a scrollbar, in its last column and
/// beside its body, which leaves that column free; one whose agents fit has none.
pub proof fn law_a_panel_that_scrolls_has_a_scrollbar(app: AppState, area: Rect)
    requires
        area.fits(),
        area.width >= 2,
        area.height > 3,
        0 < shown_entries(app, Map::empty()).len() <= usize::MAX,
    ensures
        ({
            let slots = panel_slots(app, area);
            let body = body_rect(area, true);
            let all = packing::rows_between(slots, 0, slots.len() as int);
            &&& all > area.height - 3 ==> scrollbar(app, area) == Some(
                Rect {
                    x: (area.end_x() - 1) as u16,
                    y: (area.y + 3) as u16,
                    width: 1,
                    height: (area.height - 3) as u16,
                },
            ) && body.end_x() == area.end_x() - 1
            &&& all <= area.height - 3 ==> scrollbar(app, area) is None
        }),
{
    lemma_panel_slots_fit(app, area);
    let slots = panel_slots(app, area);
    let room = body_rect(area, false).height as int;
    packing::law_the_end_is_packed(slots, room);
    packing::law_the_end_is_the_first_start_that_fits(slots, room, 0);
    let scroll = geometry::min(app.agent_panel_scroll as int, last_scroll(app, area));
    packing::law_the_first_item_is_visible(slots, room, scroll);
    packing::law_the_scroll_state_counts_from_the_end(
        slots,
        room,
        shown_agents(app, area, scroll),
        app.agent_panel_scroll as int,
    );
}

/// The scroll state of the panel tells how far it is from its end, and how many
/// agents are shown.
pub proof fn law_the_panel_tells_how_far_it_is_scrolled(app: AppState, area: Rect)
    requires
        0 < shown_entries(app, Map::empty()).len() <= usize::MAX,
        body_rect(area, false).width > 0,
        body_rect(area, false).height > 0,
    ensures
        ({
            let most = last_scroll(app, area);
            let scroll = geometry::min(app.agent_panel_scroll as int, most);
            let state = panel_metrics(app, area);
            &&& state.max_offset_from_bottom == most
            &&& state.offset_from_bottom == most - scroll
            &&& state.viewport_rows == shown_agents(app, area, scroll)
        }),
{
    lemma_panel_slots_fit(app, area);
    let slots = panel_slots(app, area);
    let room = body_rect(area, false).height as int;
    packing::law_the_end_is_packed(slots, room);
    let scroll = geometry::min(app.agent_panel_scroll as int, last_scroll(app, area));
    packing::law_the_first_item_is_visible(slots, room, scroll);
    packing::law_the_scroll_state_counts_from_the_end(
        slots,
        room,
        shown_agents(app, area, scroll),
        app.agent_panel_scroll as int,
    );
}

/// The order of the panel is called by what it goes by, and a selection by its
/// own name or as filtered; without a selection there is no name.
pub proof fn law_the_header_names_order_and_selection(app: AppState)
    ensures
        sort_label(AgentPanelSort::Spaces) == "grouped"@,
        sort_label(AgentPanelSort::Priority) == "priority"@,
        app.agent_view_override is None ==> view_label(app) is None,
        app.agent_view_override matches Some(view) ==> {
            &&& view.label matches Some(label) ==> view_label(app) == Some(label@)
            &&& view.label is None ==> view_label(app) == Some("filtered"@)
        },
{
}

/// The panel shows an agent if its selection has the agent's pane, and all of
/// them without a selection. By priority those that call for more attention come
/// first; by spaces and without a selection they stand as the spaces do.
pub proof fn law_the_panel_shows_what_its_view_selects(
    app: AppState,
    names: Map<u64, String>,
    i: int,
    j: int,
)
    ensures
        ({
            let all = all_entries(app, names);
            let shown = shown_entries(app, names);
            let wanted = |entry: AgentEntry|
                app.agent_view_override matches Some(view) ==> view.panes@.contains(entry.pane_id);
            &&& 0 <= i < all.len() && wanted(all[i]) ==> shown.contains(all[i])
            &&& 0 <= i < shown.len() ==> wanted(shown[i])
            &&& app.agent_panel_sort is Priority && 0 <= i < j < shown.len() ==> {
                attention::priority(shown[i].state, shown[i].seen) >= attention::priority(
                    shown[j].state,
                    shown[j].seen,
                )
            }
            &&& app.agent_panel_sort is Spaces && app.agent_view_override is None ==> shown == all
        }),
{
    let all = all_entries(app, names);
    let shown = shown_entries(app, names);
    if 0 <= i < all.len() && (app.agent_view_override matches Some(view) ==> view.panes@.contains(
        all[i].pane_id,
    )) {
        agent_view::law_a_view_loses_no_agent(app, all, i);
    }
    if 0 <= i < shown.len() && app.agent_view_override is Some {
        agent_view::law_a_view_shows_its_panes_only(app, all, i);
    }
    if app.agent_panel_sort is Priority {
        agent_view::law_the_panel_is_ordered_by_attention(app, all);
        assert(agent_view::viewed(app, all) == shown);
    }
}

} // verus!
