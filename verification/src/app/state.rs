//! What the panels know of the application.

use std::collections::HashMap;

use vstd::prelude::*;

use crate::app::detail_panel::DetailPanelCache;
use crate::geometry;
use crate::geometry::Rect;
use crate::style::Palette;
use crate::ui::sidebar::tokens;
use crate::ui::sidebar::tokens::SidebarAgents;
use crate::ui::status::StatusTheme;
use crate::workspace::{PaneId, TerminalState, Workspace};

verus! {

/// What the keyboard is used for.
#[derive(Clone, Copy, Debug, PartialEq, Eq, Structural)]
pub enum Mode {
    /// Keys go to the terminal.
    Terminal,
    /// Keys move through the spaces.
    Navigate,
}

/// The order of the agent panel.
#[derive(Clone, Copy, Debug, PartialEq, Eq, Structural)]
pub enum AgentPanelSort {
    /// As the spaces stand.
    Spaces,
    /// What needs attention first.
    Priority,
}

/// A view of the agent panel that shows some panes only.
#[derive(Debug)]
pub struct AgentViewOverride {
    pub label: Option<String>,
    pub panes: Vec<PaneId>,
}

/// How the space list is laid out.
#[derive(Clone, Copy, Debug)]
pub struct SidebarSpaces {
    /// Empty rows between spaces.
    pub row_gap: u16,
}

/// Where a space is drawn.
#[derive(Clone, Copy, Debug, PartialEq, Eq, Structural)]
pub struct WorkspaceCardArea {
    pub ws_idx: usize,
    pub rect: Rect,
    pub indented: bool,
}

/// Where a tab is drawn.
#[derive(Clone, Copy, Debug, PartialEq, Eq, Structural)]
pub struct SidebarTabRow {
    pub ws_idx: usize,
    pub tab_idx: usize,
    pub rect: Rect,
}

/// What the mouse drags.
#[derive(Clone, Copy, Debug, PartialEq, Eq, Structural)]
pub enum DragTarget {
    /// A space, to a new place in the list.
    WorkspaceReorder { source_ws_idx: usize, insert_idx: Option<usize> },
    /// A tab, to a place in a space.
    SidebarTabMove {
        source_ws_idx: usize,
        target_ws_idx: Option<usize>,
        insert_idx: Option<usize>,
    },
}

/// A drag in progress.
#[derive(Clone, Copy, Debug, PartialEq, Eq, Structural)]
pub struct DragState {
    pub target: DragTarget,
}

/// Where the buttons of the sidebar's header are drawn.
#[derive(Clone, Copy, Debug, PartialEq, Eq, Structural)]
pub struct HeaderButtons {
    pub minimize: Rect,
    pub new_tab: Rect,
    pub new_space: Rect,
    pub menu: Rect,
    pub panel_toggle: Rect,
}

/// What the last layout pass computed.
#[derive(Debug)]
pub struct ViewState {
    pub workspace_card_areas: Vec<WorkspaceCardArea>,
    pub sidebar_tab_rows: Vec<SidebarTabRow>,
    pub header_buttons: HeaderButtons,
}

/// How far a list is scrolled.
#[derive(Clone, Copy, Debug, PartialEq, Eq, Structural)]
pub struct ScrollMetrics {
    pub offset_from_bottom: usize,
    pub max_offset_from_bottom: usize,
    pub viewport_rows: usize,
}

/// What the panels know of the application.
#[derive(Debug)]
pub struct AppState {
    pub workspaces: Vec<Workspace>,
    pub terminals: HashMap<u64, TerminalState>,
    pub active: Option<usize>,
    pub selected: usize,
    pub mode: Mode,
    pub palette: Palette,
    pub status_theme: StatusTheme,
    /// Whether the menu button calls for attention.
    pub menu_attention: bool,
    pub drag: Option<DragState>,
    pub view: ViewState,
    pub collapsed_space_keys: Vec<String>,
    pub sidebar_spaces: SidebarSpaces,
    pub sidebar_agents: SidebarAgents,
    pub workspace_scroll: usize,
    pub agent_panel_scroll: usize,
    pub agent_panel_sort: AgentPanelSort,
    pub agent_view_override: Option<AgentViewOverride>,
    pub detail_panel: Option<DetailPanelCache>,
    /// The exchange that the viewer is pinned to.
    pub detail_panel_pinned: Option<String>,
    pub detail_panel_cycle: usize,
    pub detail_panel_cycle_at: Option<u64>,
    pub detail_panel_scroll: usize,
    pub detail_panel_viewer_scroll: usize,
    pub detail_panel_viewer_shown: Option<String>,
    /// The subagents whose events are unfolded, by path.
    pub detail_panel_expanded: Vec<String>,
}

impl AppState {
    /// An application without a space.
    pub fn new(palette: Palette, status_theme: StatusTheme) -> (out: AppState)
        ensures
            out.workspaces@.len() == 0,
            out.terminals@ == Map::<u64, TerminalState>::empty(),
            out.active is None,
            out.selected == 0,
            out.mode is Terminal,
            out.palette == palette,
            out.status_theme == status_theme,
            !out.menu_attention,
            out.drag is None,
            out.view.workspace_card_areas@.len() == 0,
            out.view.sidebar_tab_rows@.len() == 0,
            out.view.header_buttons == (HeaderButtons {
                minimize: geometry::no_rect(),
                new_tab: geometry::no_rect(),
                new_space: geometry::no_rect(),
                menu: geometry::no_rect(),
                panel_toggle: geometry::no_rect(),
            }),
            out.collapsed_space_keys@.len() == 0,
            out.sidebar_spaces.row_gap == 0,
            out.sidebar_agents.row_gap == 0,
            out.sidebar_agents.rows@.len() == 1,
            out.sidebar_agents.rows@[0]@ == seq![tokens::AgentSidebarToken::Agent],
            out.sidebar_agents.rows_by_agent@.len() == 0,
            out.workspace_scroll == 0,
            out.agent_panel_scroll == 0,
            out.agent_panel_sort is Spaces,
            out.agent_view_override is None,
            out.detail_panel is None,
            out.detail_panel_pinned is None,
            out.detail_panel_cycle == 0,
            out.detail_panel_cycle_at is None,
            out.detail_panel_scroll == 0,
            out.detail_panel_viewer_scroll == 0,
            out.detail_panel_viewer_shown is None,
            out.detail_panel_expanded@.len() == 0,
    {
        let nowhere: Rect = Rect { x: 0, y: 0, width: 0, height: 0 };
        AppState {
            workspaces: Vec::new(),
            terminals: HashMap::new(),
            active: None,
            selected: 0,
            mode: Mode::Terminal,
            palette,
            status_theme,
            menu_attention: false,
            drag: None,
            view: ViewState {
                workspace_card_areas: Vec::new(),
                sidebar_tab_rows: Vec::new(),
                header_buttons: HeaderButtons {
                    minimize: nowhere,
                    new_tab: nowhere,
                    new_space: nowhere,
                    menu: nowhere,
                    panel_toggle: nowhere,
                },
            },
            collapsed_space_keys: Vec::new(),
            sidebar_spaces: SidebarSpaces { row_gap: 0 },
            sidebar_agents: SidebarAgents::new(),
            workspace_scroll: 0,
            agent_panel_scroll: 0,
            agent_panel_sort: AgentPanelSort::Spaces,
            agent_view_override: None,
            detail_panel: None,
            detail_panel_pinned: None,
            detail_panel_cycle: 0,
            detail_panel_cycle_at: None,
            detail_panel_scroll: 0,
            detail_panel_viewer_scroll: 0,
            detail_panel_viewer_shown: None,
            detail_panel_expanded: Vec::new(),
        }
    }
}

} // verus!
