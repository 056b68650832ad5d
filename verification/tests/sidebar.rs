use std::collections::HashMap;

use herdr::app::state::{
    AgentPanelSort, AgentViewOverride, AppState, DragState, DragTarget, Mode, ScrollMetrics,
    SidebarTabRow, WorkspaceCardArea,
};
use herdr::draw::DrawOp;
use herdr::geometry::Rect;
use herdr::metadata::TokenMap;
use herdr::style::{Color, Palette, Span, Style};
use herdr::text::display_width_u16;
use herdr::ui::sidebar::agents::{
    active_agent_view_label, agent_entry_gap, agent_entry_height_in_body, agent_panel_body_rect,
    agent_panel_entries, agent_panel_entries_from, agent_panel_scroll_for_target,
    agent_panel_scroll_metrics, agent_panel_scrollbar_rect, agent_panel_status_key,
    agent_panel_toggle_rect, agent_panel_visible_count_from, all_agent_panel_entries,
    resolved_agent_rows, should_show_scrollbar,
};
use herdr::ui::sidebar::attention::{
    space_aggregate_state, tab_attention, workspace_attention_priority,
};
use herdr::ui::sidebar::boxes::{draw_tab_line, phase_tint, space_rail_color};
use herdr::ui::sidebar::dash::{tab_dashboards, TabDashRow};
use herdr::ui::sidebar::entries::{
    workspace_list_entries, workspace_list_entries_expanded, WorkspaceListEntry,
};
use herdr::ui::sidebar::layout::{
    collapsed_minimize_button_rect, collapsed_sidebar_toggle_rect, collapsed_tab_boxes,
    expanded_sidebar_sections, expanded_sidebar_toggle_rect, sidebar_section_divider_rect,
    sidebar_section_heights, sidebar_tab_drop_indicator_row, workspace_drop_indicator_row,
};
use herdr::ui::sidebar::render::{
    render_sidebar, render_sidebar_collapsed, render_sidebar_toggle, render_workspace_list,
};
use herdr::ui::sidebar::spaces::{
    compute_workspace_card_areas, compute_workspace_list_areas, grouped_child_display_label,
    normalized_workspace_scroll, workspace_list_body_rect, workspace_list_rect,
    workspace_list_scroll_metrics, workspace_list_scrollbar_rect, workspace_list_visible_count,
    workspace_parent_group_state, workspace_row_height,
};
use herdr::ui::sidebar::spans::{apply_token_style, resolved_token_spans};
use herdr::ui::sidebar::tokens::{
    AgentRows, AgentSidebarToken, ResolvedToken, ResolvedTokenKind, SidebarTokenStyle,
};
use herdr::ui::status::{StatusLook, StatusTheme};
use herdr::ui::wrap::{line_tint_at, wrap_prose};
use herdr::workspace::{
    Agent, AgentState, GitSpaceMetadata, Pane, PaneId, Tab, TerminalRuntimeRegistry,
    TerminalState, Workspace, WorktreeSpaceMembership,
};
use ratatui::widgets::Widget;

fn palette() -> Palette {
    Palette {
        accent: Color::Rgb(1, 0, 0),
        text: Color::Rgb(2, 0, 0),
        subtext0: Color::Rgb(3, 0, 0),
        overlay0: Color::Rgb(4, 0, 0),
        overlay1: Color::Rgb(5, 0, 0),
        surface0: Color::Rgb(6, 0, 0),
        surface1: Color::Rgb(7, 0, 0),
        surface_dim: Color::Rgb(8, 0, 0),
        red: Color::Rgb(9, 0, 0),
        green: Color::Rgb(10, 0, 0),
        yellow: Color::Rgb(11, 0, 0),
        blue: Color::Rgb(12, 0, 0),
        mauve: Color::Rgb(13, 0, 0),
    }
}

fn theme() -> StatusTheme {
    let look = |icon, label| StatusLook {
        icon,
        style: Style::plain().fg(palette().green),
        label,
    };
    StatusTheme {
        blocked: look("◆", "blocked"),
        working: look("●", "working"),
        done: look("●", "done"),
        idle: look("○", "idle"),
        unknown: look("·", "unknown"),
    }
}

fn test_app() -> AppState {
    let mut app = AppState::new(palette(), theme());
    app.mode = Mode::Navigate;
    app
}

fn test_tab(name: Option<&str>) -> Tab {
    Tab {
        custom_name: name.map(str::to_string),
        panes: vec![Pane {
            id: PaneId(0),
            attached_terminal_id: 0,
            seen: true,
            label: None,
        }],
        metadata_tokens: TokenMap::new(),
    }
}

fn test_space(name: &str) -> Workspace {
    Workspace {
        custom_name: Some(name.to_string()),
        identity_name: name.to_string(),
        root_terminal: None,
        tabs: vec![test_tab(None)],
        active_tab: 0,
        focused_pane: None,
        metadata_tokens: TokenMap::new(),
        worktree_space: None,
        cached_git_space: None,
        cached_git_branch: None,
    }
}

fn spaces(names: &[&str]) -> Vec<Workspace> {
    names.iter().map(|name| test_space(name)).collect()
}

/// Numbers the panes and gives each a terminal of its own.
fn ensure_terminals(app: &mut AppState) {
    let mut id = 0;
    for ws in &mut app.workspaces {
        for (tab_idx, tab) in ws.tabs.iter_mut().enumerate() {
            for (pane_idx, pane) in tab.panes.iter_mut().enumerate() {
                id += 1;
                pane.id = PaneId(id);
                pane.attached_terminal_id = 1_000 + id;
                if tab_idx == 0 && pane_idx == 0 {
                    ws.root_terminal = Some(1_000 + id);
                }
                app.terminals.insert(1_000 + id, TerminalState::new());
            }
        }
    }
}

fn terminal(app: &mut AppState, ws_idx: usize, tab_idx: usize) -> &mut TerminalState {
    let id = app.workspaces[ws_idx].tabs[tab_idx].panes[0].attached_terminal_id;
    app.terminals.get_mut(&id).unwrap()
}

fn detect(app: &mut AppState, ws_idx: usize, tab_idx: usize, agent: Agent) {
    let terminal = terminal(app, ws_idx, tab_idx);
    terminal.detected_agent = Some(agent);
    terminal.agent_kind_label = Some(format!("{agent:?}").to_lowercase());
}

fn worktree_space(name: &str, key: Option<&str>, checkout: &str) -> Workspace {
    let mut ws = test_space(name);
    if let Some(key) = key {
        ws.worktree_space = Some(WorktreeSpaceMembership {
            key: key.into(),
            label: "herdr".into(),
            repo_root: "/repo/herdr".into(),
            checkout_path: checkout.into(),
            is_linked_worktree: name != "main",
        });
    }
    ws
}

fn git_space(name: &str, key: &str) -> Workspace {
    let mut ws = test_space(name);
    ws.cached_git_space = Some(GitSpaceMetadata {
        key: key.into(),
        checkout_key: format!("/repo/{name}"),
        label: "herdr".into(),
        repo_root: format!("/repo/{name}"),
        is_linked_worktree: false,
    });
    ws
}

fn entry(ws_idx: usize, indented: bool) -> WorkspaceListEntry {
    WorkspaceListEntry::Workspace { ws_idx, indented }
}

fn set(tokens: &mut TokenMap, name: &str, value: &str) {
    tokens.insert(name.to_string(), value.to_string());
}

/// The rows that a share of `ratio` asks of a sidebar of `height` rows.
fn split_rows(height: u16, ratio: f32) -> u16 {
    (f32::from(height) * ratio.clamp(0.1, 0.9)).round() as u16
}

fn to_color(color: Color) -> ratatui::style::Color {
    match color {
        Color::Rgb(r, g, b) => ratatui::style::Color::Rgb(r, g, b),
        other => panic!("unexpected color {other:?}"),
    }
}

fn to_style(style: Style) -> ratatui::style::Style {
    let mut out = ratatui::style::Style::default();
    if let Some(fg) = style.fg {
        out = out.fg(to_color(fg));
    }
    if let Some(bg) = style.bg {
        out = out.bg(to_color(bg));
    }
    for (flag, modifier) in [
        (style.bold, ratatui::style::Modifier::BOLD),
        (style.dim, ratatui::style::Modifier::DIM),
    ] {
        match flag {
            Some(true) => out = out.add_modifier(modifier),
            Some(false) => out = out.remove_modifier(modifier),
            None => {}
        }
    }
    out
}

fn drawn(ops: &[DrawOp], width: u16, height: u16) -> ratatui::buffer::Buffer {
    let mut buf = ratatui::buffer::Buffer::empty(ratatui::layout::Rect::new(0, 0, width, height));
    for op in ops {
        match op {
            DrawOp::Symbol { area, symbol } => {
                for y in area.y..area.y + area.height {
                    for x in area.x..area.x + area.width {
                        buf[(x, y)].set_symbol(symbol);
                    }
                }
            }
            DrawOp::Paint { area, style } => {
                for y in area.y..area.y + area.height {
                    for x in area.x..area.x + area.width {
                        buf[(x, y)].set_style(to_style(*style));
                    }
                }
            }
            DrawOp::Text { x, y, text, style } => {
                buf.set_string(*x, *y, text, to_style(*style));
            }
            DrawOp::Lines { area, lines, scroll, centered } => {
                let lines: Vec<ratatui::text::Line> = lines
                    .iter()
                    .map(|line| {
                        ratatui::text::Line::from(
                            line.spans
                                .iter()
                                .map(|span| {
                                    ratatui::text::Span::styled(
                                        span.content.clone(),
                                        to_style(span.style),
                                    )
                                })
                                .collect::<Vec<_>>(),
                        )
                    })
                    .collect();
                let alignment = if *centered {
                    ratatui::layout::Alignment::Center
                } else {
                    ratatui::layout::Alignment::Left
                };
                ratatui::widgets::Paragraph::new(lines)
                    .scroll((*scroll, 0))
                    .alignment(alignment)
                    .render(
                        ratatui::layout::Rect::new(area.x, area.y, area.width, area.height),
                        &mut buf,
                    );
            }
        }
    }
    buf
}

fn row_text(buffer: &ratatui::buffer::Buffer, row: u16, width: u16) -> String {
    (0..width)
        .map(|x| buffer[(x, row)].symbol())
        .collect::<String>()
        .trim_end()
        .to_string()
}

fn find_symbol_x(buffer: &ratatui::buffer::Buffer, row: u16, width: u16, symbol: &str) -> u16 {
    (0..width)
        .find(|x| buffer[(*x, row)].symbol() == symbol)
        .unwrap_or_else(|| {
            panic!(
                "missing symbol {symbol:?} in row {}",
                row_text(buffer, row, width)
            )
        })
}

fn spans_text(spans: &[Span]) -> String {
    spans.iter().map(|span| span.content.as_str()).collect()
}

fn plain_row(tokens: Vec<ResolvedToken>, icon: &str, max_width: usize) -> Vec<Span> {
    let plain = Style::plain();
    resolved_token_spans(
        &tokens,
        (icon, plain),
        plain,
        plain,
        plain,
        plain,
        &palette(),
        max_width,
    )
}

#[test]
fn default_space_workspace_style_tracks_active_state() {
    let mut app = test_app();
    app.workspaces = spaces(&["one", "two"]);
    app.active = Some(0);
    app.mode = Mode::Terminal;
    let area = Rect::new(0, 0, 26, 20);
    app.view.workspace_card_areas = compute_workspace_card_areas(&app, area);
    let first_row = app.view.workspace_card_areas[0].rect.y;
    let second_row = app.view.workspace_card_areas[1].rect.y;
    let ops = render_sidebar(&app, &TerminalRuntimeRegistry::new(), area, Some(0));
    let buffer = drawn(&ops, 26, 20);

    // spaces carry no titles; each tab is a bordered box behind a rail, and
    // the active tab's whole box, borders included, gets the backdrop
    assert_eq!(buffer[(0, first_row)].symbol(), "▌");
    assert_eq!(buffer[(1, first_row)].symbol(), "▛");

    let active_tab_row = first_row + 1;
    let tab = buffer[(find_symbol_x(&buffer, active_tab_row, 25, "s"), active_tab_row)].style();
    assert_eq!(tab.fg, Some(to_color(app.palette.text)));
    assert_eq!(tab.bg, Some(to_color(app.palette.surface_dim)));
    let active_border = buffer[(1, first_row)].style();
    assert_eq!(active_border.bg, Some(to_color(app.palette.surface_dim)));

    let idle_tab_row = second_row + 1;
    let idle = buffer[(find_symbol_x(&buffer, idle_tab_row, 25, "s"), idle_tab_row)].style();
    assert_eq!(idle.fg, Some(to_color(app.palette.text)));
    assert_eq!(idle.bg, Some(ratatui::style::Color::Reset));
}

#[test]
fn occurrence_foreground_flattens_composite_git_status_colors() {
    let spans = plain_row(
        vec![ResolvedToken {
            kind: ResolvedTokenKind::GitStatus { ahead: 2, behind: 1 },
            style: SidebarTokenStyle {
                fg: Some(Color::Rgb(0x12, 0x34, 0x56)),
                bold: None,
                dim: None,
            },
        }],
        "",
        20,
    );

    assert_eq!(spans_text(&spans), "↑2 ↓1");
    assert!(spans
        .iter()
        .all(|span| { span.style.fg == Some(Color::Rgb(0x12, 0x34, 0x56)) }));
}

#[test]
fn stripped_terminal_title_renders_with_unicode_width_truncation() {
    let spans = plain_row(
        vec![ResolvedToken::unstyled(ResolvedTokenKind::TerminalTitle(
            "修复🙂标题很长".into(),
        ))],
        "",
        8,
    );
    let text = spans_text(&spans);
    assert!(display_width_u16(&text) <= 8, "resolved title: {text:?}");
}

#[test]
fn variable_agent_heights_pack_the_bottom_and_reveal_targets() {
    let mut app = test_app();
    app.workspaces = spaces(&["one", "two", "three"]);
    ensure_terminals(&mut app);
    for ws_idx in 0..3 {
        detect(&mut app, ws_idx, 0, Agent::Pi);
    }
    let tokens = &mut terminal(&mut app, 0, 0).metadata_tokens;
    set(tokens, "a", "a");
    set(tokens, "b", "b");
    app.sidebar_agents.rows = vec![
        vec![AgentSidebarToken::Agent],
        vec![AgentSidebarToken::Custom("a".into())],
        vec![AgentSidebarToken::Custom("b".into())],
    ];
    let area = Rect::new(0, 0, 20, 6);

    let metrics = agent_panel_scroll_metrics(&app, area);
    assert_eq!(metrics.max_offset_from_bottom, 1);
    assert_eq!(agent_panel_scroll_for_target(&app, area, 0, 2), 1);
}

#[test]
fn oversized_space_layout_is_clipped_to_the_section_body() {
    let mut app = test_app();
    let mut big = test_space("one");
    for i in 0..12 {
        big.tabs.push(test_tab(Some(&format!("tab-{i}"))));
    }
    app.workspaces = vec![big, test_space("two")];
    let area = Rect::new(0, 0, 20, 10);
    let workspace_area = workspace_list_rect(area);
    let body = workspace_list_body_rect(workspace_area, false);

    let metrics = workspace_list_scroll_metrics(&app, workspace_area);
    let (cards, _) = compute_workspace_list_areas(&app, area);

    assert_eq!(metrics.viewport_rows, 1);
    assert_eq!(cards.len(), 1);
    assert_eq!(cards[0].ws_idx, 0);
    assert_eq!(cards[0].rect.height, body.height);
}

#[test]
fn oversized_agent_override_is_clipped_to_the_panel_body() {
    let mut app = test_app();
    app.workspaces = spaces(&["one"]);
    ensure_terminals(&mut app);
    detect(&mut app, 0, 0, Agent::Claude);
    app.sidebar_agents.rows_by_agent.push(AgentRows {
        agent: Agent::Claude,
        rows: vec![vec![AgentSidebarToken::Agent]; 6],
    });
    let panel = Rect::new(0, 0, 20, 5);

    let metrics = agent_panel_scroll_metrics(&app, panel);

    assert_eq!(metrics.viewport_rows, 1);
    assert_eq!(metrics.max_offset_from_bottom, 0);
    let entry = agent_panel_entries(&app).pop().unwrap();
    assert_eq!(
        agent_entry_height_in_body(&app, &entry, agent_panel_body_rect(panel, false).height),
        agent_panel_body_rect(panel, false).height
    );
}

#[test]
fn render_sidebar_toggle_draws_expanded_collapse_icon() {
    let app = test_app();
    let area = Rect::new(0, 0, 26, 20);
    let buffer = drawn(&render_sidebar_toggle(&app, area, false), 26, 20);

    let toggle = expanded_sidebar_toggle_rect(area);
    assert_eq!(buffer[(toggle.x, toggle.y)].symbol(), "«");
}

#[test]
fn expanded_sidebar_toggle_sits_inside_sidebar_content() {
    let area = Rect::new(0, 0, 26, 20);
    let toggle = expanded_sidebar_toggle_rect(area);

    assert_eq!(toggle.x, area.x + area.width - 2);
    assert_eq!(toggle.y, area.y + area.height - 1);
}

#[test]
fn agent_panel_tab_label_visibility_tracks_tab_identity() {
    let mut app = test_app();
    let single_auto = test_space("auto");
    let mut single_custom = test_space("custom");
    single_custom.tabs[0].custom_name = Some("focus".into());
    let mut multi = test_space("multi");
    multi.tabs.push(test_tab(Some("logs")));

    app.workspaces = vec![single_auto, single_custom, multi];
    ensure_terminals(&mut app);
    for (ws_idx, tab_idx, agent) in [
        (0, 0, Agent::Pi),
        (1, 0, Agent::Claude),
        (2, 0, Agent::Codex),
        (2, 1, Agent::Pi),
    ] {
        detect(&mut app, ws_idx, tab_idx, agent);
    }

    let entries = agent_panel_entries(&app);
    let labels: Vec<_> = entries
        .iter()
        .map(|entry| {
            (
                entry.primary_label.as_str(),
                entry.primary_tab_label.as_deref(),
            )
        })
        .collect();

    assert_eq!(
        labels,
        [
            ("auto", None),
            ("custom", Some("focus")),
            ("multi", Some("1")),
            ("multi", Some("logs")),
        ]
    );
}

fn priority_app() -> AppState {
    let mut app = test_app();
    app.workspaces = spaces(&["one", "two", "three", "four"]);
    ensure_terminals(&mut app);
    app.active = Some(0);
    app.selected = 0;
    app.agent_panel_sort = AgentPanelSort::Priority;
    for (ws_idx, state) in [
        (0, AgentState::Working),
        (1, AgentState::Idle),
        (2, AgentState::Working),
        (3, AgentState::Blocked),
    ] {
        detect(&mut app, ws_idx, 0, Agent::Claude);
        terminal(&mut app, ws_idx, 0).state = state;
    }
    app.workspaces[1].tabs[0].panes[0].seen = false;
    app
}

fn labels(app: &AppState) -> Vec<String> {
    agent_panel_entries(app)
        .into_iter()
        .map(|entry| entry.primary_label)
        .collect()
}

#[test]
fn priority_agent_panel_sort_uses_attention_then_space_order() {
    let app = priority_app();
    assert_eq!(labels(&app), ["four", "two", "one", "three"]);
}

#[test]
fn collapsed_sidebar_draws_a_dot_box_per_tab() {
    let mut app = test_app();
    app.workspaces = spaces(&["one", "two"]);
    ensure_terminals(&mut app);
    app.sidebar_spaces.row_gap = 1;

    detect(&mut app, 0, 0, Agent::Claude);
    terminal(&mut app, 0, 0).state = AgentState::Working;

    let area = Rect::new(0, 0, 7, 20);
    let boxes = collapsed_tab_boxes(&app, area);
    assert_eq!(boxes.len(), 2);
    assert_eq!(boxes[0].rect, Rect::new(0, 5, 6, 3));
    assert_eq!(boxes[1].rect.y, 9);

    let buffer = drawn(&render_sidebar_collapsed(&app, area), area.width, area.height);
    assert_eq!(buffer[(3, 2)].symbol(), "◧");
    assert_eq!(buffer[(0, 5)].symbol(), "▌");
    // the active tab's filled box wears the half-block frame
    assert_eq!(buffer[(1, 5)].symbol(), "▛");
    assert_eq!(buffer[(5, 7)].symbol(), "▟");
    assert_eq!(buffer[(3, 6)].symbol(), "●");
}

#[test]
fn collapsed_sidebar_active_tab_box_gets_backdrop() {
    let mut app = test_app();
    app.workspaces = spaces(&["one", "two"]);
    ensure_terminals(&mut app);
    app.active = Some(1);
    app.selected = 0;
    app.mode = Mode::Terminal;

    let area = Rect::new(0, 0, 7, 20);
    let boxes = collapsed_tab_boxes(&app, area);
    let active_box = boxes.iter().find(|b| b.ws_idx == 1).unwrap().rect;
    let idle_box = boxes.iter().find(|b| b.ws_idx == 0).unwrap().rect;

    let buffer = drawn(&render_sidebar_collapsed(&app, area), area.width, area.height);
    let active = buffer[(active_box.x + 2, active_box.y + 1)].style();
    assert_eq!(active.bg, Some(to_color(app.palette.surface_dim)));
    let idle = buffer[(idle_box.x + 2, idle_box.y + 1)].style();
    assert_ne!(idle.bg, Some(to_color(app.palette.surface_dim)));
}

#[test]
fn all_workspaces_agent_panel_entries_prefer_agent_names_for_agent_identity() {
    let mut app = test_app();
    app.workspaces = spaces(&["bridge"]);
    ensure_terminals(&mut app);
    detect(&mut app, 0, 0, Agent::Pi);
    terminal(&mut app, 0, 0).agent_name = Some("planner".into());
    app.active = Some(0);
    app.selected = 0;

    let entries = agent_panel_entries(&app);
    assert_eq!(entries[0].primary_label, "bridge");
    assert_eq!(entries[0].agent_label.as_deref(), Some("planner"));
}

#[test]
fn expanded_sidebar_sections_handle_tiny_heights() {
    let (ws_area, detail_area) =
        expanded_sidebar_sections(Rect::new(0, 0, 20, 5), split_rows(5, 0.9));

    assert_eq!(ws_area, Rect::new(0, 0, 19, 3));
    assert_eq!(detail_area, Rect::new(0, 3, 19, 2));
}

#[test]
fn sidebar_section_divider_is_hidden_for_tiny_heights() {
    let divider = sidebar_section_divider_rect(Rect::new(0, 0, 20, 5), split_rows(5, 0.5));

    assert_eq!(divider, Rect::default());
}

#[test]
fn grouped_child_label_keeps_custom_workspace_name() {
    assert_eq!(
        grouped_child_display_label("renamed issue", Some("worktree/issue-137"), true),
        "renamed issue"
    );
}

#[test]
fn grouped_child_label_uses_short_branch_for_auto_named_workspace() {
    assert_eq!(
        grouped_child_display_label("herdr-issue", Some("worktree/issue-137"), false),
        "issue-137"
    );
}

#[test]
fn workspace_list_truncates_cjk_branch_without_panic() {
    let mut app = test_app();
    let mut ws = test_space("repo");
    ws.cached_git_branch = Some("feature/中文-分支-644".into());
    app.workspaces = vec![ws];
    app.active = Some(0);
    app.selected = 0;
    app.mode = Mode::Terminal;
    app.view.workspace_card_areas = vec![WorkspaceCardArea {
        ws_idx: 0,
        rect: Rect::new(0, 1, 15, 2),
        indented: false,
    }];

    let runtimes = TerminalRuntimeRegistry::new();
    let ops = render_workspace_list(&app, &runtimes, Rect::new(0, 0, 15, 6), false, Some(0));
    drawn(&ops, 15, 6);
}

#[test]
fn parent_workspace_row_stays_clickable_when_grouped() {
    let mut app = test_app();
    app.workspaces = vec![
        worktree_space("main", Some("repo-key"), "/repo/herdr"),
        worktree_space("issue", Some("repo-key"), "/repo/herdr-issue"),
    ];
    app.sidebar_spaces.row_gap = 1;

    let (cards, _) = compute_workspace_list_areas(&app, Rect::new(0, 0, 30, 20));

    assert_eq!(cards[0].ws_idx, 0);
    assert!(!cards[0].indented);
    assert_eq!(cards[1].ws_idx, 1);
    assert!(cards[1].indented);
    assert_eq!(cards[1].rect.y, cards[0].rect.y + cards[0].rect.height + 1);
}

#[test]
fn space_row_gap_preserves_compact_worktree_children() {
    let mut app = test_app();
    app.workspaces = vec![
        worktree_space("main", Some("repo-key"), "/repo/herdr"),
        worktree_space("issue", Some("repo-key"), "/repo/herdr-issue"),
        worktree_space("review", Some("repo-key"), "/repo/herdr-review"),
        test_space("notes"),
    ];
    app.sidebar_spaces.row_gap = 2;

    let (spacious, _) = compute_workspace_list_areas(&app, Rect::new(0, 0, 30, 30));
    assert_eq!(
        spacious[1].rect.y,
        spacious[0].rect.y + spacious[0].rect.height + 2
    );
    assert_eq!(
        spacious[2].rect.y,
        spacious[1].rect.y + spacious[1].rect.height
    );
    assert_eq!(
        spacious[3].rect.y,
        spacious[2].rect.y + spacious[2].rect.height + 2
    );
    let spacious_metrics = workspace_list_scroll_metrics(&app, Rect::new(0, 0, 30, 16));
    assert_eq!(spacious_metrics.viewport_rows, 2);
    assert_eq!(spacious_metrics.max_offset_from_bottom, 2);

    app.sidebar_spaces.row_gap = 0;
    let (packed, _) = compute_workspace_list_areas(&app, Rect::new(0, 0, 30, 30));
    assert!(packed
        .windows(2)
        .all(|pair| pair[1].rect.y == pair[0].rect.y + pair[0].rect.height));
    let packed_metrics = workspace_list_scroll_metrics(&app, Rect::new(0, 0, 30, 16));
    assert_eq!(packed_metrics.viewport_rows, 2);
    assert_eq!(packed_metrics.max_offset_from_bottom, 1);
}

#[test]
fn bottom_space_that_part_fits_still_fills_remaining_rows() {
    let mut app = test_app();
    app.workspaces = spaces(&["one", "two"]);
    app.sidebar_spaces.row_gap = 1;

    let (cards, tabs) = compute_workspace_list_areas(&app, Rect::new(0, 0, 30, 11));

    assert_eq!(cards.len(), 2);
    assert_eq!(cards[1].rect.height, 2);
    assert_eq!(tabs.last().unwrap().rect.height, 2);
}

#[test]
fn packed_workspace_drag_indicator_overlays_an_internal_boundary() {
    let mut app = test_app();
    app.workspaces = spaces(&["a", "b", "c"]);
    app.sidebar_spaces.row_gap = 0;
    let area = Rect::new(0, 0, 30, 20);
    app.view.workspace_card_areas = compute_workspace_card_areas(&app, area);
    let list_area = workspace_list_rect(area);
    let indicator_row =
        workspace_drop_indicator_row(&app.view.workspace_card_areas, list_area, 2).unwrap();
    assert_eq!(indicator_row, app.view.workspace_card_areas[2].rect.y - 1);
    app.drag = Some(DragState {
        target: DragTarget::WorkspaceReorder {
            source_ws_idx: 0,
            insert_idx: Some(2),
        },
    });

    let ops = render_workspace_list(
        &app,
        &TerminalRuntimeRegistry::new(),
        list_area,
        false,
        Some(0),
    );
    let buffer = drawn(&ops, area.width, area.height);

    assert_eq!(buffer[(list_area.x, indicator_row)].symbol(), "─");
}

#[test]
fn linked_only_worktree_members_do_not_form_parentless_group() {
    let mut app = test_app();
    app.workspaces = vec![
        worktree_space("issue", Some("repo-key"), "/repo/herdr-issue"),
        worktree_space("review", Some("repo-key"), "/repo/herdr-review"),
    ];

    assert_eq!(
        workspace_list_entries(&app),
        vec![entry(0, false), entry(1, false)]
    );
}

#[test]
fn compact_space_group_scroll_clamps_when_all_entries_fit() {
    let mut app = test_app();
    app.workspaces = vec![
        worktree_space("main", Some("repo-key"), "/repo/herdr"),
        worktree_space("one", Some("repo-key"), "/repo/herdr-one"),
        worktree_space("two", Some("repo-key"), "/repo/herdr-two"),
    ];
    let area = Rect::new(0, 0, 30, 20);
    app.workspace_scroll = normalized_workspace_scroll(&app, area, 2);

    let (cards, _) = compute_workspace_list_areas(&app, area);

    assert_eq!(app.workspace_scroll, 0);
    assert_eq!(cards.len(), 3);
    assert_eq!(cards[2].ws_idx, 2);
}

#[test]
fn workspace_scroll_metrics_count_display_entries_not_raw_workspaces() {
    let mut app = test_app();
    app.workspaces = vec![
        worktree_space("main", Some("repo-key"), "/repo/herdr"),
        worktree_space("issue", Some("repo-key"), "/repo/herdr-issue"),
        test_space("notes"),
    ];
    for workspace in &mut app.workspaces {
        workspace.cached_git_branch = Some("main".into());
    }
    app.collapsed_space_keys.push("repo-key".into());
    app.active = None;
    app.mode = Mode::Terminal;

    let ws_area = Rect::new(0, 0, 30, 6);
    let metrics = workspace_list_scroll_metrics(&app, ws_area);

    assert_eq!(metrics.viewport_rows, 1);
    assert_eq!(metrics.max_offset_from_bottom, 1);
    assert_eq!(metrics.offset_from_bottom, 1);
}

#[test]
fn workspace_scroll_offset_applies_to_group_children() {
    let mut app = test_app();
    app.workspaces = vec![
        worktree_space("main", Some("repo-key"), "/repo/herdr"),
        worktree_space("issue", Some("repo-key"), "/repo/herdr-issue"),
        test_space("notes"),
    ];
    app.collapsed_space_keys.push("repo-key".into());
    app.active = None;
    app.mode = Mode::Terminal;
    app.workspace_scroll = 1;

    let (cards, tab_rows) = compute_workspace_list_areas(&app, Rect::new(0, 0, 30, 12));

    assert_eq!(cards.len(), 1);
    assert_eq!(cards[0].ws_idx, 2);
    assert!(tab_rows.iter().all(|row| row.ws_idx == 2));
}

#[test]
fn workspace_list_entries_group_multiple_workspaces_in_same_git_space() {
    let mut app = test_app();
    app.workspaces = vec![
        worktree_space("main", Some("repo-key"), "/repo/herdr"),
        worktree_space("issue", Some("repo-key"), "/repo/herdr-issue"),
    ];

    assert_eq!(
        workspace_list_entries(&app),
        vec![entry(0, false), entry(1, true)]
    );
}

#[test]
fn workspace_list_entries_group_non_contiguous_explicit_members() {
    let mut app = test_app();
    app.workspaces = vec![
        worktree_space("main", Some("repo-key"), "/repo/herdr"),
        git_space("normal", "other-key"),
        worktree_space("issue", Some("repo-key"), "/repo/herdr-issue"),
    ];

    assert_eq!(
        workspace_list_entries(&app),
        vec![entry(0, false), entry(2, true), entry(1, false)]
    );
}

#[test]
fn workspace_list_entries_do_not_group_normal_git_workspaces() {
    let mut app = test_app();
    app.workspaces = vec![git_space("one", "repo-key"), git_space("two", "repo-key")];

    assert_eq!(
        workspace_list_entries(&app),
        vec![entry(0, false), entry(1, false)]
    );
}

#[test]
fn workspace_list_entries_do_not_auto_attach_normal_git_workspace_to_group() {
    let mut app = test_app();
    app.workspaces = vec![
        worktree_space("main", Some("repo-key"), "/repo/herdr"),
        git_space("scratch", "repo-key"),
        worktree_space("issue", Some("repo-key"), "/repo/herdr-issue"),
    ];

    assert_eq!(
        workspace_list_entries(&app),
        vec![entry(0, false), entry(2, true), entry(1, false)]
    );
}

#[test]
fn workspace_list_entries_leave_single_git_and_non_git_workspaces_flat() {
    let mut app = test_app();
    app.workspaces = vec![
        git_space("one", "repo-key"),
        worktree_space("notes", None, "/notes"),
    ];

    assert_eq!(
        workspace_list_entries(&app),
        vec![entry(0, false), entry(1, false)]
    );
}

#[test]
fn collapsed_group_hides_inactive_children_but_keeps_active_visible() {
    let mut app = test_app();
    app.workspaces = vec![
        worktree_space("main", Some("repo-key"), "/repo/herdr"),
        worktree_space("issue", Some("repo-key"), "/repo/herdr-issue"),
    ];
    app.active = Some(1);
    app.mode = Mode::Terminal;
    app.collapsed_space_keys.push("repo-key".into());

    assert_eq!(
        workspace_list_entries(&app),
        vec![entry(0, false), entry(1, true)]
    );

    app.active = None;
    app.mode = Mode::Terminal;
    assert_eq!(workspace_list_entries(&app), vec![entry(0, false)]);
    // where groups cannot be collapsed every space is listed
    assert_eq!(
        workspace_list_entries_expanded(&app),
        vec![entry(0, false), entry(1, true)]
    );
}

#[test]
fn collapsed_group_keeps_selected_child_visible_in_navigate_mode() {
    let mut app = test_app();
    app.workspaces = vec![
        worktree_space("main", Some("repo-key"), "/repo/herdr"),
        worktree_space("issue", Some("repo-key"), "/repo/herdr-issue"),
    ];
    app.mode = Mode::Navigate;
    app.selected = 1;
    app.active = Some(1);
    app.collapsed_space_keys.push("repo-key".into());

    assert_eq!(
        workspace_list_entries(&app),
        vec![entry(0, false), entry(1, true)]
    );
}

#[test]
fn a_running_root_terminal_names_its_space() {
    let mut app = test_app();
    let mut ws = test_space("stale-name");
    ws.custom_name = None;
    ws.identity_name = "issue-264-nix-support".into();
    app.workspaces = vec![ws];
    ensure_terminals(&mut app);
    detect(&mut app, 0, 0, Agent::Pi);

    let mut runtimes = TerminalRuntimeRegistry::new();
    let root = app.workspaces[0].root_terminal.unwrap();
    runtimes.names = HashMap::from([(root, "herdr".to_string())]);
    assert_eq!(agent_panel_entries_from(&app, &runtimes)[0].primary_label, "herdr");
    assert_eq!(labels(&app), ["issue-264-nix-support"]);
}

#[test]
fn every_space_is_listed_once_and_children_follow_their_parent() {
    let mut app = test_app();
    app.workspaces = vec![
        worktree_space("issue", Some("a"), "/a1"),
        test_space("notes"),
        worktree_space("main", Some("a"), "/a0"),
        worktree_space("main", Some("b"), "/b0"),
        worktree_space("review", Some("a"), "/a2"),
    ];
    // the group stands where its first member does, its parent first; a
    // repository with one checkout is no group
    assert_eq!(
        workspace_list_entries(&app),
        vec![
            entry(2, false),
            entry(0, true),
            entry(4, true),
            entry(1, false),
            entry(3, false),
        ]
    );
    assert_eq!(workspace_parent_group_state(&app, 2), Some(("a".into(), false)));
    assert_eq!(workspace_parent_group_state(&app, 0), None);
    assert_eq!(workspace_parent_group_state(&app, 3), None);
    assert_eq!(workspace_parent_group_state(&app, 9), None);
}

#[test]
fn attention_goes_to_the_most_urgent_pane() {
    assert_eq!(workspace_attention_priority(AgentState::Blocked, true), 4);
    assert_eq!(workspace_attention_priority(AgentState::Idle, false), 3);
    assert_eq!(workspace_attention_priority(AgentState::Working, false), 2);
    assert_eq!(workspace_attention_priority(AgentState::Idle, true), 1);
    assert_eq!(workspace_attention_priority(AgentState::Unknown, false), 0);

    let mut app = test_app();
    let mut ws = worktree_space("main", Some("a"), "/a0");
    for seen in [false, true] {
        ws.tabs[0].panes.push(Pane {
            id: PaneId(0),
            attached_terminal_id: 0,
            seen,
            label: None,
        });
    }
    app.workspaces = vec![ws, test_space("other")];
    ensure_terminals(&mut app);
    let ids: Vec<u64> = app.workspaces[0].tabs[0]
        .panes
        .iter()
        .map(|pane| pane.attached_terminal_id)
        .collect();
    for (id, state, at) in [
        (ids[0], AgentState::Working, 1),
        (ids[1], AgentState::Idle, 2),
        (ids[2], AgentState::Working, 3),
    ] {
        let terminal = app.terminals.get_mut(&id).unwrap();
        terminal.state = state;
        terminal.last_agent_state_change_at = Some(at);
    }
    assert_eq!(
        tab_attention(&app, &app.workspaces[0].tabs[0]),
        (AgentState::Idle, false, Some(2))
    );
    assert_eq!(space_aggregate_state(&app, "a"), (AgentState::Idle, false));
    assert_eq!(space_aggregate_state(&app, "b"), (AgentState::Unknown, true));
    // of equals the last one counts
    app.workspaces[0].tabs[0].panes[1].seen = true;
    assert_eq!(
        tab_attention(&app, &app.workspaces[0].tabs[0]),
        (AgentState::Working, true, Some(3))
    );
    app.terminals.clear();
    assert_eq!(
        tab_attention(&app, &app.workspaces[0].tabs[0]),
        (AgentState::Unknown, true, None)
    );
}

#[test]
fn tab_blocks_show_title_phase_counts_and_lanes() {
    let mut app = test_app();
    app.workspaces = spaces(&["one"]);
    ensure_terminals(&mut app);
    let tab = |app: &mut AppState, name: &str, value: &str| {
        set(&mut app.workspaces[0].tabs[0].metadata_tokens, name, value);
    };
    let rows = |app: &AppState| -> Vec<String> {
        tab_dashboards(app, &app.workspaces[0], 40)[0]
            .rows
            .iter()
            .map(|row| match row {
                TabDashRow::Title { text, tint_at, since_ms } => {
                    format!("T {text} {tint_at:?} {since_ms:?}")
                }
                TabDashRow::TitleCont { text, tint_at } => format!("C {text} {tint_at:?}"),
                TabDashRow::Counts(text) => format!("N {text}"),
                TabDashRow::Lane(text) => format!("L {text}"),
            })
            .collect()
    };
    assert_eq!(rows(&app), ["T shell None None"]);
    terminal(&mut app, 0, 0).terminal_title_stripped = Some("vim".into());
    assert_eq!(rows(&app), ["T vim None None"]);
    app.workspaces[0].tabs[0].custom_name = Some("logs".into());
    assert_eq!(rows(&app), ["T logs None None"]);
    tab(&mut app, "sh", "short");
    assert_eq!(rows(&app), ["T short None None"]);
    tab(&mut app, "t", "fix: the panel");
    tab(&mut app, "ph", " testing ");
    terminal(&mut app, 0, 0).last_agent_state_change_at = Some(5);
    assert_eq!(rows(&app), ["T fix: the panel, testing Some(16) Some(5)"]);
    // an empty title does not fall back to the short one
    tab(&mut app, "t", "");
    tab(&mut app, "ph", "");
    assert_eq!(rows(&app), ["T logs None Some(5)"]);
    tab(&mut app, "hdr", "2 subs");
    tab(&mut app, "lmore", "+3");
    tab(&mut app, "l2", "second");
    tab(&mut app, "l1", "");
    assert_eq!(rows(&app), ["T logs None Some(5)", "N 2 subs", "L second", "L +3"]);
    let dash = &tab_dashboards(&app, &app.workspaces[0], 40)[0];
    assert!(dash.subs_live);
    // four rows and two borders
    assert_eq!(workspace_row_height(&app, 0, &app.workspaces[0], false, 40), 6);
    assert_eq!(workspace_row_height(&app, 0, &app.workspaces[0], true, 40), 7);
}

#[test]
fn long_titles_wrap_with_their_tint() {
    let lines = wrap_prose("one two three four five six", 8, 10, 3);
    let texts: Vec<_> = lines.iter().map(|l| (l.text.as_str(), l.start)).collect();
    assert_eq!(texts, [("one two", 0), ("three", 8), ("four five…", 14)]);
    assert_eq!(line_tint_at(&lines[0], Some(10)), None);
    assert_eq!(line_tint_at(&lines[1], Some(10)), Some(2));
    assert_eq!(line_tint_at(&lines[1], Some(14)), None);
    assert_eq!(line_tint_at(&lines[2], Some(10)), Some(0));
    assert_eq!(line_tint_at(&lines[2], Some(19)), Some(5));
    assert_eq!(line_tint_at(&lines[2], None), None);
    let lines = wrap_prose("one two three four five six", 8, 10, 2);
    assert_eq!(lines[1].text, "three fou…");
    let lines = wrap_prose("", 8, 10, 3);
    assert_eq!((lines.len(), lines[0].text.as_str()), (1, ""));
    // a word that is too long is cut
    let lines = wrap_prose("abcdefghijkl", 8, 10, 3);
    assert_eq!((lines[0].text.as_str(), lines[1].text.as_str()), ("abcdefgh", "ijkl"));
}

#[test]
fn lines_stand_out_by_handle_and_phase() {
    let (base, tint) = (Style::plain().fg(palette().text), Style::plain().fg(palette().blue));
    let pieces = |text: &str, tint_at: Option<usize>, bold: bool, w: u16| {
        let mut ops = Vec::new();
        draw_tab_line(&mut ops, 3, 1, w, text, tint_at, bold, base, tint);
        ops.into_iter()
            .map(|op| match op {
                DrawOp::Text { x, y: 1, text, style } => (x, text, style),
                other => panic!("unexpected step {other:?}"),
            })
            .collect::<Vec<_>>()
    };
    assert_eq!(
        pieces("fix: it, testing", Some(9), true, 30),
        [
            (3, "fix".to_string(), base.bold(true)),
            (6, ": ".to_string(), base.bold(true)),
            (8, "it, ".to_string(), base),
            (12, "testing".to_string(), tint),
        ]
    );
    assert_eq!(pieces("fix: it", None, false, 30), [(3, "fix: it".to_string(), base)]);
    // no further than the line is wide
    assert_eq!(
        pieces("fix: it, testing", Some(9), true, 4),
        [
            (3, "fix".to_string(), base.bold(true)),
            (6, "…".to_string(), base.bold(true)),
        ]
    );
    // a tint inside a character is none
    assert_eq!(pieces("修复", Some(1), false, 9), [(3, "修复".to_string(), base)]);
    let long = "a handle of more than twenty-eight: x";
    assert_eq!(pieces(long, None, true, 60), [(3, long.to_string(), base)]);
}

#[test]
fn spaces_are_tagged_by_color() {
    let p = palette();
    let mut ws = test_space("one");
    assert_eq!(space_rail_color(&ws, &p), p.text);
    for (tag, color) in [
        ("🟥", Color::Rgb(0xc4, 0x4a, 0x58)),
        ("🟦", Color::Rgb(0x4a, 0x74, 0xc4)),
        ("🟩", Color::Rgb(0x4a, 0xa8, 0x66)),
        ("🟪", Color::Rgb(0x8f, 0x66, 0xc4)),
        ("🟧", p.text),
    ] {
        set(&mut ws.metadata_tokens, "c", tag);
        assert_eq!(space_rail_color(&ws, &p), color);
    }
    let tints = [
        (AgentState::Blocked, true, Color::Rgb(0xe2, 0xae, 0xae)),
        (AgentState::Working, false, Color::Rgb(0xe2, 0xd8, 0xa6)),
        (AgentState::Idle, false, Color::Rgb(0xaa, 0xd4, 0xd4)),
        (AgentState::Idle, true, Color::Rgb(0xb6, 0xd6, 0xb6)),
        (AgentState::Unknown, true, p.overlay1),
    ];
    for (state, seen, color) in tints {
        assert_eq!(phase_tint(state, seen, &p), Style::plain().fg(color));
    }
}

#[test]
fn working_tabs_show_their_time_and_a_ring() {
    let mut app = test_app();
    app.workspaces = spaces(&["one"]);
    ensure_terminals(&mut app);
    app.mode = Mode::Terminal;
    set(&mut app.workspaces[0].tabs[0].metadata_tokens, "t", "fix: it");
    set(&mut app.workspaces[0].tabs[0].metadata_tokens, "hdr", "1 sub");
    let term = terminal(&mut app, 0, 0);
    term.state = AgentState::Working;
    term.last_agent_state_change_at = Some(0);
    let area = Rect::new(0, 0, 30, 12);
    app.view.workspace_card_areas = compute_workspace_card_areas(&app, area);
    let ops = render_sidebar(
        &app,
        &TerminalRuntimeRegistry::new(),
        area,
        Some(65 * 60_000),
    );
    let buffer = drawn(&ops, 30, 12);
    assert_eq!(row_text(&buffer, 5, 29), "▌┌──────────────────────────┐");
    assert_eq!(row_text(&buffer, 6, 29), "▌│ fix: it         1h05 (●) │");
    assert_eq!(row_text(&buffer, 7, 29), "▌│ 1 sub                    │");
    assert_eq!(row_text(&buffer, 8, 29), "▌└──────────────────────────┘");
    assert_eq!(buffer[(29, 3)].symbol(), "│");
    assert_eq!(row_text(&buffer, 4, 29), "─".repeat(29));
    assert_eq!(buffer[(28, 11)].symbol(), "«");
}

#[test]
fn grouped_spaces_keep_their_names() {
    let mut app = test_app();
    let mut child = worktree_space("issue", Some("a"), "/a1");
    child.custom_name = None;
    child.cached_git_branch = Some("worktree/issue-7".into());
    app.workspaces = vec![worktree_space("main", Some("a"), "/a0"), child];
    app.mode = Mode::Terminal;
    let area = Rect::new(0, 0, 20, 20);
    app.view.workspace_card_areas = compute_workspace_card_areas(&app, area);
    let ops = render_sidebar(&app, &TerminalRuntimeRegistry::new(), area, None);
    let buffer = drawn(&ops, 20, 20);
    assert_eq!(row_text(&buffer, 5, 19), "▾ main");
    assert_eq!(row_text(&buffer, 9, 19), " issue-7");
    // a collapsed group keeps its parent's name and draws no boxes
    app.collapsed_space_keys.push("a".into());
    app.view.workspace_card_areas = compute_workspace_card_areas(&app, area);
    let ops = render_sidebar(&app, &TerminalRuntimeRegistry::new(), area, None);
    let buffer = drawn(&ops, 20, 20);
    assert_eq!(row_text(&buffer, 5, 19), "▸ main");
    assert_eq!(row_text(&buffer, 6, 19), "");
}

#[test]
fn labels_of_grouped_children() {
    assert_eq!(grouped_child_display_label("herdr", None, false), "herdr");
    assert_eq!(grouped_child_display_label("herdr", Some("main"), false), "main");
    assert_eq!(grouped_child_display_label("herdr", Some("a/worktree/b"), false), "a/worktree/b");
}

#[test]
fn header_buttons_and_drop_rows_are_drawn() {
    let mut app = test_app();
    app.workspaces = spaces(&["a", "b"]);
    app.mode = Mode::Terminal;
    app.menu_attention = true;
    app.view.header_buttons.menu = Rect::new(10, 1, 8, 3);
    let area = Rect::new(0, 0, 26, 20);
    let (cards, rows) = compute_workspace_list_areas(&app, area);
    app.view.workspace_card_areas = cards;
    app.view.sidebar_tab_rows = rows;
    app.drag = Some(DragState {
        target: DragTarget::SidebarTabMove {
            source_ws_idx: 0,
            target_ws_idx: Some(1),
            insert_idx: None,
        },
    });
    let ops = render_sidebar(&app, &TerminalRuntimeRegistry::new(), area, None);
    let buffer = drawn(&ops, 26, 20);
    assert_eq!(row_text(&buffer, 1, 20), "          ┌──────┐");
    assert_eq!(row_text(&buffer, 2, 20), "          │ menu │");
    assert_eq!(row_text(&buffer, 3, 20), "          └──────┘");
    assert_eq!(buffer[(12, 2)].style().fg, Some(to_color(app.palette.accent)));
    // the space that the tab is dragged onto is lifted, its last row marked
    assert_eq!(buffer[(3, 9)].style().bg, Some(to_color(app.palette.surface1)));
    assert_eq!(buffer[(3, 6)].style().bg, Some(ratatui::style::Color::Reset));
    assert_eq!(row_text(&buffer, 10, 25), "─".repeat(25));
    assert_eq!(buffer[(4, 10)].style().fg, Some(to_color(app.palette.accent)));
}

#[test]
fn dragged_tabs_land_between_or_behind_boxes() {
    let row = |ws_idx, tab_idx, y| SidebarTabRow {
        ws_idx,
        tab_idx,
        rect: Rect::new(0, y, 20, 3),
    };
    let rows = vec![row(0, 0, 5), row(1, 0, 9), row(1, 1, 12)];
    assert_eq!(sidebar_tab_drop_indicator_row(&rows, 1, Some(0)), Some(9));
    assert_eq!(sidebar_tab_drop_indicator_row(&rows, 1, Some(1)), Some(12));
    assert_eq!(sidebar_tab_drop_indicator_row(&rows, 1, Some(2)), Some(14));
    assert_eq!(sidebar_tab_drop_indicator_row(&rows, 1, None), Some(14));
    assert_eq!(sidebar_tab_drop_indicator_row(&rows, 2, None), None);
}

#[test]
fn dragged_spaces_land_inside_the_list() {
    let card = |ws_idx, y| WorkspaceCardArea {
        ws_idx,
        rect: Rect::new(0, y, 20, 3),
        indented: false,
    };
    let cards = vec![card(1, 5), card(2, 9)];
    let area = Rect::new(0, 0, 20, 16);
    assert_eq!(workspace_drop_indicator_row(&cards, area, 1), Some(4));
    assert_eq!(workspace_drop_indicator_row(&cards, area, 2), Some(8));
    assert_eq!(workspace_drop_indicator_row(&cards, area, 3), Some(12));
    assert_eq!(workspace_drop_indicator_row(&cards, area, 4), None);
    assert_eq!(workspace_drop_indicator_row(&cards, Rect::new(0, 0, 20, 13), 3), None);
    assert_eq!(workspace_drop_indicator_row(&cards, Rect::new(0, 0, 20, 0), 1), None);
    assert_eq!(workspace_drop_indicator_row(&vec![], area, 1), None);
    assert_eq!(workspace_drop_indicator_row(&vec![card(0, 0)], area, 0), None);
}

#[test]
fn sections_share_the_column() {
    assert_eq!(sidebar_section_heights(0, 3), (0, 0));
    assert_eq!(sidebar_section_heights(5, 5), (3, 2));
    assert_eq!(sidebar_section_heights(20, 0), (3, 17));
    assert_eq!(sidebar_section_heights(20, 12), (12, 8));
    assert_eq!(sidebar_section_heights(20, 99), (17, 3));
    let (upper, lower) = expanded_sidebar_sections(Rect::new(2, 1, 20, 20), split_rows(20, 0.6));
    assert_eq!(upper, Rect::new(2, 1, 19, 12));
    assert_eq!(lower, Rect::new(2, 13, 19, 8));
    let line = sidebar_section_divider_rect(Rect::new(2, 1, 20, 20), split_rows(20, 0.6));
    assert_eq!(line, Rect::new(2, 13, 19, 1));
    let nothing = expanded_sidebar_sections(Rect::new(2, 1, 1, 20), 5);
    assert_eq!(nothing, (Rect::default(), Rect::default()));
}

#[test]
fn cards_follow_each_other_and_carry_their_tabs() {
    let mut app = test_app();
    let mut two = test_space("two");
    two.tabs.push(test_tab(Some("logs")));
    app.workspaces = vec![test_space("one"), two, test_space("three")];
    app.sidebar_spaces.row_gap = 1;
    let area = Rect::new(1, 0, 30, 40);
    let body = workspace_list_body_rect(workspace_list_rect(area), false);
    assert_eq!(body, Rect::new(1, 5, 29, 35));
    let (cards, rows) = compute_workspace_list_areas(&app, area);
    let spans: Vec<_> = cards.iter().map(|c| (c.rect.y, c.rect.height)).collect();
    assert_eq!(spans, [(5, 3), (9, 6), (16, 3)]);
    let spans: Vec<_> =
        rows.iter().map(|r| (r.ws_idx, r.tab_idx, r.rect.y, r.rect.height)).collect();
    assert_eq!(spans, [(0, 0, 5, 3), (1, 0, 9, 3), (1, 1, 12, 3), (2, 0, 16, 3)]);
    assert_eq!(workspace_list_visible_count(&app, workspace_list_rect(area), 1), 2);
    assert_eq!(workspace_list_scrollbar_rect(&app, area), None);
    // too low for a row, or too narrow for a column
    assert!(compute_workspace_list_areas(&app, Rect::new(0, 0, 30, 5)).0.is_empty());
    assert!(compute_workspace_list_areas(&app, Rect::new(0, 0, 1, 30)).0.is_empty());
    assert_eq!(normalized_workspace_scroll(&app, Rect::new(0, 0, 30, 5), 7), 7);
    assert_eq!(normalized_workspace_scroll(&app, area, 7), 0);
}

#[test]
fn minimized_boxes_touch_within_a_space() {
    let mut app = test_app();
    let mut one = test_space("one");
    one.tabs.push(test_tab(None));
    app.workspaces = vec![one, test_space("two"), test_space("three")];
    app.sidebar_spaces.row_gap = 2;
    let rows: Vec<_> = collapsed_tab_boxes(&app, Rect::new(0, 0, 8, 18))
        .iter()
        .map(|row| (row.ws_idx, row.tab_idx, row.rect.y))
        .collect();
    // the third space has no room left
    assert_eq!(rows, [(0, 0, 5), (0, 1, 8), (1, 0, 13)]);
    assert!(collapsed_tab_boxes(&app, Rect::new(0, 0, 6, 18)).is_empty());
    assert_eq!(collapsed_minimize_button_rect(Rect::new(2, 1, 7, 4)), Rect::new(3, 2, 5, 3));
    assert_eq!(collapsed_minimize_button_rect(Rect::new(2, 1, 6, 4)), Rect::default());
    assert_eq!(collapsed_sidebar_toggle_rect(Rect::new(2, 1, 7, 20)), Rect::new(5, 20, 1, 1));
    assert_eq!(collapsed_sidebar_toggle_rect(Rect::new(2, 1, 1, 20)), Rect::default());
    assert_eq!(expanded_sidebar_toggle_rect(Rect::new(2, 1, 1, 20)), Rect::default());
    assert!(render_sidebar_collapsed(&app, Rect::new(0, 0, 0, 20)).is_empty());
}

#[test]
fn the_agent_panel_selects_and_orders() {
    let mut app = priority_app();
    assert_eq!(all_agent_panel_entries(&app).len(), 4);
    app.agent_panel_sort = AgentPanelSort::Spaces;
    assert_eq!(labels(&app), ["one", "two", "three", "four"]);
    assert_eq!(active_agent_view_label(&app), None);
    let pane = |app: &AppState, i: usize| app.workspaces[i].tabs[0].panes[0].id;
    app.agent_view_override = Some(AgentViewOverride {
        label: None,
        panes: vec![pane(&app, 3), pane(&app, 0)],
    });
    assert_eq!(active_agent_view_label(&app), Some("filtered"));
    assert_eq!(labels(&app), ["one", "four"]);
    app.agent_panel_sort = AgentPanelSort::Priority;
    assert_eq!(labels(&app), ["four", "one"]);
    app.agent_view_override.as_mut().unwrap().label = Some("mine".into());
    assert_eq!(active_agent_view_label(&app), Some("mine"));
    assert_eq!(all_agent_panel_entries(&app).len(), 4);
}

#[test]
fn the_agent_panel_scrolls_by_agents() {
    let mut app = priority_app();
    app.sidebar_agents.row_gap = 1;
    // a body of three rows shows two agents of one row and the gap between
    let panel = Rect::new(0, 2, 20, 6);
    assert_eq!(agent_panel_body_rect(panel, false), Rect::new(0, 5, 20, 3));
    assert_eq!(agent_panel_body_rect(panel, true), Rect::new(0, 5, 19, 3));
    assert_eq!(agent_panel_visible_count_from(&app, panel, 0), 2);
    assert_eq!(
        agent_panel_scroll_metrics(&app, panel),
        ScrollMetrics {
            offset_from_bottom: 2,
            max_offset_from_bottom: 2,
            viewport_rows: 2,
        }
    );
    assert_eq!(agent_panel_scrollbar_rect(&app, panel), Some(Rect::new(19, 5, 1, 3)));
    assert_eq!(agent_panel_scroll_for_target(&app, panel, 0, 1), 0);
    assert_eq!(agent_panel_scroll_for_target(&app, panel, 0, 2), 1);
    assert_eq!(agent_panel_scroll_for_target(&app, panel, 2, 1), 1);
    assert_eq!(agent_panel_scroll_for_target(&app, panel, 9, 3), 2);
    assert_eq!(agent_panel_scrollbar_rect(&app, Rect::new(0, 2, 20, 40)), None);
    assert_eq!(agent_entry_gap(&app, 2, 4), 1);
    assert_eq!(agent_entry_gap(&app, 3, 4), 0);
    let still = ScrollMetrics {
        offset_from_bottom: 0,
        max_offset_from_bottom: 0,
        viewport_rows: 3,
    };
    assert!(!should_show_scrollbar(still));
    assert_eq!(
        agent_panel_toggle_rect(panel, AgentPanelSort::Spaces),
        Rect::new(13, 3, 7, 1)
    );
    assert_eq!(
        agent_panel_toggle_rect(Rect::new(0, 0, 4, 9), AgentPanelSort::Priority),
        Rect::new(0, 1, 4, 1)
    );
    assert_eq!(
        agent_panel_toggle_rect(Rect::new(0, 0, 4, 1), AgentPanelSort::Priority),
        Rect::default()
    );
}

#[test]
fn agent_rows_take_the_plugins_word_for_a_state() {
    let mut app = priority_app();
    app.agent_panel_sort = AgentPanelSort::Spaces;
    app.sidebar_agents.rows = vec![
        vec![
            AgentSidebarToken::StateIcon,
            AgentSidebarToken::Workspace,
            AgentSidebarToken::Tab,
        ],
        vec![AgentSidebarToken::Pane, AgentSidebarToken::TerminalTitle],
        vec![AgentSidebarToken::StateText],
    ];
    let texts = |app: &AppState| -> Vec<Vec<Option<String>>> {
        let entry = &agent_panel_entries(app)[1];
        resolved_agent_rows(app, entry)
            .iter()
            .map(|row| row.iter().map(|token| token.text().map(str::to_string)).collect())
            .collect()
    };
    let text = |s: &str| Some(s.to_string());
    assert_eq!(texts(&app), [vec![None, text("two")], vec![text("done")]]);
    let state = &mut terminal(&mut app, 1, 0).state_labels;
    set(state, "done", "ready");
    terminal(&mut app, 1, 0).terminal_title_stripped = Some("vim".into());
    assert_eq!(
        texts(&app),
        [vec![None, text("two")], vec![text("vim")], vec![text("ready")]]
    );
    assert_eq!(agent_panel_status_key(AgentState::Idle, false), "done");
    assert_eq!(agent_panel_status_key(AgentState::Idle, true), "idle");
    assert_eq!(agent_panel_status_key(AgentState::Working, true), "working");
    assert_eq!(agent_panel_status_key(AgentState::Blocked, true), "blocked");
    assert_eq!(agent_panel_status_key(AgentState::Unknown, true), "unknown");
}

#[test]
fn tokens_share_the_cells_of_their_row() {
    let row = || {
        vec![
            ResolvedToken::unstyled(ResolvedTokenKind::StateIcon),
            ResolvedToken::unstyled(ResolvedTokenKind::Workspace("abcdefgh".into())),
            ResolvedToken::unstyled(ResolvedTokenKind::Agent("xy".into())),
            ResolvedToken::unstyled(ResolvedTokenKind::Custom("stuvwxyz".into())),
        ]
    };
    assert_eq!(spans_text(&plain_row(row(), "●", 40)), "● abcdefgh · xy · stuvwxyz");
    assert_eq!(spans_text(&plain_row(row(), "●", 26)), "● abcdefgh · xy · stuvwxyz");
    // the short text is full, the others differ by no more than a cell
    assert_eq!(spans_text(&plain_row(row(), "●", 19)), "● abcd… · xy · stu…");
    // without a cell for each the first texts give way
    assert_eq!(spans_text(&plain_row(row(), "●", 10)), "● xy · st…");
    assert_eq!(spans_text(&plain_row(row(), "●", 4)), "● s…");
    assert_eq!(spans_text(&plain_row(row(), "●", 2)), "●");
    for max_width in 1..40 {
        let text = spans_text(&plain_row(row(), "●", max_width));
        assert!(usize::from(display_width_u16(&text)) <= max_width, "{text:?} in {max_width}");
    }
}

#[test]
fn token_styles_are_changed_where_configured() {
    let base = Style::plain().fg(palette().text).bold(true);
    let keep = SidebarTokenStyle { fg: None, bold: None, dim: None };
    assert_eq!(apply_token_style(base, keep), base);
    let patch = SidebarTokenStyle {
        fg: Some(palette().red),
        bold: Some(false),
        dim: Some(true),
    };
    assert_eq!(
        apply_token_style(base, patch),
        Style::plain().fg(palette().red).bold(false).dim(true)
    );
}

#[test]
fn named_texts_have_one_value() {
    let mut tokens = TokenMap::new();
    assert!(tokens.get("a").is_none());
    set(&mut tokens, "a", "1");
    set(&mut tokens, "b", "2");
    set(&mut tokens, "a", "3");
    assert_eq!(tokens.get("a").map(String::as_str), Some("3"));
    assert_eq!(tokens.copy().get("b").map(String::as_str), Some("2"));
}

#[test]
fn texts_are_measured_in_cells() {
    assert_eq!(display_width_u16(""), 0);
    assert_eq!(display_width_u16("new tab"), 7);
    assert_eq!(display_width_u16("↑3"), 2);
    assert_eq!(display_width_u16("日本語"), 6);
    assert_eq!(display_width_u16("e\u{301}"), 1);
    assert_eq!(display_width_u16(&"ab".repeat(40_000)), u16::MAX);
}

#[test]
fn a_fresh_sidebar_can_be_drawn() {
    let app = test_app();
    assert_eq!(app.view.header_buttons.minimize, Rect::default());
    assert_eq!(app.view.header_buttons.panel_toggle, Rect::default());
    assert_eq!(app.sidebar_agents.row_gap, 0);
    assert_eq!(app.sidebar_agents.rows.len(), 1);
    assert!(matches!(app.sidebar_agents.rows[0][..], [AgentSidebarToken::Agent]));
    assert!(app.sidebar_agents.rows_by_agent.is_empty());
    let ops = render_sidebar(&app, &TerminalRuntimeRegistry::new(), Rect::new(0, 0, 20, 10), None);
    let buffer = drawn(&ops, 20, 10);
    assert_eq!(row_text(&buffer, 4, 19), "─".repeat(19));
    assert_eq!(buffer[(18, 9)].symbol(), "«");
}

#[test]
fn cards_have_their_height_and_tab_rows_do_not_overlap() {
    let mut app = test_app();
    app.workspaces = spaces(&["one", "two", "three", "four"]);
    for ws in &mut app.workspaces {
        ws.tabs.push(test_tab(Some("logs")));
    }
    app.sidebar_spaces.row_gap = 1;
    let (cards, rows) = compute_workspace_list_areas(&app, Rect::new(0, 0, 30, 24));
    let heights: Vec<_> = cards.iter().map(|card| card.rect.height).collect();
    // the last space only part-fits
    assert_eq!(heights, [6, 6, 5]);
    for (card, ws) in cards.iter().zip(&app.workspaces).take(2) {
        assert_eq!(card.rect.height, workspace_row_height(&app, card.ws_idx, ws, false, 29));
    }
    assert_eq!(rows.len(), 6);
    assert!(rows.windows(2).all(|pair| pair[0].rect.y + pair[0].rect.height <= pair[1].rect.y));
}

#[test]
fn rows_of_other_spaces_do_not_matter_to_a_dragged_tab() {
    let far = SidebarTabRow {
        ws_idx: 0,
        tab_idx: 0,
        rect: Rect { x: 0, y: u16::MAX, width: 20, height: 9 },
    };
    let near = SidebarTabRow { ws_idx: 1, tab_idx: 0, rect: Rect::new(0, 9, 20, 3) };
    assert_eq!(sidebar_tab_drop_indicator_row(&vec![far, near], 1, None), Some(11));
    assert_eq!(sidebar_tab_drop_indicator_row(&vec![far, near], 0, Some(0)), Some(u16::MAX));
}

#[test]
fn the_expanded_list_depends_on_the_spaces_alone() {
    let mut app = test_app();
    app.workspaces = vec![
        worktree_space("main", Some("repo-key"), "/repo/herdr"),
        worktree_space("issue", Some("repo-key"), "/repo/herdr-issue"),
        test_space("notes"),
    ];
    let open = workspace_list_entries_expanded(&app);
    app.collapsed_space_keys.push("repo-key".into());
    app.mode = Mode::Navigate;
    app.selected = 1;
    app.active = Some(2);
    assert_eq!(workspace_list_entries_expanded(&app), open);
    assert_eq!(open, vec![entry(0, false), entry(1, true), entry(2, false)]);
}

#[test]
fn a_low_list_draws_no_buttons_and_a_narrow_card_no_box() {
    let mut app = test_app();
    app.workspaces = spaces(&["one"]);
    let far = Rect { x: u16::MAX, y: 0, width: 5, height: 9 };
    app.view.header_buttons.menu = Rect { x: u16::MAX, y: u16::MAX, width: 9, height: 9 };
    app.view.workspace_card_areas =
        vec![WorkspaceCardArea { ws_idx: 0, rect: far, indented: false }];
    let runtimes = TerminalRuntimeRegistry::new();
    let ops = render_workspace_list(&app, &runtimes, Rect::new(0, 0, 20, 3), false, None);
    assert!(ops.is_empty());
}
