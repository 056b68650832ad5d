//! Drawing the sidebar, open and minimized.

use vstd::prelude::*;

use crate::app::state::{
    AppState, DragTarget, HeaderButtons, Mode, SidebarTabRow, WorkspaceCardArea,
};
use crate::draw;
use crate::draw::{put_filled, put_lines, put_paint, put_text, DrawOp, DrawOpView};
use crate::geometry;
use crate::geometry::Rect;
use crate::style;
use crate::style::{Color, Line, Palette, Span, SpanView, Style};
use crate::text;
use crate::text::{display_width, str_has_part, truncate_end};
use crate::ui::figures;
use crate::ui::figures::fmt_elapsed;
use crate::ui::sidebar::attention;
use crate::ui::sidebar::attention::tab_attention;
use crate::ui::sidebar::boxes;
use crate::ui::sidebar::boxes::{
    draw_tab_box_border, draw_tab_line, phase_tint, render_header_button, space_rail_color,
};
use crate::ui::sidebar::dash;
use crate::ui::sidebar::dash::{tab_dashboards, Dash, DashRow, TabDash, TabDashRow};
use crate::ui::sidebar::layout;
use crate::ui::sidebar::layout::{
    collapsed_minimize_button_rect, collapsed_sidebar_toggle_rect, collapsed_tab_boxes,
    expanded_sidebar_toggle_rect, sidebar_tab_drop_indicator_row, workspace_drop_indicator_row,
};
use crate::ui::sidebar::spaces;
use crate::ui::sidebar::spaces::{
    grouped_child_display_label, workspace_list_rect, workspace_name_row_visible,
    workspace_parent_group_state, WORKSPACE_SECTION_HEADER_ROWS,
};
use crate::ui::status::StatusTheme;
use crate::views;
use crate::workspace;
use crate::workspace::{AgentState, Tab, TerminalRuntimeRegistry, Workspace};

verus! {

/// The dot of a state, in a ring where subagents are at work.
#[verifier::opaque]
pub open spec fn dot_picture(
    x: int,
    y: u16,
    state: AgentState,
    seen: bool,
    ringed: bool,
    theme: StatusTheme,
    p: Palette,
) -> Seq<DrawOpView> {
    let look = theme.look(state, seen);
    let ring = Style::plain().fg(p.blue);
    if ringed {
        seq![
            DrawOpView::Text { x: spaces::capped(x) as u16, y, text: "("@, style: ring },
            DrawOpView::Text {
                x: spaces::capped(x + 1) as u16,
                y,
                text: look.icon@,
                style: look.style,
            },
            DrawOpView::Text { x: spaces::capped(x + 2) as u16, y, text: ")"@, style: ring },
        ]
    } else {
        seq![
            DrawOpView::Text {
                x: spaces::capped(x) as u16,
                y,
                text: look.icon@,
                style: look.style,
            },
        ]
    }
}

fn put_dot(
    ops: &mut Vec<DrawOp>,
    x: u16,
    y: u16,
    state: AgentState,
    seen: bool,
    ringed: bool,
    theme: &StatusTheme,
    p: &Palette,
)
    ensures
        draw::picture(final(ops)@) == draw::picture(old(ops)@) + dot_picture(
            x as int,
            y,
            state,
            seen,
            ringed,
            *theme,
            *p,
        ),
{
    proof {
        reveal(dot_picture);
    }
    let look = theme.look(state, seen);
    if ringed {
        let ring: Style = Style::plain().fg(p.blue);
        put_text(ops, x, y, "(", ring);
        put_text(ops, x.saturating_add(1), y, look.icon, look.style);
        put_text(ops, x.saturating_add(2), y, ")", ring);
    } else {
        put_text(ops, x, y, look.icon, look.style);
    }
    assert(draw::picture(ops@) =~= draw::picture(old(ops)@) + dot_picture(
        x as int,
        y,
        state,
        seen,
        ringed,
        *theme,
        *p,
    ));
}

/// How long the agent of a tab has been at work, while it is.
pub open spec fn work_time(state: AgentState, since_ms: Option<u64>, now_ms: Option<u64>) -> Option<
    Seq<char>,
> {
    match since_ms {
        Some(since) => if state is Working {
            Some(figures::elapsed_text(since, now_ms))
        } else {
            None
        },
        None => None,
    }
}

/// The cells of a time and the blank behind it.
pub open spec fn time_cells(time: Option<Seq<char>>) -> int {
    match time {
        Some(time) => text::text_width(time) as int + 1,
        None => 0,
    }
}

/// The title row of a tab: the first line of the title, and at the right end
/// the time at work and the dot.
#[verifier::opaque]
pub open spec fn title_picture(
    dash: Dash,
    content: Seq<char>,
    tint_at: Option<usize>,
    since_ms: Option<u64>,
    x: u16,
    y: u16,
    w: u16,
    theme: StatusTheme,
    p: Palette,
    now_ms: Option<u64>,
) -> Seq<DrawOpView> {
    let ringed = dash.subs_live && dash.state is Working;
    let time = work_time(dash.state, since_ms, now_ms);
    let status = 1 + time_cells(time) + if ringed {
        2int
    } else {
        0
    };
    let pieces = boxes::line_pieces(
        content,
        tint_at,
        true,
        Style::plain().fg(p.text),
        phase_tint(dash.state, dash.seen, &p),
    );
    let status_x = spaces::capped(x + geometry::less(w as int, status));
    let line = boxes::line_picture(x, y, geometry::less(w as int, status + 1) as u16, pieces);
    let timed = match time {
        Some(time) => line.push(
            DrawOpView::Text {
                x: status_x as u16,
                y,
                text: time,
                style: Style::plain().fg(p.subtext0),
            },
        ),
        None => line,
    };
    timed + dot_picture(
        spaces::capped(status_x + time_cells(time)),
        y,
        dash.state,
        dash.seen,
        ringed,
        theme,
        p,
    )
}

fn put_title(
    ops: &mut Vec<DrawOp>,
    dash: &TabDash,
    content: &str,
    tint_at: Option<usize>,
    since_ms: Option<u64>,
    x: u16,
    y: u16,
    w: u16,
    theme: &StatusTheme,
    p: &Palette,
    now_ms: Option<u64>,
)
    ensures
        draw::picture(final(ops)@) == draw::picture(old(ops)@) + title_picture(
            dash@,
            content@,
            tint_at,
            since_ms,
            x,
            y,
            w,
            *theme,
            *p,
            now_ms,
        ),
{
    proof {
        reveal(title_picture);
    }
    let working: bool = dash.state == AgentState::Working;
    let ringed: bool = dash.subs_live && working;
    let mut time: Option<String> = None;
    let mut cells: u16 = 0;
    if let Some(since) = since_ms {
        if working {
            let elapsed: String = fmt_elapsed(since, now_ms);
            let width: usize = display_width(elapsed.as_str());
            proof {
                figures::lemma_elapsed_short(since, now_ms);
            }
            cells = width as u16 + 1;
            time = Some(elapsed);
        }
    }
    assert(views::text(time) == work_time(dash.state, since_ms, now_ms));
    assert(cells == time_cells(work_time(dash.state, since_ms, now_ms)));
    let status: u16 = 1 + cells + if ringed {
        2
    } else {
        0
    };
    draw_tab_line(
        ops,
        x,
        y,
        w.saturating_sub(status + 1),
        content,
        tint_at,
        true,
        Style::plain().fg(p.text),
        phase_tint(dash.state, dash.seen, p),
    );
    let status_x: u16 = x.saturating_add(w.saturating_sub(status));
    if let Some(time) = &time {
        put_text(ops, status_x, y, time.as_str(), Style::plain().fg(p.subtext0));
    }
    let dot_x: u16 = status_x.saturating_add(cells);
    put_dot(ops, dot_x, y, dash.state, dash.seen, ringed, theme, p);
    assert(draw::picture(ops@) =~= draw::picture(old(ops)@) + title_picture(
        dash@,
        content@,
        tint_at,
        since_ms,
        x,
        y,
        w,
        *theme,
        *p,
        now_ms,
    ));
}

/// A row of a tab's box.
#[verifier::opaque]
pub open spec fn row_picture(
    dash: Dash,
    row: DashRow,
    x: u16,
    y: u16,
    w: u16,
    theme: StatusTheme,
    p: Palette,
    now_ms: Option<u64>,
) -> Seq<DrawOpView> {
    match row {
        DashRow::Title { text, tint_at, since_ms } => title_picture(
            dash,
            text,
            tint_at,
            since_ms,
            x,
            y,
            w,
            theme,
            p,
            now_ms,
        ),
        DashRow::TitleCont { text, tint_at } => boxes::line_picture(
            x,
            y,
            w,
            boxes::line_pieces(
                text,
                tint_at,
                false,
                Style::plain().fg(p.text),
                phase_tint(dash.state, dash.seen, &p),
            ),
        ),
        DashRow::Counts(text) => seq![
            DrawOpView::Text {
                x,
                y,
                text: text::truncated(text, w as nat),
                style: Style::plain().fg(p.overlay1).dim(true),
            },
        ],
        DashRow::Lane(text) => seq![
            DrawOpView::Text {
                x,
                y,
                text: text::truncated(text, w as nat),
                style: Style::plain().fg(p.overlay0),
            },
        ],
    }
}

fn put_row(
    ops: &mut Vec<DrawOp>,
    dash: &TabDash,
    row: &TabDashRow,
    x: u16,
    y: u16,
    w: u16,
    theme: &StatusTheme,
    p: &Palette,
    now_ms: Option<u64>,
)
    ensures
        draw::picture(final(ops)@) == draw::picture(old(ops)@) + row_picture(
            dash@,
            row@,
            x,
            y,
            w,
            *theme,
            *p,
            now_ms,
        ),
{
    proof {
        reveal(row_picture);
    }
    let ghost goal = draw::picture(ops@) + row_picture(
        dash@,
        row@,
        x,
        y,
        w,
        *theme,
        *p,
        now_ms,
    );
    match row {
        TabDashRow::Title { text, tint_at, since_ms } => {
            put_title(
                ops,
                dash,
                text.as_str(),
                *tint_at,
                *since_ms,
                x,
                y,
                w,
                theme,
                p,
                now_ms,
            );
        },
        TabDashRow::TitleCont { text, tint_at } => {
            draw_tab_line(
                ops,
                x,
                y,
                w,
                text.as_str(),
                *tint_at,
                false,
                Style::plain().fg(p.text),
                phase_tint(dash.state, dash.seen, p),
            );
        },
        TabDashRow::Counts(text) => {
            put_text(
                ops,
                x,
                y,
                truncate_end(text.as_str(), w as usize).as_str(),
                Style::plain().fg(p.overlay1).dim(true),
            );
        },
        TabDashRow::Lane(text) => {
            put_text(
                ops,
                x,
                y,
                truncate_end(text.as_str(), w as usize).as_str(),
                Style::plain().fg(p.overlay0),
            );
        },
    }
    assert(draw::picture(ops@) =~= goal);
}

/// The rows of a tab's box from the `i`-th on, from row `y` to the frame at
/// `bottom`.
pub open spec fn rows_picture(
    dash: Dash,
    i: int,
    x: u16,
    y: int,
    bottom: int,
    w: u16,
    theme: StatusTheme,
    p: Palette,
    now_ms: Option<u64>,
) -> Seq<DrawOpView>
    decreases dash.rows.len() - i,
{
    if i < 0 || i >= dash.rows.len() || y >= bottom {
        Seq::empty()
    } else {
        row_picture(dash, dash.rows[i], x, y as u16, w, theme, p, now_ms) + rows_picture(
            dash,
            i + 1,
            x,
            y + 1,
            bottom,
            w,
            theme,
            p,
            now_ms,
        )
    }
}

fn put_rows(
    ops: &mut Vec<DrawOp>,
    dash: &TabDash,
    x: u16,
    y: u16,
    bottom: u16,
    w: u16,
    theme: &StatusTheme,
    p: &Palette,
    now_ms: Option<u64>,
)
    ensures
        draw::picture(final(ops)@) == draw::picture(old(ops)@) + rows_picture(
            dash@,
            0,
            x,
            y as int,
            bottom as int,
            w,
            *theme,
            *p,
            now_ms,
        ),
{
    broadcast use views::group_views;

    let ghost d = dash@;
    let ghost goal = draw::picture(ops@) + rows_picture(
        d,
        0,
        x,
        y as int,
        bottom as int,
        w,
        *theme,
        *p,
        now_ms,
    );
    let mut ry: u16 = y;
    let mut i: usize = 0;
    while i < dash.rows.len() && ry < bottom
        invariant
            i <= dash.rows@.len(),
            d == dash@,
            goal == draw::picture(ops@) + rows_picture(
                d,
                i as int,
                x,
                ry as int,
                bottom as int,
                w,
                *theme,
                *p,
                now_ms,
            ),
        decreases dash.rows@.len() - i,
    {
        assert(d.rows[i as int] == dash.rows@[i as int]@);
        put_row(ops, dash, &dash.rows[i], x, ry, w, theme, p, now_ms);
        assert(goal =~= draw::picture(ops@) + rows_picture(
            d,
            i + 1,
            x,
            ry + 1,
            bottom as int,
            w,
            *theme,
            *p,
            now_ms,
        ));
        ry = ry + 1;
        i = i + 1;
    }
    assert(goal =~= draw::picture(ops@));
}

/// The fill, the frame and the rail of a tab's box in `rect`.
#[verifier::opaque]
pub open spec fn box_picture(rect: Rect, bg: Option<Color>, rail: Color, p: Palette) -> Seq<
    DrawOpView,
> {
    let (bx, bw) = (rect.x + 1, rect.width - 1);
    let fill = match bg {
        Some(bg) => seq![
            DrawOpView::Paint {
                area: geometry::rect(bx, rect.y as int, bw, rect.height as int),
                style: Style::plain().bg(bg),
            },
        ],
        None => Seq::empty(),
    };
    fill + boxes::frame_picture(
        bx,
        bw,
        rect.y as int,
        rect.y + rect.height - 1,
        Style::plain().fg(p.overlay0),
        bg is Some,
    ) + draw::filled(
        geometry::rect(rect.x as int, rect.y as int, 1, rect.height as int),
        "▌"@,
        Style::plain().fg(rail),
    )
}

fn put_box(ops: &mut Vec<DrawOp>, rect: Rect, bg: Option<Color>, rail: Color, p: &Palette)
    requires
        rect.width >= 2,
        rect.height >= 1,
        rect.fits(),
    ensures
        draw::picture(final(ops)@) == draw::picture(old(ops)@) + box_picture(rect, bg, rail, *p),
{
    proof {
        reveal(box_picture);
    }
    let bx: u16 = rect.x + 1;
    let bw: u16 = rect.width - 1;
    if let Some(bg) = bg {
        put_paint(ops, Rect::new(bx, rect.y, bw, rect.height), Style::plain().bg(bg));
    }
    draw_tab_box_border(
        ops,
        bx,
        bw,
        rect.y,
        rect.y + rect.height - 1,
        Style::plain().fg(p.overlay0),
        bg.is_some(),
    );
    put_filled(
        ops,
        Rect::new(rect.x, rect.y, 1, rect.height),
        "▌",
        Style::plain().fg(rail),
    );
    assert(draw::picture(ops@) =~= draw::picture(old(ops)@) + box_picture(rect, bg, rail, *p));
}

/// How the boxes of a space stand out.
#[derive(Clone, Copy, Debug)]
pub struct SpaceLook {
    /// The space is selected in navigation.
    pub selected: bool,
    /// The space is dragged, or a tab is dragged onto it.
    pub lifted: bool,
    /// The tab that the user is in.
    pub active_tab: Option<usize>,
    pub rail: Color,
}

/// The fill of the box of tab `tab_idx`.
pub open spec fn box_bg(look: SpaceLook, tab_idx: int, p: Palette) -> Option<Color> {
    if look.selected {
        Some(p.surface0)
    } else if look.lifted {
        Some(p.surface1)
    } else if look.active_tab is Some && look.active_tab->0 == tab_idx {
        Some(p.surface_dim)
    } else {
        None
    }
}

fn box_fill(look: SpaceLook, tab_idx: usize, p: &Palette) -> (out: Option<Color>)
    ensures
        out == box_bg(look, tab_idx as int, *p),
{
    let active: bool = match look.active_tab {
        Some(tab) => tab == tab_idx,
        None => false,
    };
    if look.selected {
        Some(p.surface0)
    } else if look.lifted {
        Some(p.surface1)
    } else if active {
        Some(p.surface_dim)
    } else {
        None
    }
}

/// The boxes of `dashes` from the `t`-th on, from row `y` on, on a card of
/// `width` columns from `x` on whose rows end at `bottom`.
pub open spec fn boxes_picture(
    dashes: Seq<Dash>,
    t: int,
    x: u16,
    width: u16,
    y: int,
    bottom: int,
    look: SpaceLook,
    theme: StatusTheme,
    p: Palette,
    now_ms: Option<u64>,
) -> Seq<DrawOpView>
    decreases dashes.len() - t,
{
    let height = geometry::min(dashes[t].rows.len() as int + 2, bottom - y);
    if t < 0 || t >= dashes.len() || y >= bottom || width < 6 || height < 2 {
        Seq::empty()
    } else {
        let dash = dashes[t];
        box_picture(
            geometry::rect(x as int, y, width as int, height),
            box_bg(look, dash.tab_idx, p),
            look.rail,
            p,
        ) + rows_picture(
            dash,
            0,
            (x + 3) as u16,
            y + 1,
            y + height - 1,
            (width - 5) as u16,
            theme,
            p,
            now_ms,
        ) + boxes_picture(dashes, t + 1, x, width, y + height, bottom, look, theme, p, now_ms)
    }
}

fn put_boxes(
    ops: &mut Vec<DrawOp>,
    app: &AppState,
    ws: &Workspace,
    x: u16,
    width: u16,
    from: u16,
    bottom: u16,
    look: SpaceLook,
    now_ms: Option<u64>,
)
    requires
        ws.tabs@.len() > 0 && width >= 6 && from + 2 <= bottom ==> x + width <= u16::MAX,
    ensures
        draw::picture(final(ops)@) == draw::picture(old(ops)@) + boxes_picture(
            dash::dashes_of(app.terminals@, *ws, width as int),
            0,
            x,
            width,
            from as int,
            bottom as int,
            look,
            app.status_theme,
            app.palette,
            now_ms,
        ),
{
    broadcast use views::group_views;

    let p: &Palette = &app.palette;
    let theme: &StatusTheme = &app.status_theme;
    let dashes: Vec<TabDash> = tab_dashboards(app, ws, width);
    let ghost all = dash::dashes_of(app.terminals@, *ws, width as int);
    let ghost goal = draw::picture(ops@) + boxes_picture(
        all,
        0,
        x,
        width,
        from as int,
        bottom as int,
        look,
        *theme,
        *p,
        now_ms,
    );
    let mut y: u16 = from;
    let mut t: usize = 0;
    while t < dashes.len() && y < bottom
        invariant
            t <= dashes@.len(),
            t == 0 ==> y == from,
            t > 0 ==> x + width <= u16::MAX,
            ws.tabs@.len() > 0 && width >= 6 && from + 2 <= bottom ==> x + width <= u16::MAX,
            all == views::of(dashes@),
            all == dash::dashes_of(app.terminals@, *ws, width as int),
            *p == app.palette,
            *theme == app.status_theme,
            goal == draw::picture(old(ops)@) + boxes_picture(
                all,
                0,
                x,
                width,
                from as int,
                bottom as int,
                look,
                *theme,
                *p,
                now_ms,
            ),
            goal == draw::picture(ops@) + boxes_picture(
                all,
                t as int,
                x,
                width,
                y as int,
                bottom as int,
                look,
                *theme,
                *p,
                now_ms,
            ),
        decreases dashes@.len() - t,
    {
        let dash: &TabDash = &dashes[t];
        proof {
            assert(all[t as int] == dashes@[t as int]@);
            dash::lemma_dash_rows_len(
                app.terminals@,
                ws.tabs@[t as int],
                t as int,
                width as int,
            );
        }
        let full: u16 = dash.rows.len() as u16 + 2;
        let height: u16 = if full < bottom - y {
            full
        } else {
            bottom - y
        };
        if width < 6 || height < 2 {
            assert(goal =~= draw::picture(ops@));
            return;
        }
        put_box(
            ops,
            Rect::new(x, y, width, height),
            box_fill(look, dash.tab_idx, p),
            look.rail,
            p,
        );
        put_rows(ops, dash, x + 3, y + 1, y + height - 1, width - 5, theme, p, now_ms);
        assert(goal =~= draw::picture(ops@) + boxes_picture(
            all,
            t + 1,
            x,
            width,
            y + height,
            bottom as int,
            look,
            *theme,
            *p,
            now_ms,
        ));
        y = y + height;
        t = t + 1;
    }
    assert(goal =~= draw::picture(ops@));
}

/// Space `i` is dragged.
pub open spec fn is_dragged(app: AppState, i: int) -> bool {
    match app.drag {
        Some(drag) => match drag.target {
            DragTarget::WorkspaceReorder { source_ws_idx, .. } => source_ws_idx == i,
            _ => false,
        },
        None => false,
    }
}

/// A tab of another space is dragged onto space `i`.
pub open spec fn is_drop_target(app: AppState, i: int) -> bool {
    match app.drag {
        Some(drag) => match drag.target {
            DragTarget::SidebarTabMove { source_ws_idx, target_ws_idx, .. } => target_ws_idx is Some
                && target_ws_idx->0 == i && source_ws_idx != i,
            _ => false,
        },
        None => false,
    }
}

fn space_is_dragged(app: &AppState, i: usize) -> (out: bool)
    ensures
        out == is_dragged(*app, i as int),
{
    match &app.drag {
        Some(drag) => match drag.target {
            DragTarget::WorkspaceReorder { source_ws_idx, insert_idx: _ } => source_ws_idx == i,
            _ => false,
        },
        None => false,
    }
}

fn space_is_drop_target(app: &AppState, i: usize) -> (out: bool)
    ensures
        out == is_drop_target(*app, i as int),
{
    match &app.drag {
        Some(drag) => match drag.target {
            DragTarget::SidebarTabMove { source_ws_idx, target_ws_idx, insert_idx: _ } => {
                match target_ws_idx {
                    Some(target) => target == i && source_ws_idx != i,
                    None => false,
                }
            },
            _ => false,
        },
        None => false,
    }
}

/// The user is in space `i`.
pub open spec fn is_active(app: AppState, i: int) -> bool {
    app.active is Some && app.active->0 == i
}

/// How the boxes of space `i` stand out.
pub open spec fn look_of(app: AppState, i: int, navigating: bool) -> SpaceLook {
    let ws = app.workspaces@[i];
    SpaceLook {
        selected: i == app.selected && navigating,
        lifted: is_dragged(app, i) || is_drop_target(app, i),
        active_tab: if is_active(app, i) {
            Some(ws.active_tab)
        } else {
            None
        },
        rail: boxes::rail_color(ws, app.palette),
    }
}

/// The style of the name of space `i`.
pub open spec fn name_style(app: AppState, i: int, navigating: bool) -> Style {
    if (i == app.selected && navigating) || is_active(app, i) || is_dragged(app, i) {
        Style::plain().fg(app.palette.text).bold(true)
    } else {
        Style::plain().fg(app.palette.subtext0)
    }
}

/// The group that the space of a card heads: its key, and whether it is collapsed.
pub open spec fn card_group(app: AppState, card: WorkspaceCardArea) -> Option<(Seq<char>, bool)> {
    if card.indented {
        None
    } else {
        spaces::headed_group(app, card.ws_idx as int)
    }
}

/// What the space of a card is called.
pub open spec fn card_label(app: AppState, names: Map<u64, String>, card: WorkspaceCardArea) -> Seq<
    char,
> {
    let ws = app.workspaces@[card.ws_idx as int];
    let label = workspace::display_name(ws, names);
    if card.indented {
        spaces::child_label(label, views::text(ws.cached_git_branch), ws.custom_name is Some)
    } else {
        label
    }
}

/// The row with the name of a space: an arrow tells whether its group is
/// collapsed.
pub open spec fn name_spans(
    app: AppState,
    names: Map<u64, String>,
    card: WorkspaceCardArea,
    navigating: bool,
) -> Seq<SpanView> {
    let blank = style::span(" "@, Style::plain());
    let prefix = match card_group(app, card) {
        Some((_, collapsed)) => seq![
            style::span(
                if collapsed {
                    "▸"@
                } else {
                    "▾"@
                },
                Style::plain().fg(app.palette.accent),
            ),
            blank,
        ],
        None => seq![blank],
    };
    prefix.push(
        style::span(
            text::truncated(
                card_label(app, names, card),
                geometry::less(card.rect.width as int, prefix.len() as int + 1) as nat,
            ),
            name_style(app, card.ws_idx as int, navigating),
        ),
    )
}

/// A box of a tab is drawn on `card`, in a list that ends at row `list_bottom`:
/// the space has a tab, its group is not collapsed, and there is room for a frame.
pub open spec fn has_box(app: AppState, card: WorkspaceCardArea, list_bottom: int) -> bool {
    let i = card.ws_idx as int;
    let top = card.rect.y as int;
    let bottom = geometry::min(spaces::capped(card.rect.end_y()), list_bottom);
    let from = if spaces::has_name_row(app, i, card.indented) && top < bottom {
        spaces::capped(top + 1)
    } else {
        top
    };
    let collapsed = match card_group(app, card) {
        Some((_, collapsed)) => collapsed,
        None => false,
    };
    !collapsed && app.workspaces@[i].tabs@.len() > 0 && card.rect.width >= 6 && from + 2 <= bottom
}

/// A space on its card, in a list that ends at row `list_bottom`: its name where
/// it is shown, and the boxes of its tabs unless it heads a collapsed group.
#[verifier::opaque]
pub open spec fn card_picture(
    app: AppState,
    names: Map<u64, String>,
    card: WorkspaceCardArea,
    list_bottom: int,
    navigating: bool,
    now_ms: Option<u64>,
) -> Seq<DrawOpView> {
    let i = card.ws_idx as int;
    let top = card.rect.y as int;
    let bottom = geometry::min(spaces::capped(card.rect.end_y()), list_bottom);
    let named = spaces::has_name_row(app, i, card.indented) && top < bottom;
    let name = if named {
        seq![
            DrawOpView::Lines {
                area: geometry::rect(card.rect.x as int, top, card.rect.width as int, 1),
                lines: seq![name_spans(app, names, card, navigating)],
                scroll: 0,
                centered: false,
            },
        ]
    } else {
        Seq::empty()
    };
    let hidden = match card_group(app, card) {
        Some((_, collapsed)) => collapsed,
        None => false,
    };
    if hidden {
        name
    } else {
        name + boxes_picture(
            dash::dashes_of(app.terminals@, app.workspaces@[i], card.rect.width as int),
            0,
            card.rect.x,
            card.rect.width,
            if named {
                spaces::capped(top + 1)
            } else {
                top
            },
            bottom,
            look_of(app, i, navigating),
            app.status_theme,
            app.palette,
            now_ms,
        )
    }
}

fn space_look(app: &AppState, i: usize, navigating: bool) -> (out: SpaceLook)
    requires
        i < app.workspaces@.len(),
    ensures
        out == look_of(*app, i as int, navigating),
{
    let ws: &Workspace = &app.workspaces[i];
    let active: bool = match app.active {
        Some(active) => active == i,
        None => false,
    };
    SpaceLook {
        selected: i == app.selected && navigating,
        lifted: space_is_dragged(app, i) || space_is_drop_target(app, i),
        active_tab: if active {
            Some(ws.active_tab)
        } else {
            None
        },
        rail: space_rail_color(ws, &app.palette),
    }
}

fn name_line(
    app: &AppState,
    runtimes: &TerminalRuntimeRegistry,
    card: &WorkspaceCardArea,
    group: &Option<(String, bool)>,
    navigating: bool,
) -> (out: Line)
    requires
        card.ws_idx < app.workspaces@.len(),
        match group {
            Some((key, collapsed)) => card_group(*app, *card) == Some((key@, *collapsed)),
            None => card_group(*app, *card) is None,
        },
    ensures
        out@ == name_spans(*app, runtimes.names@, *card, navigating),
{
    broadcast use views::group_views;

    let p: &Palette = &app.palette;
    let i: usize = card.ws_idx;
    let ws: &Workspace = &app.workspaces[i];
    let active: bool = match app.active {
        Some(active) => active == i,
        None => false,
    };
    let look: Style = if (i == app.selected && navigating) || active || space_is_dragged(app, i) {
        Style::plain().fg(p.text).bold(true)
    } else {
        Style::plain().fg(p.subtext0)
    };
    let label: String = ws.display_name_from(runtimes);
    let shown: String = if card.indented {
        let branch: Option<&str> = match &ws.cached_git_branch {
            Some(branch) => Some(branch.as_str()),
            None => None,
        };
        grouped_child_display_label(label.as_str(), branch, ws.custom_name.is_some())
    } else {
        label
    };
    assert(shown@ == card_label(*app, runtimes.names@, *card));
    let mut spans: Vec<Span> = Vec::new();
    let mut prefix: u16 = 1;
    if let Some((_, collapsed)) = group {
        let arrow: &str = if *collapsed {
            "▸"
        } else {
            "▾"
        };
        spans.push(Span::styled(arrow.to_string(), Style::plain().fg(p.accent)));
        prefix = 2;
    }
    spans.push(Span::styled(" ".to_string(), Style::plain()));
    let room: usize = card.rect.width.saturating_sub(prefix + 1) as usize;
    spans.push(Span::styled(truncate_end(shown.as_str(), room), look));
    let out = Line { spans };
    assert(out@ =~= name_spans(*app, runtimes.names@, *card, navigating));
    out
}

fn put_card(
    ops: &mut Vec<DrawOp>,
    app: &AppState,
    runtimes: &TerminalRuntimeRegistry,
    card: &WorkspaceCardArea,
    list_bottom: u16,
    navigating: bool,
    now_ms: Option<u64>,
)
    requires
        card.ws_idx < app.workspaces@.len(),
        has_box(*app, *card, list_bottom as int) ==> card.rect.end_x() <= u16::MAX,
    ensures
        draw::picture(final(ops)@) == draw::picture(old(ops)@) + card_picture(
            *app,
            runtimes.names@,
            *card,
            list_bottom as int,
            navigating,
            now_ms,
        ),
{
    broadcast use views::group_views;

    let ghost goal = draw::picture(ops@) + card_picture(
        *app,
        runtimes.names@,
        *card,
        list_bottom as int,
        navigating,
        now_ms,
    );
    proof {
        reveal(card_picture);
    }
    let i: usize = card.ws_idx;
    let ws: &Workspace = &app.workspaces[i];
    let group: Option<(String, bool)> = if card.indented {
        None
    } else {
        workspace_parent_group_state(app, i)
    };
    let end: u16 = card.rect.y.saturating_add(card.rect.height);
    let bottom: u16 = if end < list_bottom {
        end
    } else {
        list_bottom
    };
    let mut y: u16 = card.rect.y;
    if workspace_name_row_visible(app, i, card.indented) && y < bottom {
        let mut lines: Vec<Line> = Vec::new();
        lines.push(name_line(app, runtimes, card, &group, navigating));
        assert(views::of(lines@) =~= seq![
            name_spans(*app, runtimes.names@, *card, navigating),
        ]);
        put_lines(ops, Rect::new(card.rect.x, y, card.rect.width, 1), lines, 0, false);
        y = y.saturating_add(1);
    }
    let collapsed: bool = match &group {
        Some((_, collapsed)) => *collapsed,
        None => false,
    };
    if !collapsed {
        put_boxes(
            ops,
            app,
            ws,
            card.rect.x,
            card.rect.width,
            y,
            bottom,
            space_look(app, i, navigating),
            now_ms,
        );
    }
    assert(draw::picture(ops@) =~= goal);
}

/// The first `n` of `cards`.
pub open spec fn cards_picture(
    app: AppState,
    names: Map<u64, String>,
    cards: Seq<WorkspaceCardArea>,
    list_bottom: int,
    navigating: bool,
    now_ms: Option<u64>,
    n: nat,
) -> Seq<DrawOpView>
    decreases n,
{
    if n == 0 {
        Seq::empty()
    } else {
        cards_picture(app, names, cards, list_bottom, navigating, now_ms, (n - 1) as nat)
            + card_picture(app, names, cards[n - 1], list_bottom, navigating, now_ms)
    }
}

/// The row on which the tab that is dragged would land.
pub open spec fn dragged_tab_row(app: AppState) -> Option<int> {
    match app.drag {
        Some(drag) => match drag.target {
            DragTarget::SidebarTabMove { target_ws_idx: Some(target), insert_idx, .. } =>
                layout::tab_drop_row(app.view.sidebar_tab_rows@, target, insert_idx),
            _ => None,
        },
        None => None,
    }
}

/// The row on which what is dragged would land in the list in `area`.
pub open spec fn insertion_row(app: AppState, area: Rect) -> Option<int> {
    match app.drag {
        Some(drag) => match drag.target {
            DragTarget::WorkspaceReorder { insert_idx, .. } => match insert_idx {
                Some(insert_idx) => layout::space_drop_row(
                    app.view.workspace_card_areas@,
                    area,
                    insert_idx,
                ),
                None => None,
            },
            DragTarget::SidebarTabMove { .. } => dragged_tab_row(app),
        },
        None => None,
    }
}

/// The style of the menu button, which may call for attention.
pub open spec fn menu_style(app: AppState) -> Style {
    Style::plain().fg(
        if app.menu_attention {
            app.palette.accent
        } else {
            app.palette.text
        },
    ).bold(true)
}

/// The buttons of the header.
pub open spec fn header_picture(app: AppState) -> Seq<DrawOpView> {
    let p = app.palette;
    let at = app.view.header_buttons;
    let plain = Style::plain().fg(p.text).bold(true);
    boxes::button_picture(at.minimize, "◧"@, plain, p) + boxes::button_picture(
        at.new_tab,
        "new tab"@,
        plain,
        p,
    ) + boxes::button_picture(at.new_space, "new space"@, plain, p) + boxes::button_picture(
        at.menu,
        "menu"@,
        menu_style(app),
        p,
    ) + boxes::button_picture(at.panel_toggle, "◨"@, plain, p)
}

/// A line over the width of `area`, in row `y`.
pub open spec fn rule_picture(area: Rect, y: int, color: Color) -> Seq<DrawOpView> {
    draw::filled(
        geometry::rect(area.x as int, y, area.width as int, 1),
        "─"@,
        Style::plain().fg(color),
    )
}

/// The list of spaces in `area`: the buttons above it, the spaces, and the row
/// on which what is dragged would land.
pub open spec fn list_picture(
    app: AppState,
    names: Map<u64, String>,
    area: Rect,
    navigating: bool,
    now_ms: Option<u64>,
) -> Seq<DrawOpView> {
    let p = app.palette;
    let cards = app.view.workspace_card_areas@;
    let header = if area.height >= 4 {
        header_picture(app)
    } else {
        Seq::empty()
    };
    let ruled = if area.height >= WORKSPACE_SECTION_HEADER_ROWS {
        header + rule_picture(area, area.y + WORKSPACE_SECTION_HEADER_ROWS - 1, p.text)
    } else {
        header
    };
    let all = ruled + cards_picture(
        app,
        names,
        cards,
        area.end_y(),
        navigating,
        now_ms,
        cards.len(),
    );
    match insertion_row(app, area) {
        Some(y) => if y < area.end_y() {
            all + rule_picture(area, y, p.accent)
        } else {
            all
        },
        None => all,
    }
}

/// The buttons of the header can be drawn.
pub open spec fn buttons_fit(app: AppState) -> bool {
    let at = app.view.header_buttons;
    &&& boxes::button_fits(at.minimize)
    &&& boxes::button_fits(at.new_tab)
    &&& boxes::button_fits(at.new_space)
    &&& boxes::button_fits(at.menu)
    &&& boxes::button_fits(at.panel_toggle)
}

/// What the last layout pass computed can be drawn as the list in `area`: the
/// buttons, where there is room for them, and every card with a box on it are
/// within the coordinates, and so is the row on which a dragged tab would land.
pub open spec fn is_drawable(app: AppState, area: Rect) -> bool {
    let cards = app.view.workspace_card_areas@;
    &&& area.height >= 4 ==> buttons_fit(app)
    &&& forall|i: int|
        0 <= i < cards.len() ==> (#[trigger] cards[i]).ws_idx < app.workspaces@.len() && (has_box(
            app,
            cards[i],
            area.end_y(),
        ) ==> cards[i].rect.end_x() <= u16::MAX)
    &&& dragged_tab_row(app) matches Some(y) ==> y <= u16::MAX
}

fn put_header(ops: &mut Vec<DrawOp>, app: &AppState)
    requires
        buttons_fit(*app),
    ensures
        draw::picture(final(ops)@) == draw::picture(old(ops)@) + header_picture(*app),
{
    let p: &Palette = &app.palette;
    let at: &HeaderButtons = &app.view.header_buttons;
    let plain: Style = Style::plain().fg(p.text).bold(true);
    render_header_button(ops, at.minimize, "◧", plain, p);
    render_header_button(ops, at.new_tab, "new tab", plain, p);
    render_header_button(ops, at.new_space, "new space", plain, p);
    let menu: Style = if app.menu_attention {
        Style::plain().fg(p.accent).bold(true)
    } else {
        plain
    };
    render_header_button(ops, at.menu, "menu", menu, p);
    render_header_button(ops, at.panel_toggle, "◨", plain, p);
    assert(draw::picture(ops@) =~= draw::picture(old(ops)@) + header_picture(*app));
}

fn put_rule(ops: &mut Vec<DrawOp>, area: Rect, y: u16, color: Color)
    ensures
        draw::picture(final(ops)@) == draw::picture(old(ops)@) + rule_picture(
            area,
            y as int,
            color,
        ),
{
    put_filled(ops, Rect::new(area.x, y, area.width, 1), "─", Style::plain().fg(color));
}

fn find_insertion_row(app: &AppState, area: Rect) -> (out: Option<u16>)
    requires
        is_drawable(*app, area),
        area.end_y() <= u16::MAX,
    ensures
        match out {
            Some(y) => insertion_row(*app, area) == Some(y as int),
            None => insertion_row(*app, area) is None,
        },
{
    match &app.drag {
        Some(drag) => match drag.target {
            DragTarget::WorkspaceReorder { source_ws_idx: _, insert_idx } => match insert_idx {
                Some(insert_idx) => workspace_drop_indicator_row(
                    &app.view.workspace_card_areas,
                    area,
                    insert_idx,
                ),
                None => None,
            },
            DragTarget::SidebarTabMove { source_ws_idx: _, target_ws_idx, insert_idx } => {
                match target_ws_idx {
                    Some(target) => sidebar_tab_drop_indicator_row(
                        &app.view.sidebar_tab_rows,
                        target,
                        insert_idx,
                    ),
                    None => None,
                }
            },
        },
        None => None,
    }
}

/// Draws the list of spaces in `area` as the last layout pass placed them.
/// `now_ms` is the time in milliseconds, where the clock can be read.
pub fn render_workspace_list(
    app: &AppState,
    terminal_runtimes: &TerminalRuntimeRegistry,
    area: Rect,
    is_navigating: bool,
    now_ms: Option<u64>,
) -> (out: Vec<DrawOp>)
    requires
        is_drawable(*app, area),
        area.end_y() <= u16::MAX,
    ensures
        draw::picture(out@) == list_picture(
            *app,
            terminal_runtimes.names@,
            area,
            is_navigating,
            now_ms,
        ),
{
    broadcast use views::group_views;

    let p: &Palette = &app.palette;
    let ghost names = terminal_runtimes.names@;
    let insertion: Option<u16> = find_insertion_row(app, area);
    let list_bottom: u16 = area.y + area.height;
    let mut ops: Vec<DrawOp> = Vec::new();
    if area.height >= 4 {
        put_header(&mut ops, app);
        assert(draw::picture(ops@) =~= header_picture(*app));
    }
    if area.height >= WORKSPACE_SECTION_HEADER_ROWS {
        put_rule(&mut ops, area, area.y + WORKSPACE_SECTION_HEADER_ROWS - 1, p.text);
    }
    let cards: &Vec<WorkspaceCardArea> = &app.view.workspace_card_areas;
    let ghost start = draw::picture(ops@);
    let mut i: usize = 0;
    assert(start + cards_picture(
        *app,
        names,
        cards@,
        list_bottom as int,
        is_navigating,
        now_ms,
        0,
    ) =~= start);
    while i < cards.len()
        invariant
            i <= cards@.len(),
            is_drawable(*app, area),
            list_bottom == area.end_y(),
            *cards == app.view.workspace_card_areas,
            names == terminal_runtimes.names@,
            draw::picture(ops@) == start + cards_picture(
                *app,
                names,
                cards@,
                list_bottom as int,
                is_navigating,
                now_ms,
                i as nat,
            ),
        decreases cards@.len() - i,
    {
        put_card(
            &mut ops,
            app,
            terminal_runtimes,
            &cards[i],
            list_bottom,
            is_navigating,
            now_ms,
        );
        i = i + 1;
        assert(draw::picture(ops@) =~= start + cards_picture(
            *app,
            names,
            cards@,
            list_bottom as int,
            is_navigating,
            now_ms,
            i as nat,
        ));
    }
    if let Some(y) = insertion {
        if y < list_bottom {
            put_rule(&mut ops, area, y, p.accent);
        }
    }
    assert(draw::picture(ops@) =~= list_picture(*app, names, area, is_navigating, now_ms));
    ops
}

/// The toggle of the sidebar.
pub open spec fn toggle_picture(app: AppState, area: Rect, collapsed: bool) -> Seq<DrawOpView> {
    let at = if collapsed {
        layout::collapsed_toggle(area)
    } else {
        layout::expanded_toggle(area)
    };
    let look = if collapsed && app.menu_attention {
        Style::plain().fg(app.palette.accent).bold(true)
    } else {
        Style::plain().fg(app.palette.overlay0)
    };
    if at == geometry::no_rect() {
        Seq::empty()
    } else {
        seq![
            DrawOpView::Lines {
                area: at,
                lines: seq![
                    seq![
                        style::span(
                            if collapsed {
                                "»"@
                            } else {
                                "«"@
                            },
                            look,
                        ),
                    ],
                ],
                scroll: 0,
                centered: false,
            },
        ]
    }
}

/// The sidebar's last column and rows are coordinates.
pub open spec fn is_on_screen(area: Rect) -> bool {
    &&& area.x + geometry::less(area.width as int, 1) <= u16::MAX
    &&& area.end_y() <= u16::MAX
}

/// Draws the toggle of the sidebar.
pub fn render_sidebar_toggle(app: &AppState, area: Rect, collapsed: bool) -> (out: Vec<DrawOp>)
    requires
        is_on_screen(area),
    ensures
        draw::picture(out@) == toggle_picture(*app, area, collapsed),
{
    let mut ops: Vec<DrawOp> = Vec::new();
    let at: Rect = if collapsed {
        collapsed_sidebar_toggle_rect(area)
    } else {
        expanded_sidebar_toggle_rect(area)
    };
    if at == (Rect { x: 0, y: 0, width: 0, height: 0 }) {
        assert(draw::picture(ops@) =~= toggle_picture(*app, area, collapsed));
        return ops;
    }
    let icon: &str = if collapsed {
        "»"
    } else {
        "«"
    };
    let look: Style = if collapsed && app.menu_attention {
        Style::plain().fg(app.palette.accent).bold(true)
    } else {
        Style::plain().fg(app.palette.overlay0)
    };
    let mut lines: Vec<Line> = Vec::new();
    let line: Line = Line::of(icon.to_string(), look);
    lines.push(line);
    assert(views::of(lines@) =~= seq![seq![style::span(icon@, look)]]);
    put_lines(&mut ops, at, lines, 0, false);
    assert(draw::picture(ops@) =~= toggle_picture(*app, area, collapsed));
    ops
}

/// The line along the right edge of the sidebar.
pub open spec fn edge_picture(area: Rect, p: Palette) -> Seq<DrawOpView> {
    draw::filled(
        geometry::rect(
            area.x + geometry::less(area.width as int, 1),
            area.y as int,
            1,
            area.height as int,
        ),
        "│"@,
        Style::plain().fg(p.text),
    )
}

/// The open sidebar: the line along its edge, the list of spaces, the toggle.
pub open spec fn sidebar_picture(
    app: AppState,
    names: Map<u64, String>,
    area: Rect,
    now_ms: Option<u64>,
) -> Seq<DrawOpView> {
    edge_picture(area, app.palette) + list_picture(
        app,
        names,
        spaces::list_rect(area),
        app.mode is Navigate,
        now_ms,
    ) + toggle_picture(app, area, false)
}

fn put_edge(ops: &mut Vec<DrawOp>, area: Rect, p: &Palette)
    requires
        is_on_screen(area),
    ensures
        draw::picture(final(ops)@) == draw::picture(old(ops)@) + edge_picture(area, *p),
{
    let x: u16 = area.x + area.width.saturating_sub(1);
    put_filled(ops, Rect::new(x, area.y, 1, area.height), "│", Style::plain().fg(p.text));
}

/// Draws the open sidebar. `now_ms` is the time in milliseconds, where the clock
/// can be read.
pub fn render_sidebar(
    app: &AppState,
    terminal_runtimes: &TerminalRuntimeRegistry,
    area: Rect,
    now_ms: Option<u64>,
) -> (out: Vec<DrawOp>)
    requires
        is_drawable(*app, spaces::list_rect(area)),
        is_on_screen(area),
    ensures
        draw::picture(out@) == sidebar_picture(*app, terminal_runtimes.names@, area, now_ms),
{
    broadcast use views::group_views;

    let navigating: bool = app.mode == Mode::Navigate;
    let mut ops: Vec<DrawOp> = Vec::new();
    put_edge(&mut ops, area, &app.palette);
    draw::put_all(
        &mut ops,
        render_workspace_list(
            app,
            terminal_runtimes,
            workspace_list_rect(area),
            navigating,
            now_ms,
        ),
    );
    draw::put_all(&mut ops, render_sidebar_toggle(app, area, false));
    assert(draw::picture(ops@) =~= sidebar_picture(
        *app,
        terminal_runtimes.names@,
        area,
        now_ms,
    ));
    ops
}

/// The tab of a box, if there is one.
pub open spec fn tab_of(app: AppState, row: SidebarTabRow) -> Option<Tab> {
    if row.ws_idx < app.workspaces@.len() && row.tab_idx
        < app.workspaces@[row.ws_idx as int].tabs@.len() {
        Some(app.workspaces@[row.ws_idx as int].tabs@[row.tab_idx as int])
    } else {
        None
    }
}

/// The box of a tab in the minimized sidebar: its frame and its dot.
#[verifier::opaque]
pub open spec fn dot_box_picture(app: AppState, row: SidebarTabRow) -> Seq<DrawOpView> {
    match tab_of(app, row) {
        Some(tab) => if row.rect.width < 6 || row.rect.height == 0 {
            Seq::empty()
        } else {
            let ws = app.workspaces@[row.ws_idx as int];
            let look = SpaceLook {
                lifted: false,
                ..look_of(app, row.ws_idx as int, app.mode is Navigate)
            };
            let mark = attention::tab_mark(app.terminals@, tab);
            let ringed = dash::has_live_subs(tab.metadata_tokens) && mark.0 is Working;
            box_picture(
                row.rect,
                box_bg(look, row.tab_idx as int, app.palette),
                look.rail,
                app.palette,
            ) + dot_picture(
                row.rect.x + if ringed {
                    2int
                } else {
                    3
                },
                (row.rect.y + 1) as u16,
                mark.0,
                mark.1,
                ringed,
                app.status_theme,
                app.palette,
            )
        },
        None => Seq::empty(),
    }
}

/// The first `n` of `rows`.
pub open spec fn dot_boxes_picture(app: AppState, rows: Seq<SidebarTabRow>, n: nat) -> Seq<
    DrawOpView,
>
    decreases n,
{
    if n == 0 {
        Seq::empty()
    } else {
        dot_boxes_picture(app, rows, (n - 1) as nat) + dot_box_picture(app, rows[n - 1])
    }
}

/// The minimized sidebar: the line along its edge, the button that restores it,
/// a box for each tab, the toggle.
pub open spec fn collapsed_picture(app: AppState, area: Rect) -> Seq<DrawOpView> {
    let p = app.palette;
    let content_w = geometry::less(area.width as int, 1);
    let button = layout::minimize_button(area);
    let rows = layout::collapsed_boxes(app, area);
    if area.width == 0 || area.height == 0 {
        Seq::empty()
    } else {
        edge_picture(area, p) + (if button == geometry::no_rect() {
            Seq::empty()
        } else {
            boxes::button_picture(button, "◧"@, Style::plain().fg(p.text).bold(true), p)
        }) + (if area.height >= WORKSPACE_SECTION_HEADER_ROWS && content_w > 0 {
            rule_picture(
                spaces::list_rect(area),
                area.y + WORKSPACE_SECTION_HEADER_ROWS - 1,
                p.text,
            )
        } else {
            Seq::empty()
        }) + dot_boxes_picture(app, rows, rows.len()) + toggle_picture(app, area, true)
    }
}

fn put_dot_box(ops: &mut Vec<DrawOp>, app: &AppState, row: &SidebarTabRow)
    requires
        row.rect.fits(),
    ensures
        draw::picture(final(ops)@) == draw::picture(old(ops)@) + dot_box_picture(*app, *row),
{
    proof {
        reveal(dot_box_picture);
    }
    let ghost goal = draw::picture(ops@) + dot_box_picture(*app, *row);
    if row.ws_idx >= app.workspaces.len() {
        assert(draw::picture(ops@) =~= goal);
        return;
    }
    let ws: &Workspace = &app.workspaces[row.ws_idx];
    if row.tab_idx >= ws.tabs.len() || row.rect.width < 6 || row.rect.height == 0 {
        assert(draw::picture(ops@) =~= goal);
        return;
    }
    let tab: &Tab = &ws.tabs[row.tab_idx];
    let (state, seen, _since): (AgentState, bool, Option<u64>) = tab_attention(app, tab);
    let mut look: SpaceLook = space_look(app, row.ws_idx, app.mode == Mode::Navigate);
    look.lifted = false;
    put_box(ops, row.rect, box_fill(look, row.tab_idx, &app.palette), look.rail, &app.palette);
    let subs_live: bool = match tab.metadata_tokens.get("hdr") {
        Some(counts) => str_has_part(counts.as_str(), " sub"),
        None => false,
    };
    let ringed: bool = subs_live && state == AgentState::Working;
    let x: u16 = row.rect.x + if ringed {
        2
    } else {
        3
    };
    put_dot(
        ops,
        x,
        row.rect.y + 1,
        state,
        seen,
        ringed,
        &app.status_theme,
        &app.palette,
    );
    assert(draw::picture(ops@) =~= goal);
}

/// Draws the minimized sidebar.
pub fn render_sidebar_collapsed(app: &AppState, area: Rect) -> (out: Vec<DrawOp>)
    requires
        is_on_screen(area),
    ensures
        draw::picture(out@) == collapsed_picture(*app, area),
{
    broadcast use views::group_views;

    let p: &Palette = &app.palette;
    let mut ops: Vec<DrawOp> = Vec::new();
    if area.width == 0 || area.height == 0 {
        assert(draw::picture(ops@) =~= collapsed_picture(*app, area));
        return ops;
    }
    put_edge(&mut ops, area, p);
    let button: Rect = collapsed_minimize_button_rect(area);
    if !(button == (Rect { x: 0, y: 0, width: 0, height: 0 })) {
        render_header_button(&mut ops, button, "◧", Style::plain().fg(p.text).bold(true), p);
    }
    let content_w: u16 = area.width.saturating_sub(1);
    if area.height >= WORKSPACE_SECTION_HEADER_ROWS && content_w > 0 {
        put_rule(
            &mut ops,
            workspace_list_rect(area),
            area.y + WORKSPACE_SECTION_HEADER_ROWS - 1,
            p.text,
        );
    }
    let ghost start = draw::picture(ops@);
    let rows: Vec<SidebarTabRow> = collapsed_tab_boxes(app, area);
    let mut i: usize = 0;
    assert(start + dot_boxes_picture(*app, rows@, 0) =~= start);
    while i < rows.len()
        invariant
            i <= rows@.len(),
            forall|k: int| 0 <= k < rows@.len() ==> (#[trigger] rows@[k]).rect.fits(),
            draw::picture(ops@) == start + dot_boxes_picture(*app, rows@, i as nat),
        decreases rows@.len() - i,
    {
        put_dot_box(&mut ops, app, &rows[i]);
        i = i + 1;
        assert(draw::picture(ops@) =~= start + dot_boxes_picture(*app, rows@, i as nat));
    }
    draw::put_all(&mut ops, render_sidebar_toggle(app, area, true));
    assert(draw::picture(ops@) =~= collapsed_picture(*app, area));
    ops
}

} // verus!
