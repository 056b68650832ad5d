use herdr::app::detail_panel::{
    timeline_path, DetailPanelCache, Exchange, RefreshAction, RefreshEvent, SubLane, Timeline,
    TimelineItem, CYCLE_DWELL, REFRESH_INTERVAL,
};
use herdr::app::state::AppState;
use herdr::draw::DrawOp;
use herdr::geometry::Rect;
use herdr::seconds::Seconds;
use herdr::style::{Color, Palette, Style};
use herdr::ui::detail_panel::{
    aggregate_line, content_rect, detail_panel_hit, detail_panel_lines,
    detail_panel_lines_with_hits, detail_panel_max_scroll, detail_panel_viewer_rect, item_line,
    max_scroll_for, render_detail_panel, section_header, split_content, DetailPanelHit,
};
use herdr::ui::figures::{fmt_clock, fmt_elapsed, fmt_secs, fmt_tokens, local_hour_min};
use herdr::ui::status::{StatusLook, StatusTheme};
use herdr::ui::viewer::{
    detail_panel_viewer_max_scroll, sync_viewer_scroll, viewer_epoch, viewer_exchange,
    viewer_lines, viewer_meta, viewer_state, CYCLE_WINDOW,
};
use herdr::ui::wrap::{feed_query, wrap_text};
use herdr::workspace::{AgentSession, Pane, PaneId, Tab, TerminalState, Workspace};
use ratatui::widgets::Widget;

const SECOND: u64 = 1_000_000_000;
const CLOCK: (i32, i32) = (14, 22);

fn palette() -> Palette {
    Palette {
        accent: Color::Rgb(1, 0, 0),
        text: Color::Rgb(2, 0, 0),
        subtext0: Color::Rgb(3, 0, 0),
        overlay0: Color::Rgb(4, 0, 0),
        overlay1: Color::Rgb(5, 0, 0),
        surface0: Color::Rgb(6, 0, 0),
        surface1: Color::Rgb(7, 0, 0),
        surface_dim: Color::Rgb(8, 0, 0),
        red: Color::Rgb(9, 0, 0),
        green: Color::Rgb(10, 0, 0),
        yellow: Color::Rgb(11, 0, 0),
        blue: Color::Rgb(12, 0, 0),
        mauve: Color::Rgb(13, 0, 0),
    }
}

fn theme() -> StatusTheme {
    let look = |icon, label| StatusLook { icon, style: Style::plain(), label };
    StatusTheme {
        blocked: look("◆", "blocked"),
        working: look("●", "working"),
        done: look("●", "done"),
        idle: look("○", "idle"),
        unknown: look("·", "unknown"),
    }
}

fn test_app() -> AppState {
    AppState::new(palette(), theme())
}

fn cache(timeline: Timeline) -> DetailPanelCache {
    DetailPanelCache {
        session_key: "test".into(),
        agent: "pi".into(),
        timeline: Some(timeline),
        checked_at: 0,
        timeline_sig: (0, 0),
    }
}

fn secs(n: f64) -> Seconds {
    Seconds::from_bits(n.to_bits()).expect("a number")
}

fn test_timeline() -> Timeline {
    let item = |u: &str, label: &str, took: Option<Seconds>| TimelineItem {
        u: u.into(),
        label: label.into(),
        head: format!("please {label} soon"),
        ts: secs(100.0),
        secs: took,
        off: 0,
    };
    Timeline {
        status: "working".into(),
        total_secs: secs(754.0),
        out_tokens: 96_512,
        done: vec![
            item("u1", "restored the configs", Some(secs(300.0))),
            item("u2", "", Some(secs(60.0))),
        ],
        current: vec![item("u3", "building the panel", None)],
        next: vec!["ship the teardown".into()],
        exch: vec![Exchange {
            u: "u1".into(),
            ts: secs(1_787_937_325.0),
            last_ts: secs(1_787_937_625.0),
            head: "please restore both configs before anything else breaks".into(),
            rhead: "Restored. Both configs match again.".into(),
            label: String::new(),
            ylabel: "restoring the configs".into(),
        }],
        subs: vec![
            SubLane {
                label: "writing allocation unit tests".into(),
                status: "working".into(),
                started: secs(50.0),
                ended: secs(0.0),
                path: "/tmp/lane.jsonl".into(),
                events: vec!["18:59 Write sandboxProbe.ts".into()],
            },
            SubLane {
                label: "audited the palette mapping".into(),
                status: "done".into(),
                started: secs(10.0),
                ended: secs(52.0),
                path: "/tmp/lane-done.jsonl".into(),
                events: vec![],
            },
        ],
    }
}

/// The panel that a terminal of 180 by 40 cells has on its right side.
fn panel_rect() -> Rect {
    Rect::new(134, 0, 46, 40)
}

fn to_color(color: Color) -> ratatui::style::Color {
    match color {
        Color::Rgb(r, g, b) => ratatui::style::Color::Rgb(r, g, b),
        other => panic!("unexpected color {other:?}"),
    }
}

fn to_style(style: Style) -> ratatui::style::Style {
    let mut out = ratatui::style::Style::default();
    if let Some(fg) = style.fg {
        out = out.fg(to_color(fg));
    }
    if let Some(bg) = style.bg {
        out = out.bg(to_color(bg));
    }
    out
}

fn to_rect(rect: Rect) -> ratatui::layout::Rect {
    ratatui::layout::Rect::new(rect.x, rect.y, rect.width, rect.height)
}

fn drawn(ops: &[DrawOp], width: u16, height: u16) -> ratatui::buffer::Buffer {
    let mut buf = ratatui::buffer::Buffer::empty(ratatui::layout::Rect::new(0, 0, width, height));
    for op in ops {
        match op {
            DrawOp::Symbol { area, symbol } => {
                for y in area.y..area.y + area.height {
                    for x in area.x..area.x + area.width {
                        buf[(x, y)].set_symbol(symbol);
                    }
                }
            }
            DrawOp::Paint { area, style } => {
                for y in area.y..area.y + area.height {
                    for x in area.x..area.x + area.width {
                        buf[(x, y)].set_style(to_style(*style));
                    }
                }
            }
            DrawOp::Text { x, y, text, style } => {
                buf.set_string(*x, *y, text, to_style(*style));
            }
            DrawOp::Lines { area, lines, scroll, centered } => {
                assert!(!centered);
                let lines: Vec<ratatui::text::Line> = lines
                    .iter()
                    .map(|line| {
                        ratatui::text::Line::from(
                            line.spans
                                .iter()
                                .map(|span| {
                                    ratatui::text::Span::styled(
                                        span.content.clone(),
                                        to_style(span.style),
                                    )
                                })
                                .collect::<Vec<_>>(),
                        )
                    })
                    .collect();
                ratatui::widgets::Paragraph::new(lines)
                    .scroll((*scroll, 0))
                    .render(to_rect(*area), &mut buf);
            }
        }
    }
    buf
}

fn line_text(line: &herdr::style::Line) -> String {
    line.spans.iter().map(|span| span.content.as_str()).collect()
}

#[test]
fn cycler_advances_per_dwell_and_holds_while_pinned() {
    let mut app = test_app();
    let t0 = 5 * SECOND;
    app.tick_detail_cycler(t0);
    app.tick_detail_cycler(t0 + CYCLE_DWELL - SECOND);
    assert_eq!(app.detail_panel_cycle, 0);
    app.tick_detail_cycler(t0 + CYCLE_DWELL);
    assert_eq!(app.detail_panel_cycle, 1);

    app.detail_panel_pinned = Some("u9".into());
    app.tick_detail_cycler(t0 + CYCLE_DWELL * 10);
    assert_eq!(app.detail_panel_cycle, 1);

    // unpinning restarts the dwell from the pinned stretch's last tick
    app.detail_panel_pinned = None;
    app.tick_detail_cycler(t0 + CYCLE_DWELL * 10 + SECOND);
    assert_eq!(app.detail_panel_cycle, 1);
    app.tick_detail_cycler(t0 + CYCLE_DWELL * 11);
    assert_eq!(app.detail_panel_cycle, 2);
}

#[test]
fn durations_and_tokens_format_compactly() {
    assert_eq!(fmt_secs(secs(42.0)), "42s");
    assert_eq!(fmt_secs(secs(754.0)), "12m");
    assert_eq!(fmt_secs(secs(6135.0)), "1h42");
    assert_eq!(fmt_tokens(96_512), "96k");
    assert_eq!(fmt_tokens(1_240_000), "1.2M");
}

#[test]
fn panel_hits_map_tasks_and_subs_through_scroll() {
    let mut app = test_app();
    let rect = panel_rect();
    app.detail_panel = Some(cache(test_timeline()));

    let content = content_rect(rect);
    assert_eq!(detail_panel_hit(&app, rect, content.x, content.y, CLOCK), None);
    // blank + tasks header, then the first done row pins its exchange; the
    // jump query prefers the longer prompt of the exchange over the item's
    assert_eq!(detail_panel_hit(&app, rect, content.x, content.y + 2, CLOCK), None);
    assert_eq!(
        detail_panel_hit(&app, rect, content.x, content.y + 3, CLOCK),
        Some(DetailPanelHit::ViewExchange {
            u: "u1".into(),
            query: Some("please restore both configs".into()),
        })
    );
    // purple prediction row is not clickable
    assert_eq!(detail_panel_hit(&app, rect, content.x, content.y + 6, CLOCK), None);
    // blank + header, then live and finished subagent rows both toggle
    assert_eq!(
        detail_panel_hit(&app, rect, content.x, content.y + 9, CLOCK),
        Some(DetailPanelHit::ToggleSub {
            path: "/tmp/lane.jsonl".into()
        })
    );
    assert_eq!(
        detail_panel_hit(&app, rect, content.x, content.y + 10, CLOCK),
        Some(DetailPanelHit::ToggleSub {
            path: "/tmp/lane-done.jsonl".into()
        })
    );
    // every viewer row off the buttons resumes cycling, never a list hit
    let (list, viewer) = split_content(content);
    assert_eq!(list.height, 26);
    assert_eq!(viewer.height, 13);
    assert_eq!(detail_panel_hit(&app, rect, content.x, viewer.y - 1, CLOCK), None);
    for row in viewer.y..viewer.y + viewer.height {
        assert_eq!(
            detail_panel_hit(&app, rect, viewer.x, row, CLOCK),
            Some(DetailPanelHit::ViewerResume)
        );
    }
}

#[test]
fn viewer_clicks_intercept_even_where_scrolled_rows_would_hit() {
    let mut app = test_app();
    app.detail_panel = Some(cache(test_timeline()));
    // content is 9 rows: 6 list rows plus a 3-row viewer
    let rect = Rect::new(0, 0, 46, 10);
    let (list, viewer) = split_content(content_rect(rect));
    app.detail_panel_scroll = 4;
    // scrolled so a subagent toggle row sits on the last list row
    assert_eq!(
        detail_panel_hit(&app, rect, list.x, list.y + list.height - 1, CLOCK),
        Some(DetailPanelHit::ToggleSub {
            path: "/tmp/lane.jsonl".into()
        })
    );
    // one row lower is the viewer: the next toggle row must not map
    assert_eq!(
        detail_panel_hit(&app, rect, viewer.x, viewer.y, CLOCK),
        Some(DetailPanelHit::ViewerResume)
    );
}

#[test]
fn short_panels_skip_the_viewer_and_keep_the_full_list() {
    let mut app = test_app();
    app.detail_panel = Some(cache(test_timeline()));
    // content is 8 rows, under the 9-row minimum: no viewer anywhere
    let rect = Rect::new(0, 0, 46, 9);
    let content = content_rect(rect);
    assert_eq!(split_content(content).1, Rect::default());
    assert_eq!(
        detail_panel_hit(&app, rect, content.x, content.y + 3, CLOCK),
        Some(DetailPanelHit::ViewExchange {
            u: "u1".into(),
            query: Some("please restore both configs".into()),
        })
    );
    for row in content.y + 6..content.y + content.height {
        assert_ne!(
            detail_panel_hit(&app, rect, content.x, row, CLOCK),
            Some(DetailPanelHit::ViewerResume)
        );
    }
}

#[test]
fn viewer_cycles_oldest_to_newest_and_pins_on_request() {
    let mut app = test_app();
    app.detail_panel = Some(cache(test_timeline()));
    for (cycle, u) in [(0, "u1"), (1, "u2"), (2, "u3"), (3, "u1")] {
        app.detail_panel_cycle = cycle;
        let (pos, total, view) = viewer_exchange(&app).expect("an exchange to show");
        assert_eq!(view.u, u);
        assert_eq!(total, 3);
        assert_eq!(pos, cycle % 3 + 1);
    }
    // u1 rides its exchange; u2 has none and falls back to the item
    app.detail_panel_cycle = 0;
    let (_, _, view) = viewer_exchange(&app).expect("an exchange to show");
    assert!(view.head.starts_with("please restore both configs"));
    assert!(!view.rhead.is_empty());
    app.detail_panel_cycle = 1;
    let (_, _, view) = viewer_exchange(&app).expect("an exchange to show");
    assert_eq!(view.head, "please  soon");
    assert!(view.rhead.is_empty());

    app.detail_panel_pinned = Some("u1".into());
    app.detail_panel_cycle = 2;
    let (pos, _, view) = viewer_exchange(&app).expect("an exchange to show");
    assert_eq!((pos, view.u.as_str()), (1, "u1"));
}

#[test]
fn viewer_buttons_hit_their_own_columns_and_clamp_step_targets() {
    let mut app = test_app();
    let rect = panel_rect();
    app.detail_panel = Some(cache(test_timeline()));
    app.detail_panel_cycle = 1;
    let viewer = detail_panel_viewer_rect(rect);

    // u2 shown: each button maps across its full width, no unpin
    let (idx, views) = viewer_state(&app).expect("a shown exchange");
    let buttons = viewer_meta(&app, idx, &views, CLOCK).1;
    assert_eq!(buttons.len(), 3);
    for button in &buttons {
        for x in [button.start, button.end - 1] {
            assert_eq!(
                detail_panel_hit(&app, rect, viewer.x + x as u16, viewer.y + 1, CLOCK),
                Some(button.hit.clone())
            );
        }
    }
    let hits: Vec<_> = buttons.into_iter().map(|button| button.hit).collect();
    assert!(hits.contains(&DetailPanelHit::ViewerPrev { u: Some("u1".into()) }));
    assert!(hits.contains(&DetailPanelHit::ViewerNext { u: Some("u3".into()) }));
    assert!(hits.contains(&DetailPanelHit::ViewerJump {
        query: Some("please  soon".into())
    }));
    // the clock and the body rows still resume cycling
    assert_eq!(
        detail_panel_hit(&app, rect, viewer.x, viewer.y + 1, CLOCK),
        Some(DetailPanelHit::ViewerResume)
    );
    assert_eq!(
        detail_panel_hit(&app, rect, viewer.x + 1, viewer.y + 2, CLOCK),
        Some(DetailPanelHit::ViewerResume)
    );

    // at the ends the exhausted arrow carries no step target
    app.detail_panel_cycle = 0;
    let (idx, views) = viewer_state(&app).expect("a shown exchange");
    let hits: Vec<_> = viewer_meta(&app, idx, &views, CLOCK)
        .1
        .into_iter()
        .map(|button| button.hit)
        .collect();
    assert!(hits.contains(&DetailPanelHit::ViewerPrev { u: None }));
    assert!(hits.contains(&DetailPanelHit::ViewerNext { u: Some("u2".into()) }));
    app.detail_panel_pinned = Some("u3".into());
    let (idx, views) = viewer_state(&app).expect("a shown exchange");
    let hits: Vec<_> = viewer_meta(&app, idx, &views, CLOCK)
        .1
        .into_iter()
        .map(|button| button.hit)
        .collect();
    assert!(hits.contains(&DetailPanelHit::ViewerPrev { u: Some("u2".into()) }));
    assert!(hits.contains(&DetailPanelHit::ViewerNext { u: None }));
}

#[test]
fn jump_query_prefers_the_exchanges_first_head_line() {
    let mut tl = test_timeline();
    tl.exch[0].head = "restore the configs from the backup snapshot\nthen tail the logs".into();
    let mut app = test_app();
    app.detail_panel = Some(cache(tl));
    let rows = detail_panel_lines_with_hits(&app, 43, secs(0.0));
    let query_for = |u: &str| {
        rows.iter()
            .filter_map(|row| row.hit.as_ref())
            .find_map(|hit| match hit {
                DetailPanelHit::ViewExchange { u: hit_u, query } if hit_u == u => {
                    Some(query.clone())
                }
                _ => None,
            })
            .expect("a task row hit")
    };
    // first line of the prompt only, capped back to the last whole word
    assert_eq!(query_for("u1"), Some("restore the configs from the".into()));
    // u2 has no exchange and keeps the item's clipped head
    assert_eq!(query_for("u2"), Some("please  soon".into()));
}

#[test]
fn viewer_scroll_offsets_the_body_and_clamps() {
    let mut tl = test_timeline();
    tl.exch[0].head = (1..=12)
        .map(|i| format!("word{i}"))
        .collect::<Vec<_>>()
        .join("\n");
    let mut app = test_app();
    app.detail_panel = Some(cache(tl));
    // content is 15 rows: a 10-row list and a 5-row viewer (2 body rows)
    let rect = Rect::new(0, 0, 46, 16);
    let viewer = detail_panel_viewer_rect(rect);
    assert_eq!(viewer.height, 5);
    // 12 head lines plus one rhead line, two visible at a time
    assert_eq!(detail_panel_viewer_max_scroll(&app, rect), 11);
    let body_text = |app: &AppState| -> Vec<String> {
        viewer_lines(app, viewer.width, viewer.height, CLOCK)
            .iter()
            .skip(3)
            .map(line_text)
            .collect()
    };
    assert_eq!(body_text(&app), ["word1", "word2"]);
    app.detail_panel_viewer_scroll = 3;
    assert_eq!(body_text(&app), ["word4", "word5"]);
    app.detail_panel_viewer_scroll = 99;
    assert_eq!(
        body_text(&app),
        ["word12", "Restored. Both configs match again."]
    );
}

#[test]
fn viewer_scroll_resets_only_when_the_shown_exchange_changes() {
    let mut app = test_app();
    app.detail_panel = Some(cache(test_timeline()));
    sync_viewer_scroll(&mut app);
    assert_eq!(app.detail_panel_viewer_shown.as_deref(), Some("u1"));
    app.detail_panel_viewer_scroll = 4;
    sync_viewer_scroll(&mut app);
    assert_eq!(app.detail_panel_viewer_scroll, 4);
    // the cycler moving on resets the offset
    app.detail_panel_cycle = 1;
    sync_viewer_scroll(&mut app);
    assert_eq!(app.detail_panel_viewer_scroll, 0);
    // so does a pin landing on a different exchange
    app.detail_panel_viewer_scroll = 2;
    app.detail_panel_pinned = Some("u3".into());
    sync_viewer_scroll(&mut app);
    assert_eq!(app.detail_panel_viewer_scroll, 0);
    assert_eq!(app.detail_panel_viewer_shown.as_deref(), Some("u3"));
}

#[test]
fn open_detail_panel_reserves_a_right_column_and_renders() {
    let mut app = test_app();
    let rect = panel_rect();
    assert_eq!(rect.width, 46);
    assert_eq!(rect.x + rect.width, 180);

    app.detail_panel = Some(cache(test_timeline()));
    let buffer = drawn(&render_detail_panel(&app, rect, secs(1_000.0), CLOCK), 180, 40);
    let fg = |x: u16, y: u16| buffer[(x, y)].style().fg;
    let is = |color: Color| Some(to_color(color));
    assert_eq!(buffer[(rect.x, 5)].symbol(), "│");
    let content = content_rect(rect);
    // tasks header sits above the item rows, same shape as subagents
    let header: String = (content.x..content.x + 9)
        .map(|x| buffer[(x, content.y + 2)].symbol())
        .collect();
    assert_eq!(header, "─ tasks ─");
    assert_eq!(fg(content.x, content.y + 2), is(app.palette.overlay0));
    assert_eq!(buffer[(content.x, content.y + 3)].symbol(), "✓");
    assert_eq!(fg(content.x, content.y + 3), is(app.palette.green));
    // unlabeled item renders the placeholder, dim, not raw prompt words
    assert_eq!(buffer[(content.x + 2, content.y + 4)].symbol(), "s");
    assert_eq!(fg(content.x + 2, content.y + 4), is(app.palette.subtext0));
    assert_eq!(fg(content.x, content.y + 5), is(app.palette.yellow));
    assert_eq!(fg(content.x, content.y + 6), is(app.palette.mauve));
    // subagent board: live lane yellow, finished lane green with runtime
    assert_eq!(fg(content.x, content.y + 9), is(app.palette.yellow));
    assert_eq!(fg(content.x, content.y + 10), is(app.palette.green));
    assert_eq!(
        buffer[(content.x + content.width - 3, content.y + 10)].symbol(),
        "4"
    );
    assert_eq!(
        buffer[(content.x + content.width - 1, content.y + 10)].symbol(),
        "s"
    );
    // prompt viewer: header, meta with position, label, head, dim rhead
    let (_, viewer) = split_content(content);
    let row_text = |y: u16| -> String {
        (viewer.x..viewer.x + viewer.width)
            .map(|x| buffer[(x, y)].symbol())
            .collect()
    };
    assert!(row_text(viewer.y).starts_with("─ prompts ─"));
    assert_eq!(fg(viewer.x, viewer.y), is(app.palette.overlay0));
    assert!(row_text(viewer.y + 1).contains("5m · [‹] 1/3 [›] · [jump]"));
    // at the oldest exchange the previous arrow renders exhausted-dim
    let (idx, views) = viewer_state(&app).expect("a shown exchange");
    for button in viewer_meta(&app, idx, &views, CLOCK).1 {
        let fg = fg(viewer.x + button.start as u16, viewer.y + 1);
        match button.hit {
            DetailPanelHit::ViewerPrev { u } => {
                assert_eq!((u, fg), (None, is(app.palette.overlay0)));
            }
            DetailPanelHit::ViewerNext { u } => {
                assert_eq!((u, fg), (Some("u2".into()), is(app.palette.text)));
            }
            DetailPanelHit::ViewerJump { query } => {
                assert_eq!(query.as_deref(), Some("please restore both configs"));
                assert_eq!(fg, is(app.palette.text));
            }
            other => panic!("unexpected meta button {other:?}"),
        }
    }
    assert_eq!(buffer[(viewer.x, viewer.y + 2)].symbol(), "✓");
    assert_eq!(fg(viewer.x, viewer.y + 2), is(app.palette.green));
    assert!(row_text(viewer.y + 3).starts_with("please restore both configs"));
    assert_eq!(fg(viewer.x, viewer.y + 3), is(app.palette.text));
    assert!(row_text(viewer.y + 5).starts_with("Restored."));
    assert_eq!(fg(viewer.x, viewer.y + 5), is(app.palette.subtext0));
}

#[test]
fn spans_and_counts_change_their_unit() {
    assert_eq!(fmt_secs(secs(0.0)), "0s");
    assert_eq!(fmt_secs(secs(59.999_999_999)), "59s");
    assert_eq!(fmt_secs(secs(60.0)), "1m");
    assert_eq!(fmt_secs(secs(3_599.0)), "59m");
    assert_eq!(fmt_secs(secs(3_600.0)), "1h00");
    assert_eq!(fmt_tokens(0), "0");
    assert_eq!(fmt_tokens(999), "999");
    assert_eq!(fmt_tokens(1_000), "1k");
    assert_eq!(fmt_tokens(999_999), "999k");
    assert_eq!(fmt_tokens(1_000_000), "1.0M");
    for n in [1_050_000u64, 1_150_000, 1_250_000, 7_349_999, 123_456_789_012] {
        assert_eq!(fmt_tokens(n), format!("{:.1}M", n as f64 / 1_000_000.0));
    }
    assert_eq!(fmt_elapsed(0, Some(59 * 60_000)), "59m");
    assert_eq!(fmt_elapsed(0, Some(61 * 60_000)), "1h01");
    assert_eq!(fmt_elapsed(600_000, Some(0)), "0m");
    assert_eq!(fmt_elapsed(600_000, None), "0m");
    assert_eq!(fmt_clock(9, 5), "09:05");
    assert_eq!(fmt_clock(-5, 12), "-5:12");
    assert_eq!(local_hour_min(0), (0, 0));
    assert_eq!(local_hour_min(1_787_937_325), (17, 15));
    assert_eq!(local_hour_min(-60), (23, 59));
}

#[test]
fn the_session_is_summed_up_in_one_line() {
    let mut tl = test_timeline();
    assert_eq!(aggregate_line(&tl), "12m · 96k tok · working");
    tl.status = String::new();
    assert_eq!(aggregate_line(&tl), "12m · 96k tok");
}

#[test]
fn rows_keep_their_time_at_the_right_end() {
    let p = palette();
    let row = item_line("✓", "done", Some("5m".into()), p.green, 12, &p);
    assert_eq!(line_text(&row), "✓ done    5m");
    assert_eq!(row.spans[0].style, Style::plain().fg(p.green));
    assert_eq!(row.spans[2].style, Style::plain().fg(p.subtext0));
    // a label that is too long gives way, one of wide characters by its cells
    let row = item_line("✓", "restored the configs", Some("5m".into()), p.green, 14, &p);
    assert_eq!(line_text(&row), "✓ restored… 5m");
    let row = item_line("✓", "修复标题很长的", None, p.green, 11, &p);
    assert_eq!(line_text(&row), "✓ 修复标题…");
    // a label keeps four cells however narrow the panel is
    let row = item_line("✓", "restored", Some("5m".into()), p.green, 3, &p);
    assert_eq!(line_text(&row), "✓ res… 5m");
    let row = item_line("●", "", None, p.yellow, 30, &p);
    assert_eq!(line_text(&row), "● summarizing…");
    assert_eq!(row.spans[0].style, Style::plain().fg(p.subtext0));
    assert_eq!(line_text(&section_header("tasks", 12, &p)), "─ tasks ────");
    assert_eq!(line_text(&section_header("tasks", 3, &p)), "─ tasks ");
}

#[test]
fn panels_without_a_timeline_say_why() {
    let mut app = test_app();
    let texts = |app: &AppState| -> Vec<String> {
        detail_panel_lines(app, 40, secs(0.0)).iter().map(line_text).collect()
    };
    assert_eq!(texts(&app), ["no agent session in this pane"]);
    let mut empty = cache(test_timeline());
    empty.timeline = None;
    app.detail_panel = Some(empty);
    assert_eq!(texts(&app), ["timeline pending"]);
    assert!(viewer_state(&app).is_none());
    assert_eq!(viewer_epoch(&app), None);
    let lines: Vec<String> = viewer_lines(&app, 20, 9, CLOCK).iter().map(line_text).collect();
    assert_eq!(lines, ["─ prompts ──────────", "no prompts yet"]);
}

#[test]
fn unfolded_subagents_list_their_events() {
    let mut app = test_app();
    app.detail_panel = Some(cache(test_timeline()));
    let folded = detail_panel_lines(&app, 43, secs(0.0)).len();
    app.detail_panel_expanded = vec!["/tmp/lane.jsonl".into()];
    let lines: Vec<String> = detail_panel_lines(&app, 43, secs(52.0)).iter().map(line_text).collect();
    assert_eq!(lines.len(), folded + 1);
    assert!(lines[9].ends_with(" 2s"));
    assert_eq!(lines[10], "   18:59 Write sandboxProbe.ts");
    // the event is no button, and what follows it moved down by one
    let rows = detail_panel_lines_with_hits(&app, 43, secs(0.0));
    assert_eq!(rows[10].hit, None);
    assert_eq!(
        rows[11].hit,
        Some(DetailPanelHit::ToggleSub { path: "/tmp/lane-done.jsonl".into() })
    );
}

#[test]
fn clicks_do_not_depend_on_the_time() {
    let mut app = test_app();
    app.detail_panel = Some(cache(test_timeline()));
    let hits = |now: Seconds| -> Vec<_> {
        detail_panel_lines_with_hits(&app, 43, now).into_iter().map(|row| row.hit).collect()
    };
    assert_eq!(hits(secs(0.0)), hits(secs(1_900_000_000.0)));
}

#[test]
fn list_and_viewer_share_the_content() {
    for height in 0..40 {
        let content = content_rect(Rect::new(3, 2, 46, height));
        let (list, viewer) = split_content(content);
        assert_eq!(list.height + viewer.height, content.height);
        assert_eq!(viewer.height > 0, content.height >= 9);
        if viewer.height > 0 {
            assert_eq!(viewer.y, list.y + list.height);
        }
    }
    assert_eq!(detail_panel_viewer_rect(Rect::new(0, 0, 3, 40)), Rect::default());
}

#[test]
fn the_list_scrolls_as_far_as_it_has_rows() {
    let mut app = test_app();
    app.detail_panel = Some(cache(test_timeline()));
    // 11 rows, of which 6 are shown
    assert_eq!(detail_panel_max_scroll(&app, Rect::new(0, 0, 46, 10)), 5);
    assert_eq!(detail_panel_max_scroll(&app, Rect::new(0, 0, 46, 40)), 0);
    assert_eq!(detail_panel_max_scroll(&app, Rect::new(0, 0, 3, 10)), 0);
    assert_eq!(max_scroll_for(7, Rect::new(0, 0, 1, 3)), 4);
    // a scroll beyond the end shows the end
    app.detail_panel_scroll = 99;
    let ops = render_detail_panel(&app, Rect::new(0, 0, 46, 10), secs(0.0), CLOCK);
    assert!(matches!(&ops[2], DrawOp::Lines { scroll: 5, .. }));
    assert!(render_detail_panel(&app, Rect::new(0, 0, 3, 10), secs(0.0), CLOCK).is_empty());
}

#[test]
fn the_cycle_stays_on_the_last_exchanges() {
    let mut tl = test_timeline();
    tl.current.clear();
    tl.done = (0..11)
        .map(|i| TimelineItem {
            u: format!("u{i}"),
            label: String::new(),
            head: String::new(),
            ts: secs(0.0),
            secs: None,
            off: 0,
        })
        .collect();
    let mut app = test_app();
    app.detail_panel = Some(cache(tl));
    let mut shown = Vec::new();
    for cycle in 0..CYCLE_WINDOW + 1 {
        app.detail_panel_cycle = cycle;
        let (pos, total, _) = viewer_exchange(&app).expect("an exchange to show");
        assert_eq!(total, 11);
        shown.push(pos);
    }
    assert_eq!(shown, [4, 5, 6, 7, 8, 9, 10, 11, 4]);
    // a pin outside of the window is shown, one that is lost is not
    app.detail_panel_pinned = Some("u1".into());
    assert_eq!(viewer_exchange(&app).map(|(pos, _, _)| pos), Some(2));
    app.detail_panel_pinned = Some("gone".into());
    assert_eq!(viewer_exchange(&app).map(|(pos, _, _)| pos), Some(4));
}

#[test]
fn a_pinned_exchange_says_so() {
    let mut app = test_app();
    app.detail_panel = Some(cache(test_timeline()));
    app.detail_panel_pinned = Some("u1".into());
    let (idx, views) = viewer_state(&app).expect("a shown exchange");
    let (line, buttons) = viewer_meta(&app, idx, &views, CLOCK);
    assert_eq!(line_text(&line), "14:22 · 5m · [‹] 1/3 [›] · [jump] · pinned");
    let columns: Vec<_> = buttons.iter().map(|b| (b.start, b.end)).collect();
    assert_eq!(columns, [(13, 16), (21, 24), (27, 33)]);
    assert_eq!(viewer_epoch(&app), Some(1_787_937_325));
}

#[test]
fn queries_are_short_and_on_one_line() {
    assert_eq!(feed_query("short"), None);
    assert_eq!(feed_query("  exactly eight\nand more"), Some("exactly eight".into()));
    assert_eq!(
        feed_query("one two three four five six seven eight"),
        Some("one two three four five six".into())
    );
    assert_eq!(
        feed_query("abcdefghijklmnopqrstuvwxyzabcdefghij"),
        Some("abcdefghijklmnopqrstuvwxyzabcd".into())
    );
    assert_eq!(feed_query(""), None);
}

#[test]
fn wrapped_text_keeps_words_and_blank_lines() {
    assert_eq!(wrap_text("one two three", 7), ["one two", "three"]);
    assert_eq!(wrap_text("\n\na\n\n\nb\n\n", 7), ["a", "", "b"]);
    assert_eq!(wrap_text("修复 标题", 8), ["修复", "标题"]);
    assert_eq!(wrap_text("修复 标题", 9), ["修复 标题"]);
    assert!(wrap_text("   ", 7).is_empty());
}

fn focused_app() -> AppState {
    let mut app = test_app();
    app.workspaces = vec![Workspace {
        custom_name: Some("one".into()),
        identity_name: "one".into(),
        root_terminal: Some(7),
        tabs: vec![Tab {
            custom_name: None,
            panes: vec![Pane {
                id: PaneId(3),
                attached_terminal_id: 7,
                seen: true,
                label: None,
            }],
            metadata_tokens: herdr::metadata::TokenMap::new(),
        }],
        active_tab: 0,
        focused_pane: Some(PaneId(3)),
        metadata_tokens: herdr::metadata::TokenMap::new(),
        worktree_space: None,
        cached_git_space: None,
        cached_git_branch: None,
    }];
    let mut terminal = TerminalState::new();
    terminal.persisted_agent_session = Some(AgentSession {
        agent: "pi".into(),
        value: "abc".into(),
    });
    app.terminals.insert(7, terminal);
    app.active = Some(0);
    app
}

#[test]
fn refreshing_asks_for_a_file_once_per_interval() {
    let mut app = focused_app();
    let t0 = 10 * SECOND;
    let RefreshAction::Stat { session, path } = app.refresh_detail_panel(RefreshEvent::Tick, t0)
    else {
        panic!("the file is looked at first");
    };
    assert_eq!(path, ".local/state/herdr-detail/abc.json");
    assert_eq!(session.value, "abc");
    let event = RefreshEvent::Signature { session, signature: (12, 34) };
    let RefreshAction::Load { session, signature, path } = app.refresh_detail_panel(event, t0)
    else {
        panic!("a file that is not shown is read");
    };
    assert_eq!((signature, path.as_str()), ((12, 34), ".local/state/herdr-detail/abc.json"));
    app.detail_panel_pinned = Some("u9".into());
    let event = RefreshEvent::Loaded { session, signature, timeline: Some(test_timeline()) };
    assert!(matches!(app.refresh_detail_panel(event, t0), RefreshAction::Idle));
    // the new timeline has no u9, so the pin is dropped
    assert_eq!(app.detail_panel_pinned, None);
    let shown = app.detail_panel.as_ref().expect("a timeline");
    assert_eq!((shown.session_key.as_str(), shown.timeline_sig), ("abc", (12, 34)));

    let just_before = t0 + REFRESH_INTERVAL - 1;
    assert!(matches!(
        app.refresh_detail_panel(RefreshEvent::Tick, just_before),
        RefreshAction::Idle
    ));
    let RefreshAction::Stat { session, .. } =
        app.refresh_detail_panel(RefreshEvent::Tick, t0 + REFRESH_INTERVAL)
    else {
        panic!("the interval is over");
    };
    // an unchanged file is not read again
    let event = RefreshEvent::Signature { session, signature: (12, 34) };
    let now = t0 + REFRESH_INTERVAL;
    assert!(matches!(app.refresh_detail_panel(event, now), RefreshAction::Idle));
    assert_eq!(app.detail_panel.as_ref().map(|c| c.checked_at), Some(now));

    // a pin that resolves survives, and without a session nothing is shown
    app.detail_panel_pinned = Some("u1".into());
    app.drop_unresolved_pin();
    assert_eq!(app.detail_panel_pinned.as_deref(), Some("u1"));
    app.active = None;
    assert!(matches!(
        app.refresh_detail_panel(RefreshEvent::Tick, now),
        RefreshAction::Idle
    ));
    assert!(app.detail_panel.is_none());
    assert_eq!(app.detail_panel_pinned, None);
}

#[test]
fn session_ids_cannot_leave_the_directory() {
    assert_eq!(timeline_path("a/b"), None);
    assert_eq!(timeline_path("a..b"), None);
    assert_eq!(
        timeline_path("a.b"),
        Some(".local/state/herdr-detail/a.b.json".into())
    );
    let mut app = focused_app();
    app.terminals.get_mut(&7).unwrap().persisted_agent_session = Some(AgentSession {
        agent: "pi".into(),
        value: "../x".into(),
    });
    assert!(matches!(
        app.refresh_detail_panel(RefreshEvent::Tick, SECOND),
        RefreshAction::Idle
    ));
    let shown = app.detail_panel.as_ref().expect("a session");
    assert!(shown.timeline.is_none());
    assert_eq!(shown.timeline_sig, (0, 0));
}

#[test]
fn exchanges_fill_in_what_their_task_lacks() {
    let mut tl = test_timeline();
    tl.done[0].secs = None;
    tl.done[0].label = String::new();
    let views = tl.exchange_views();
    assert_eq!(views.len(), 3);
    assert_eq!(views[0].label, "restoring the configs");
    assert_eq!(views[0].secs, Some(secs(300.0)));
    assert_eq!(views[0].ts, secs(1_787_937_325.0));
    assert!(views[0].done);
    assert_eq!(views[1].label, "");
    assert_eq!(views[1].ts, secs(100.0));
    assert_eq!(views[2].secs, None);
    assert!(!views[2].done);
}

#[test]
fn the_smallest_times_are_known_and_the_largest_are_capped() {
    let mut tl = test_timeline();
    tl.current[0].ts = secs(1.0e-9);
    tl.total_secs = secs(1.0e30);
    let mut app = test_app();
    app.detail_panel = Some(cache(tl));
    let lines: Vec<String> = detail_panel_lines(&app, 60, secs(90.0)).iter().map(line_text).collect();
    assert!(lines[0].starts_with("5124095576030431h00"), "{:?}", lines[0]);
    assert!(lines.iter().any(|line| line.ends_with("1m")), "{lines:?}");
    // a clock that runs ahead of the start shows no time
    let lines: Vec<String> = detail_panel_lines(&app, 60, secs(0.0)).iter().map(line_text).collect();
    assert!(lines.iter().any(|line| line.ends_with("0s")), "{lines:?}");
}
