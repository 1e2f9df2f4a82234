use tuidemo::buffer::Buffer;
use tuidemo::canvas::{Bounds, Canvas, render_canvas};
use tuidemo::frame::{
    DashboardData, LogEntry, LogLevel, ServerRecord, ServerStatus, Task, level_color_of, server,
    task, ui,
};
use tuidemo::geometry::Rect;
use tuidemo::layout::{Constraint, Direction, split};
use tuidemo::nav::{App, InputEvent, update};
use tuidemo::paragraph::{Span, render_paragraph};
use tuidemo::selection::StatefulList;
use tuidemo::style::{Color, Modifiers, Style};
use tuidemo::widgets::{TableRow, render_block, render_gauge, render_list, render_table, render_tabs};

fn chars(s: &str) -> Vec<char> {
    s.chars().collect()
}

fn rect(x: u16, y: u16, w: u16, h: u16) -> Rect {
    Rect { x, y, width: w, height: h }
}

fn symbol_at(buf: &Buffer, x: u16, y: u16) -> char {
    buf.get(x, y).expect("cell inside buffer").symbol
}

fn fg_at(buf: &Buffer, x: u16, y: u16) -> Color {
    buf.get(x, y).expect("cell inside buffer").style.fg
}

#[test]
fn split_empty_constraints_returns_shrunk_area() {
    let cs: Vec<Constraint> = Vec::new();
    let out = split(rect(0, 0, 80, 24), Direction::Vertical, 5, &cs);
    assert_eq!(out.len(), 1);
    assert_eq!(out[0], rect(5, 5, 70, 14));
}

#[test]
fn split_length_and_min_covers_exactly() {
    let cs = vec![Constraint::Length(3), Constraint::Min(0)];
    let out = split(rect(0, 0, 80, 24), Direction::Vertical, 5, &cs);
    assert_eq!(out.len(), 2);
    assert_eq!(out[0], rect(5, 5, 70, 3));
    assert_eq!(out[1], rect(5, 8, 70, 11));
    assert_eq!(out[0].y + out[0].height, out[1].y);
    assert_eq!(out[1].y + out[1].height, 5 + 14);
}

#[test]
fn split_percentages_cover_exactly() {
    let cs = vec![Constraint::Percentage(50), Constraint::Percentage(50)];
    let out = split(rect(2, 3, 71, 10), Direction::Horizontal, 0, &cs);
    assert_eq!(out.len(), 2);
    assert_eq!(out[0], rect(2, 3, 35, 10));
    assert_eq!(out[1], rect(37, 3, 36, 10));
}

#[test]
fn split_ratios_assign_leftover_to_last_flexible() {
    let cs = vec![Constraint::Ratio(1, 3), Constraint::Ratio(2, 3)];
    let out = split(rect(0, 0, 10, 1), Direction::Horizontal, 0, &cs);
    assert_eq!(out[0].width, 3);
    assert_eq!(out[1].width, 7);
    assert_eq!(out[0].x, 0);
    assert_eq!(out[1].x, 3);
}

#[test]
fn split_margin_larger_than_area_degrades_to_zero() {
    let cs = vec![Constraint::Length(5)];
    let out = split(rect(0, 0, 10, 10), Direction::Vertical, 50, &cs);
    assert_eq!(out.len(), 1);
    assert_eq!(out[0].width, 0);
    assert_eq!(out[0].height, 0);
}

#[test]
fn split_overfull_demand_clamps_without_gap_between_regions() {
    let cs = vec![Constraint::Length(8), Constraint::Length(8)];
    let out = split(rect(0, 0, 10, 1), Direction::Horizontal, 0, &cs);
    assert_eq!(out[0].width, 8);
    assert_eq!(out[1].width, 2);
    assert_eq!(out[1].x, 8);
}

#[test]
fn selection_next_cycles_back_after_len_calls() {
    let mut list = StatefulList::with_items(vec!["a", "b", "c"]);
    list.next();
    assert_eq!(list.state.selected, Some(0));
    list.next();
    list.next();
    list.next();
    assert_eq!(list.state.selected, Some(0));
}

#[test]
fn selection_previous_cycles_back_after_len_calls() {
    let mut list = StatefulList::with_items(vec![1, 2, 3]);
    list.previous();
    assert_eq!(list.state.selected, Some(0));
    list.previous();
    assert_eq!(list.state.selected, Some(2));
    list.previous();
    list.previous();
    assert_eq!(list.state.selected, Some(0));
}

#[test]
fn selection_on_empty_collection_never_selects() {
    let mut list: StatefulList<u8> = StatefulList::with_items(Vec::new());
    list.next();
    assert_eq!(list.state.selected, None);
    list.previous();
    assert_eq!(list.state.selected, None);
}

#[test]
fn tab_previous_on_first_wraps_to_last() {
    let mut app = App::new();
    assert_eq!(app.index, 0);
    app.previous();
    assert_eq!(app.index, app.titles.len() - 1);
}

#[test]
fn tab_next_on_last_wraps_to_first() {
    let mut app = App::new();
    app.next();
    assert_eq!(app.index, 1);
    app.next();
    assert_eq!(app.index, 0);
}

#[test]
fn tab_navigation_keeps_index_in_bounds() {
    let mut app = App::new();
    let moves = [
        InputEvent::NavLeft,
        InputEvent::NavLeft,
        InputEvent::NavRight,
        InputEvent::NavLeft,
        InputEvent::NavRight,
        InputEvent::NavRight,
        InputEvent::NavRight,
    ];
    for ev in moves {
        let quit = update(&mut app, ev);
        assert!(!quit);
        assert!(app.index < app.titles.len());
    }
}

#[test]
fn update_quits_only_on_quit_event() {
    let mut app = App::new();
    assert!(!update(&mut app, InputEvent::Other));
    assert_eq!(app.index, 0);
    assert!(update(&mut app, InputEvent::Quit));
    assert_eq!(app.index, 0);
}

#[test]
fn gauge_half_ratio_fills_exactly_ten_of_twenty_cells() {
    let area = rect(0, 0, 20, 1);
    let mut buf = Buffer::new(area);
    let label: Vec<char> = Vec::new();
    render_gauge(&mut buf, area, 500, &label, Style::plain());
    let mut filled = 0;
    for x in 0..20 {
        if symbol_at(&buf, x, 0) == '█' {
            filled += 1;
        }
    }
    assert_eq!(filled, 10);
    assert_eq!(symbol_at(&buf, 9, 0), '█');
    assert_eq!(symbol_at(&buf, 10, 0), ' ');
}

#[test]
fn gauge_rounds_down_at_half_cell_boundary() {
    let area = rect(0, 0, 21, 1);
    let mut buf = Buffer::new(area);
    let label: Vec<char> = Vec::new();
    render_gauge(&mut buf, area, 500, &label, Style::plain());
    let filled = (0..21).filter(|&x| symbol_at(&buf, x, 0) == '█').count();
    assert_eq!(filled, 10);
}

#[test]
fn gauge_out_of_range_ratio_is_clamped() {
    let area = rect(0, 0, 8, 1);
    let mut buf = Buffer::new(area);
    let label: Vec<char> = Vec::new();
    render_gauge(&mut buf, area, 9999, &label, Style::plain());
    let filled = (0..8).filter(|&x| symbol_at(&buf, x, 0) == '█').count();
    assert_eq!(filled, 8);
}

#[test]
fn gauge_centers_its_label() {
    let area = rect(0, 0, 8, 1);
    let mut buf = Buffer::new(area);
    let label = chars("ab");
    render_gauge(&mut buf, area, 0, &label, Style::plain());
    assert_eq!(symbol_at(&buf, 3, 0), 'a');
    assert_eq!(symbol_at(&buf, 4, 0), 'b');
    assert_eq!(symbol_at(&buf, 2, 0), ' ');
}

#[test]
fn block_draws_border_and_title() {
    let area = rect(0, 0, 6, 3);
    let mut buf = Buffer::new(area);
    render_block(&mut buf, area, &chars("hi"), Style::plain());
    assert_eq!(symbol_at(&buf, 0, 0), '┌');
    assert_eq!(symbol_at(&buf, 5, 0), '┐');
    assert_eq!(symbol_at(&buf, 0, 2), '└');
    assert_eq!(symbol_at(&buf, 5, 2), '┘');
    assert_eq!(symbol_at(&buf, 1, 0), 'h');
    assert_eq!(symbol_at(&buf, 2, 0), 'i');
    assert_eq!(symbol_at(&buf, 3, 0), '─');
    assert_eq!(symbol_at(&buf, 0, 1), '│');
    assert_eq!(symbol_at(&buf, 5, 1), '│');
    assert_eq!(symbol_at(&buf, 2, 1), ' ');
}

#[test]
fn tabs_highlight_the_active_title() {
    let area = rect(0, 0, 6, 1);
    let mut buf = Buffer::new(area);
    let titles = vec![chars("ab"), chars("c")];
    let plain = Style::plain();
    let hl = plain.with_fg(Color::Green);
    render_tabs(&mut buf, area, &titles, 1, plain, hl);
    assert_eq!(symbol_at(&buf, 0, 0), 'a');
    assert_eq!(symbol_at(&buf, 1, 0), 'b');
    assert_eq!(symbol_at(&buf, 2, 0), '│');
    assert_eq!(symbol_at(&buf, 3, 0), 'c');
    assert_eq!(fg_at(&buf, 0, 0), Color::White);
    assert_eq!(fg_at(&buf, 3, 0), Color::Green);
    assert_eq!(symbol_at(&buf, 4, 0), ' ');
}

#[test]
fn list_marks_and_highlights_the_selected_row() {
    let area = rect(0, 0, 6, 3);
    let mut buf = Buffer::new(area);
    let items = vec![chars("aa"), chars("bb")];
    let plain = Style::plain();
    let hl = plain.with_fg(Color::Red);
    render_list(&mut buf, area, &items, &Some(1), plain, hl);
    assert_eq!(symbol_at(&buf, 0, 0), ' ');
    assert_eq!(symbol_at(&buf, 2, 0), 'a');
    assert_eq!(symbol_at(&buf, 0, 1), '>');
    assert_eq!(symbol_at(&buf, 2, 1), 'b');
    assert_eq!(fg_at(&buf, 0, 1), Color::Red);
    assert_eq!(fg_at(&buf, 0, 0), Color::White);
    assert_eq!(symbol_at(&buf, 0, 2), ' ');
}

#[test]
fn list_without_selection_has_no_marker_column() {
    let area = rect(0, 0, 4, 1);
    let mut buf = Buffer::new(area);
    let items = vec![chars("aa")];
    render_list(&mut buf, area, &items, &None, Style::plain(), Style::plain());
    assert_eq!(symbol_at(&buf, 0, 0), 'a');
}

#[test]
fn table_lays_out_header_margin_and_styled_rows() {
    let area = rect(0, 0, 12, 4);
    let mut buf = Buffer::new(area);
    let header = vec![chars("One"), chars("Two")];
    let widths = vec![4u16, 3u16];
    let up = Style::plain().with_fg(Color::Green);
    let fail = Style::plain().with_fg(Color::Red);
    let rows = vec![
        TableRow { cells: vec![chars("r1"), chars("ok")], style: up },
        TableRow { cells: vec![chars("r2"), chars("no")], style: fail },
    ];
    let hstyle = Style::plain().with_fg(Color::Yellow);
    render_table(&mut buf, area, &header, &rows, &widths, hstyle, Style::plain());
    assert_eq!(symbol_at(&buf, 0, 0), 'O');
    assert_eq!(fg_at(&buf, 0, 0), Color::Yellow);
    assert_eq!(symbol_at(&buf, 5, 0), 'T');
    assert_eq!(symbol_at(&buf, 0, 1), ' ');
    assert_eq!(symbol_at(&buf, 0, 2), 'r');
    assert_eq!(symbol_at(&buf, 1, 2), '1');
    assert_eq!(symbol_at(&buf, 5, 2), 'o');
    assert_eq!(fg_at(&buf, 0, 2), Color::Green);
    assert_eq!(fg_at(&buf, 0, 3), Color::Red);
}

#[test]
fn paragraph_wraps_words_at_the_width() {
    let area = rect(0, 0, 7, 3);
    let mut buf = Buffer::new(area);
    let lines = vec![vec![Span { content: chars("ab cd ef"), style: Style::plain() }]];
    render_paragraph(&mut buf, area, &lines, Style::plain());
    assert_eq!(symbol_at(&buf, 0, 0), 'a');
    assert_eq!(symbol_at(&buf, 3, 0), 'c');
    assert_eq!(symbol_at(&buf, 5, 0), ' ');
    assert_eq!(symbol_at(&buf, 0, 1), 'e');
    assert_eq!(symbol_at(&buf, 1, 1), 'f');
    assert_eq!(symbol_at(&buf, 0, 2), ' ');
}

#[test]
fn paragraph_collapses_extra_spaces_and_keeps_styles() {
    let area = rect(0, 0, 10, 2);
    let mut buf = Buffer::new(area);
    let red = Style::plain().with_fg(Color::Red);
    let lines = vec![vec![
        Span { content: chars("a  "), style: Style::plain() },
        Span { content: chars(" b"), style: red },
    ]];
    render_paragraph(&mut buf, area, &lines, Style::plain());
    assert_eq!(symbol_at(&buf, 0, 0), 'a');
    assert_eq!(symbol_at(&buf, 1, 0), ' ');
    assert_eq!(symbol_at(&buf, 2, 0), 'b');
    assert_eq!(fg_at(&buf, 2, 0), Color::Red);
}

#[test]
fn paragraph_clips_rows_past_the_height() {
    let area = rect(0, 0, 2, 1);
    let mut buf = Buffer::new(area);
    let lines = vec![
        vec![Span { content: chars("aa"), style: Style::plain() }],
        vec![Span { content: chars("bb"), style: Style::plain() }],
    ];
    render_paragraph(&mut buf, area, &lines, Style::plain());
    assert_eq!(symbol_at(&buf, 0, 0), 'a');
    assert!(buf.get(0, 1).is_none());
}

#[test]
fn level_colors_flag_severity() {
    assert_eq!(level_color_of(LogLevel::Info), Color::Blue);
    assert_eq!(level_color_of(LogLevel::Warn), Color::Yellow);
    assert_eq!(level_color_of(LogLevel::Error), Color::Magenta);
    assert_eq!(level_color_of(LogLevel::Critical), Color::Red);
}

fn world_bounds() -> Bounds {
    Bounds { x_min: -18000, x_max: 18000, y_min: -9000, y_max: 9000 }
}

#[test]
fn projection_minimum_corner_maps_to_bottom_left_dot() {
    let area = rect(0, 0, 2, 2);
    let mut buf = Buffer::new(area);
    let mut cv = Canvas::new(2, 2, world_bounds());
    cv.plot_point(-18000, -9000, Color::White);
    render_canvas(&mut buf, area, &cv, Style::plain());
    // Column 0, bottom dot row: the lone lower-left dot of the bottom-left cell.
    assert_eq!(symbol_at(&buf, 0, 1), char::from_u32(0x2840).unwrap());
    assert_eq!(symbol_at(&buf, 1, 0), ' ');
    assert_eq!(symbol_at(&buf, 1, 1), ' ');
    assert_eq!(symbol_at(&buf, 0, 0), ' ');
}

#[test]
fn out_of_domain_point_is_omitted_without_error() {
    let area = rect(0, 0, 2, 2);
    let mut buf = Buffer::new(area);
    let mut cv = Canvas::new(2, 2, world_bounds());
    cv.plot_point(18001, 0, Color::White);
    cv.plot_point(0, -9001, Color::White);
    render_canvas(&mut buf, area, &cv, Style::plain());
    for x in 0..2 {
        for y in 0..2 {
            assert_eq!(symbol_at(&buf, x, y), ' ');
        }
    }
}

#[test]
fn line_sets_dots_between_its_endpoints() {
    let area = rect(0, 0, 10, 1);
    let mut buf = Buffer::new(area);
    let mut cv = Canvas::new(10, 1, world_bounds());
    cv.draw_line(-18000, 0, 18000, 0, Color::Yellow);
    render_canvas(&mut buf, area, &cv, Style::plain());
    for x in 0..10 {
        let c = symbol_at(&buf, x, 0);
        assert!((0x2800..=0x28ff).contains(&(c as u32)), "cell {} not braille: {:?}", x, c);
        assert_eq!(fg_at(&buf, x, 0), Color::Yellow);
    }
}

fn fixture_servers() -> Vec<ServerRecord> {
    vec![
        ServerRecord {
            host: chars("10.0.0.1"),
            location: chars("Chengdu"),
            lat: 3057,
            lon: 10407,
            status: ServerStatus::Up,
        },
        ServerRecord {
            host: chars("10.0.0.2"),
            location: chars("Shanghai"),
            lat: 3123,
            lon: 12147,
            status: ServerStatus::Fail,
        },
        ServerRecord {
            host: chars("10.0.0.3"),
            location: chars("Xi'an"),
            lat: 3427,
            lon: 10895,
            status: ServerStatus::Up,
        },
    ]
}

fn fixture_data() -> DashboardData {
    DashboardData {
        tasks: vec![
            Task { name: chars("Task1") },
            Task { name: chars("Task2") },
            Task { name: chars("Task3") },
        ],
        logs: vec![
            LogEntry { event: chars("Event1"), level: LogLevel::Info },
            LogEntry { event: chars("Event2"), level: LogLevel::Warn },
            LogEntry { event: chars("Event3"), level: LogLevel::Error },
        ],
        servers: fixture_servers(),
    }
}

/// The marker cell a server projects to on a canvas `w` by `h` cells over
/// the world domain, relative to the canvas origin.
fn marker_cell(w: u32, h: u32, lon: i32, lat: i32) -> (u32, u32) {
    let gw = 2 * w;
    let gh = 4 * h;
    let col = (lon as i64 + 18000) * (gw as i64 - 1) / 36000;
    let row = (gh as i64 - 1) - (lat as i64 + 9000) * (gh as i64 - 1) / 18000;
    ((col / 2) as u32, (row / 4) as u32)
}

#[test]
fn three_servers_plot_as_three_distinct_markers_with_status_colors() {
    let area = rect(0, 0, 200, 60);
    let mut buf = Buffer::new(area);
    let data = fixture_data();
    server(&mut buf, &data, area);
    // The map pane is the right 70% of the area, inside its border.
    let inner = rect(61, 1, 138, 58);
    let mut cells = Vec::new();
    for s in &data.servers {
        let (cx, cy) = marker_cell(inner.width as u32, inner.height as u32, s.lon, s.lat);
        let x = inner.x + cx as u16;
        let y = inner.y + cy as u16;
        assert_eq!(symbol_at(&buf, x, y), 'X');
        let want = match s.status {
            ServerStatus::Up => Color::Green,
            ServerStatus::Fail => Color::Red,
        };
        assert_eq!(fg_at(&buf, x, y), want);
        cells.push((x, y));
    }
    assert_ne!(cells[0], cells[1]);
    assert_ne!(cells[0], cells[2]);
    assert_ne!(cells[1], cells[2]);
    // Connecting lines: some braille cells in yellow besides the markers.
    let mut yellow_braille = 0;
    for y in inner.y..inner.y + inner.height {
        for x in inner.x..inner.x + inner.width {
            let c = symbol_at(&buf, x, y);
            if (0x2801..=0x28ff).contains(&(c as u32)) && fg_at(&buf, x, y) == Color::Yellow {
                yellow_braille += 1;
            }
        }
    }
    assert!(yellow_braille >= 3, "expected connecting lines, found {}", yellow_braille);
}

#[test]
fn server_view_table_flags_failed_record() {
    let area = rect(0, 0, 100, 30);
    let mut buf = Buffer::new(area);
    let data = fixture_data();
    server(&mut buf, &data, area);
    // Table pane starts at the area's left border; header inside it.
    assert_eq!(symbol_at(&buf, 1, 1), 'S');
    assert_eq!(fg_at(&buf, 1, 1), Color::Yellow);
    // Data rows: header, margin, then records.
    assert_eq!(symbol_at(&buf, 1, 3), '1');
    assert_eq!(fg_at(&buf, 1, 3), Color::Green);
    assert_eq!(fg_at(&buf, 1, 4), Color::Red);
    assert_eq!(fg_at(&buf, 1, 5), Color::Green);
}

#[test]
fn full_frame_renders_tab_bar_and_active_view() {
    let area = rect(0, 0, 90, 40);
    let mut buf = Buffer::new(area);
    let app = App::new();
    let data = fixture_data();
    ui(&mut buf, &app, &data);
    // The margin around the frame stays untouched (blank).
    assert_eq!(symbol_at(&buf, 0, 0), ' ');
    assert_eq!(symbol_at(&buf, 4, 6), ' ');
    // The tab block sits at the margin; its title is drawn over the border.
    assert_eq!(symbol_at(&buf, 5, 5), '┌');
    assert_eq!(symbol_at(&buf, 6, 5), 't');
    // The first tab's title inside the block: active, so green and bold.
    assert_eq!(symbol_at(&buf, 6, 6), 'T');
    assert_eq!(fg_at(&buf, 6, 6), Color::Green);
    assert!(buf.get(6, 6).unwrap().style.mods.bold);
    assert_eq!(symbol_at(&buf, 11, 6), 'S');
    assert_eq!(fg_at(&buf, 11, 6), Color::Green);
    assert!(!buf.get(11, 6).unwrap().style.mods.bold);
}

#[test]
fn task_view_shows_gauge_list_and_text_blocks() {
    let area = rect(0, 0, 80, 70);
    let mut buf = Buffer::new(area);
    let data = fixture_data();
    task(&mut buf, &data, area);
    // Progress block border with title.
    assert_eq!(symbol_at(&buf, 1, 0), 'P');
    // Gauge row inside it: half filled.
    let filled = (1..79).filter(|&x| symbol_at(&buf, x, 1) == '█').count();
    assert_eq!(filled, 39);
    // Task list block below.
    assert_eq!(symbol_at(&buf, 1, 4), 'T');
    assert_eq!(symbol_at(&buf, 1, 5), 'T');
    // Log pane shows the first event with its level.
    assert_eq!(symbol_at(&buf, 41, 5), 'I');
    assert_eq!(fg_at(&buf, 41, 5), Color::Blue);
    // Details block afterwards.
    assert_eq!(symbol_at(&buf, 1, 34), 'D');
    assert_eq!(symbol_at(&buf, 1, 35), 'T');
}

#[test]
fn rendering_twice_gives_identical_output() {
    let area = rect(0, 0, 60, 24);
    let data = fixture_data();
    let app = App::new();
    let mut a = Buffer::new(area);
    let mut b = Buffer::new(area);
    ui(&mut a, &app, &data);
    ui(&mut b, &app, &data);
    for y in 0..24 {
        for x in 0..60 {
            assert_eq!(a.get(x, y), b.get(x, y));
        }
    }
}

#[test]
fn widget_writes_stay_inside_the_target_region() {
    let area = rect(0, 0, 10, 5);
    let mut buf = Buffer::new(area);
    render_block(&mut buf, rect(2, 1, 5, 3), &chars("t"), Style::plain());
    assert_eq!(symbol_at(&buf, 0, 0), ' ');
    assert_eq!(symbol_at(&buf, 9, 4), ' ');
    assert_eq!(symbol_at(&buf, 1, 1), ' ');
    assert_eq!(symbol_at(&buf, 2, 1), '┌');
}

#[test]
fn modifiers_carry_through_to_cells() {
    let area = rect(0, 0, 4, 1);
    let mut buf = Buffer::new(area);
    let style = Style {
        fg: Color::White,
        bg: Color::Black,
        mods: Modifiers {
            bold: true,
            italic: false,
            underlined: true,
            reversed: false,
            crossed_out: false,
            blink: false,
        },
    };
    let items = vec![(chars("x"), style)];
    tuidemo::widgets::render_styled_list(&mut buf, area, &items, Style::plain());
    let cell = buf.get(0, 0).unwrap();
    assert!(cell.style.mods.bold);
    assert!(cell.style.mods.underlined);
    assert!(!cell.style.mods.italic);
}

#[test]
fn tabs_truncate_titles_that_overflow_the_width() {
    let area = rect(0, 0, 3, 1);
    let mut buf = Buffer::new(area);
    let titles = vec![chars("abcdef"), chars("gh")];
    render_tabs(&mut buf, area, &titles, 0, Style::plain(), Style::plain());
    assert_eq!(symbol_at(&buf, 0, 0), 'a');
    assert_eq!(symbol_at(&buf, 2, 0), 'c');
    assert!(buf.get(3, 0).is_none());
}

#[test]
fn line_leaving_the_domain_is_clipped_to_it() {
    let area = rect(0, 0, 4, 2);
    let mut buf = Buffer::new(area);
    let mut cv = Canvas::new(4, 2, world_bounds());
    // From an in-domain point eastward past the domain edge: the in-domain
    // part is drawn, the rest dropped.
    cv.draw_line(0, 0, 99999, 0, Color::Yellow);
    render_canvas(&mut buf, area, &cv, Style::plain());
    for x in 1..4 {
        let c = symbol_at(&buf, x, 1);
        assert!((0x2801..=0x28ff).contains(&(c as u32)), "cell {} not braille: {:?}", x, c);
        assert_eq!(fg_at(&buf, x, 1), Color::Yellow);
    }
    assert_eq!(symbol_at(&buf, 0, 1), ' ');
    for x in 0..4 {
        assert_eq!(symbol_at(&buf, x, 0), ' ');
    }
}

#[test]
fn line_crossing_the_domain_is_clipped_at_both_ends() {
    let area = rect(0, 0, 4, 2);
    let mut buf = Buffer::new(area);
    let mut cv = Canvas::new(4, 2, world_bounds());
    cv.draw_line(-99999, 0, 99999, 0, Color::Yellow);
    render_canvas(&mut buf, area, &cv, Style::plain());
    for x in 0..4 {
        let c = symbol_at(&buf, x, 1);
        assert!((0x2801..=0x28ff).contains(&(c as u32)), "cell {} not braille: {:?}", x, c);
        assert_eq!(symbol_at(&buf, x, 0), ' ');
    }
}

#[test]
fn navigation_events_move_the_active_tab() {
    let mut app = App::new();
    update(&mut app, InputEvent::NavRight);
    assert_eq!(app.index, 1);
    update(&mut app, InputEvent::NavLeft);
    assert_eq!(app.index, 0);
}
