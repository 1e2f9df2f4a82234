//! Frame composition: maps the application state and the injected dashboard
//! data onto the widget set, one full frame per call. The layout is computed
//! by the layout engine; every widget paints only inside the region handed
//! to it.

use vstd::prelude::*;
use vstd::string::StrSliceExecFns;
use crate::geometry::Rect;
use crate::layout::{Constraint, Direction, split};
use crate::style::{Color, Style, style_plain, spec_with_fg};
use crate::buffer::Buffer;
use crate::canvas::{Bounds, Canvas, render_canvas};
use crate::nav::App;
use crate::paragraph::{Span, render_paragraph};
use crate::selection::StatefulList;
use crate::widgets::{
    TableRow, border_cell, gauge_cell, is_border, list_cell, render_block, render_gauge,
    render_list, render_styled_list, render_table, render_tabs, styled_list_cell, table_cell,
    tabs_cell,
};

verus! {

/// Severity of a log entry.
#[derive(Clone, Copy, Debug, PartialEq, Eq, Structural)]
pub enum LogLevel {
    Info,
    Warn,
    Error,
    Critical,
}

/// A unit of work shown in the task list.
pub struct Task {
    pub name: Vec<char>,
}

/// One line of the event log.
pub struct LogEntry {
    pub event: Vec<char>,
    pub level: LogLevel,
}

/// Whether a server is reachable.
#[derive(Clone, Copy, Debug, PartialEq, Eq, Structural)]
pub enum ServerStatus {
    Up,
    Fail,
}

/// One monitored server: its address, place, position (latitude and
/// longitude in hundredths of a degree) and reachability.
pub struct ServerRecord {
    pub host: Vec<char>,
    pub location: Vec<char>,
    pub lat: i32,
    pub lon: i32,
    pub status: ServerStatus,
}

/// The read-only data a provider hands the render pipeline.
pub struct DashboardData {
    pub tasks: Vec<Task>,
    pub logs: Vec<LogEntry>,
    pub servers: Vec<ServerRecord>,
}

/// The color that flags each log level.
pub open spec fn level_color(l: LogLevel) -> Color {
    match l {
        LogLevel::Info => Color::Blue,
        LogLevel::Warn => Color::Yellow,
        LogLevel::Error => Color::Magenta,
        LogLevel::Critical => Color::Red,
    }
}

/// The name of each log level.
pub open spec fn level_label(l: LogLevel) -> Seq<char> {
    match l {
        LogLevel::Info => seq!['I', 'N', 'F', 'O'],
        LogLevel::Warn => seq!['W', 'A', 'R', 'N'],
        LogLevel::Error => seq!['E', 'R', 'R', 'O', 'R'],
        LogLevel::Critical => seq!['C', 'R', 'I', 'T', 'I', 'C', 'A', 'L'],
    }
}

/// `n` spaces.
pub open spec fn spaces(n: int) -> Seq<char> {
    Seq::new(n as nat, |i: int| ' ')
}

/// The text of one log row: the level name padded to nine columns, then the
/// event text.
pub open spec fn log_line(e: LogEntry) -> Seq<char> {
    level_label(e.level) + spaces(9 - level_label(e.level).len()) + e.event@
}

/// The color that flags each server status.
pub open spec fn status_color(s: ServerStatus) -> Color {
    match s {
        ServerStatus::Up => Color::Green,
        ServerStatus::Fail => Color::Red,
    }
}

/// The text shown for each server status.
pub open spec fn status_label(s: ServerStatus) -> Seq<char> {
    match s {
        ServerStatus::Up => seq!['U', 'p'],
        ServerStatus::Fail => seq!['F', 'a', 'i', 'l'],
    }
}

/// The row style that flags each server status: up rows are green, failed
/// rows red, blinking and struck through.
pub open spec fn status_style(s: ServerStatus) -> Style {
    match s {
        ServerStatus::Up => spec_with_fg(style_plain(), Color::Green),
        ServerStatus::Fail => Style {
            fg: Color::Red,
            bg: Color::Black,
            mods: crate::style::Modifiers {
                bold: false,
                italic: false,
                underlined: false,
                reversed: false,
                crossed_out: true,
                blink: true,
            },
        },
    }
}

/// The characters of a string slice, in order.
pub fn chars_of(s: &str) -> (out: Vec<char>)
    ensures
        out@ == s@,
{
    let n: usize = s.unicode_len();
    let mut out: Vec<char> = Vec::new();
    let mut i: usize = 0;
    while i < n
        invariant
            i <= n,
            n == s@.len(),
            out@ =~= s@.take(i as int),
        decreases n - i,
    {
        let c = s.get_char(i);
        proof {
            assert(s@.take(i + 1) =~= s@.take(i as int).push(s@[i as int]));
        }
        out.push(c);
        i = i + 1;
    }
    proof {
        assert(s@.take(n as int) =~= s@);
    }
    out
}

fn log_row(e: &LogEntry) -> (r: (Vec<char>, Style))
    ensures
        r.0@ == log_line(*e),
        r.1 == spec_with_fg(style_plain(), level_color(e.level)),
{
    let mut v: Vec<char> = Vec::new();
    match e.level {
        LogLevel::Info => {
            v.push('I');
            v.push('N');
            v.push('F');
            v.push('O');
            v.push(' ');
            v.push(' ');
            v.push(' ');
            v.push(' ');
            v.push(' ');
        }
        LogLevel::Warn => {
            v.push('W');
            v.push('A');
            v.push('R');
            v.push('N');
            v.push(' ');
            v.push(' ');
            v.push(' ');
            v.push(' ');
            v.push(' ');
        }
        LogLevel::Error => {
            v.push('E');
            v.push('R');
            v.push('R');
            v.push('O');
            v.push('R');
            v.push(' ');
            v.push(' ');
            v.push(' ');
            v.push(' ');
        }
        LogLevel::Critical => {
            v.push('C');
            v.push('R');
            v.push('I');
            v.push('T');
            v.push('I');
            v.push('C');
            v.push('A');
            v.push('L');
            v.push(' ');
        }
    }
    proof {
        assert(v@ =~= level_label(e.level) + spaces(9 - level_label(e.level).len()));
    }
    let ghost prefix = v@;
    let mut k: usize = 0;
    while k < e.event.len()
        invariant
            k <= e.event@.len(),
            v@ =~= prefix + e.event@.take(k as int),
        decreases e.event@.len() - k,
    {
        v.push(e.event[k]);
        proof {
            assert(e.event@.take(k + 1) =~= e.event@.take(k as int).push(e.event@[k as int]));
        }
        k = k + 1;
    }
    proof {
        assert(e.event@.take(e.event@.len() as int) =~= e.event@);
        assert(v@ =~= log_line(*e));
    }
    let style = Style::plain().with_fg(level_color_of(e.level));
    (v, style)
}

/// The color that flags a log level.
pub fn level_color_of(l: LogLevel) -> (c: Color)
    ensures
        c == level_color(l),
{
    match l {
        LogLevel::Info => Color::Blue,
        LogLevel::Warn => Color::Yellow,
        LogLevel::Error => Color::Magenta,
        LogLevel::Critical => Color::Red,
    }
}

fn log_items(logs: &Vec<LogEntry>) -> (out: Vec<(Vec<char>, Style)>)
    ensures
        out@.len() == logs@.len(),
        forall|i: int| 0 <= i < logs@.len() ==> (#[trigger] out@[i]).0@ == log_line(logs@[i])
            && out@[i].1 == spec_with_fg(style_plain(), level_color(logs@[i].level)),
{
    let mut out: Vec<(Vec<char>, Style)> = Vec::new();
    let mut i: usize = 0;
    while i < logs.len()
        invariant
            i <= logs@.len(),
            out@.len() == i,
            forall|j: int| 0 <= j < i ==> (#[trigger] out@[j]).0@ == log_line(logs@[j])
                && out@[j].1 == spec_with_fg(style_plain(), level_color(logs@[j].level)),
        decreases logs@.len() - i,
    {
        out.push(log_row(&logs[i]));
        i = i + 1;
    }
    out
}

fn task_items(tasks: &Vec<Task>) -> (out: Vec<Vec<char>>)
    ensures
        out@.len() == tasks@.len(),
        forall|i: int| 0 <= i < tasks@.len() ==> (#[trigger] out@[i])@ == tasks@[i].name@,
{
    let mut out: Vec<Vec<char>> = Vec::new();
    let mut i: usize = 0;
    while i < tasks.len()
        invariant
            i <= tasks@.len(),
            out@.len() == i,
            forall|j: int| 0 <= j < i ==> (#[trigger] out@[j])@ == tasks@[j].name@,
        decreases tasks@.len() - i,
    {
        let name = &tasks[i].name;
        let mut copy: Vec<char> = Vec::new();
        let mut k: usize = 0;
        while k < name.len()
            invariant
                k <= name@.len(),
                name == &tasks@[i as int].name,
                i < tasks@.len(),
                copy@ =~= name@.take(k as int),
            decreases name@.len() - k,
        {
            copy.push(name[k]);
            proof {
                assert(name@.take(k + 1) =~= name@.take(k as int).push(name@[k as int]));
            }
            k = k + 1;
        }
        proof {
            assert(name@.take(name@.len() as int) =~= name@);
        }
        out.push(copy);
        i = i + 1;
    }
    out
}

fn status_label_of(s: ServerStatus) -> (out: Vec<char>)
    ensures
        out@ == status_label(s),
{
    let mut v: Vec<char> = Vec::new();
    match s {
        ServerStatus::Up => {
            v.push('U');
            v.push('p');
        }
        ServerStatus::Fail => {
            v.push('F');
            v.push('a');
            v.push('i');
            v.push('l');
        }
    }
    proof {
        assert(v@ =~= status_label(s));
    }
    v
}

fn server_rows(servers: &Vec<ServerRecord>) -> (out: Vec<TableRow>)
    ensures
        out@.len() == servers@.len(),
        forall|i: int| 0 <= i < servers@.len() ==> {
            let row = #[trigger] out@[i];
            &&& row.cells@.len() == 3
            &&& row.cells@[0]@ == servers@[i].host@
            &&& row.cells@[1]@ == servers@[i].location@
            &&& row.cells@[2]@ == status_label(servers@[i].status)
            &&& row.style == status_style(servers@[i].status)
        },
{
    let mut out: Vec<TableRow> = Vec::new();
    let mut i: usize = 0;
    while i < servers.len()
        invariant
            i <= servers@.len(),
            out@.len() == i,
            forall|j: int| 0 <= j < i ==> {
                let row = #[trigger] out@[j];
                &&& row.cells@.len() == 3
                &&& row.cells@[0]@ == servers@[j].host@
                &&& row.cells@[1]@ == servers@[j].location@
                &&& row.cells@[2]@ == status_label(servers@[j].status)
                &&& row.style == status_style(servers@[j].status)
            },
        decreases servers@.len() - i,
    {
        let s = &servers[i];
        let mut cells: Vec<Vec<char>> = Vec::new();
        let mut host: Vec<char> = Vec::new();
        let mut k: usize = 0;
        while k < s.host.len()
            invariant
                k <= s.host@.len(),
                s == &servers@[i as int],
                i < servers@.len(),
                host@ =~= s.host@.take(k as int),
            decreases s.host@.len() - k,
        {
            host.push(s.host[k]);
            proof {
                assert(s.host@.take(k + 1) =~= s.host@.take(k as int).push(s.host@[k as int]));
            }
            k = k + 1;
        }
        let mut loc: Vec<char> = Vec::new();
        k = 0;
        while k < s.location.len()
            invariant
                k <= s.location@.len(),
                s == &servers@[i as int],
                i < servers@.len(),
                loc@ =~= s.location@.take(k as int),
            decreases s.location@.len() - k,
        {
            loc.push(s.location[k]);
            proof {
                assert(s.location@.take(k + 1)
                    =~= s.location@.take(k as int).push(s.location@[k as int]));
            }
            k = k + 1;
        }
        proof {
            assert(s.host@.take(s.host@.len() as int) =~= s.host@);
            assert(s.location@.take(s.location@.len() as int) =~= s.location@);
        }
        cells.push(host);
        cells.push(loc);
        cells.push(status_label_of(s.status));
        let style = match s.status {
            ServerStatus::Up => Style::plain().with_fg(Color::Green),
            ServerStatus::Fail => Style {
                fg: Color::Red,
                bg: Color::Black,
                mods: crate::style::Modifiers {
                    bold: false,
                    italic: false,
                    underlined: false,
                    reversed: false,
                    crossed_out: true,
                    blink: true,
                },
            },
        };
        out.push(TableRow { cells, style });
        i = i + 1;
    }
    out
}


/// The plain palette with one modifier set.
pub open spec fn mods_only(bold: bool, italic: bool, underlined: bool, reversed: bool) -> Style {
    Style {
        fg: Color::White,
        bg: Color::Black,
        mods: crate::style::Modifiers {
            bold,
            italic,
            underlined,
            reversed,
            crossed_out: false,
            blink: false,
        },
    }
}

/// The tab bar's highlight: the title keeps the green foreground and gains
/// bold on the black background.
pub open spec fn tab_highlight() -> Style {
    Style {
        fg: Color::Green,
        bg: Color::Black,
        mods: crate::style::Modifiers {
            bold: true,
            italic: false,
            underlined: false,
            reversed: false,
            crossed_out: false,
            blink: false,
        },
    }
}

/// The style of the gauge fill: magenta on black, bold and italic.
pub open spec fn gauge_style() -> Style {
    Style {
        fg: Color::Magenta,
        bg: Color::Black,
        mods: crate::style::Modifiers {
            bold: true,
            italic: true,
            underlined: false,
            reversed: false,
            crossed_out: false,
            blink: false,
        },
    }
}

/// The gauge bar region: the progress pane shrunk by its border, its first
/// two rows (fewer when the pane is shorter).
pub open spec fn gauge_bar(area: Rect) -> Rect {
    let inner = area.spec_shrink(1);
    Rect {
        x: inner.x,
        y: inner.y,
        width: inner.width,
        height: if inner.height >= 2 { 2u16 } else { inner.height },
    }
}

/// The progress pane's content: a bordered block titled "Progress" holding a
/// gauge at one half, labelled "50.00%"; pane cells below the bar keep their
/// old value.
pub open spec fn progress_pane(area: Rect, pre: Buffer, post: Buffer) -> bool {
    forall|x: int, y: int| pre.area.spec_contains(x, y) && area.spec_contains(x, y) ==>
        #[trigger] post.cell_at(x, y) == (if gauge_bar(area).spec_contains(x, y) {
            gauge_cell(gauge_bar(area), 500, "50.00%"@, gauge_style(), x, y)
        } else if area.width >= 2 && area.height >= 2 && is_border(area, x, y) {
            border_cell(area, "Progress"@, style_plain(), x, y)
        } else {
            pre.cell_at(x, y)
        })
}

/// Draw the progress pane: a bordered block titled after the work in
/// progress, holding a gauge at one half, shown as a filled half of the row
/// with its percentage label centered over the bar (the label stands on the
/// bar itself rather than on a title row of its own). Cells outside `area`
/// are untouched.
pub fn draw_gauge(buf: &mut Buffer, area: Rect)
    requires
        old(buf).wf(),
        area.wf(),
    ensures
        final(buf).wf(),
        final(buf).area == old(buf).area,
        forall|x: int, y: int|
            old(buf).area.spec_contains(x, y) && !area.spec_contains(x, y) ==>
                #[trigger] final(buf).cell_at(x, y) == old(buf).cell_at(x, y),
        progress_pane(area, *old(buf), *final(buf)),
{
    let title = chars_of("Progress");
    render_block(buf, area, &title, Style::plain());
    let mut cs: Vec<Constraint> = Vec::new();
    cs.push(Constraint::Length(2));
    cs.push(Constraint::Length(1));
    let chunks = split(area, Direction::Vertical, 1, &cs);
    proof {
        let gcs = cs@;
        let l2 = Constraint::Length(2);
        let l1 = Constraint::Length(1);
        assert(gcs =~= seq![l2, l1]);
        let inner = area.spec_shrink(1);
        let total = crate::layout::axis_len(inner, Direction::Vertical);
        assert(gcs.drop_last() =~= seq![l2]);
        assert(seq![l2].drop_last() =~= Seq::<Constraint>::empty());
        assert(crate::layout::sum_base(Seq::<Constraint>::empty()) == 0);
        assert(crate::layout::sum_base(seq![l2]) == 2);
        assert(crate::layout::sum_base(gcs) == 3);
        let rem = crate::layout::rem_after_base(gcs, total);
        assert(crate::layout::sum_demand(Seq::<Constraint>::empty(), rem) == 0);
        assert(crate::layout::sum_demand(seq![l2], rem) == 2);
        assert(crate::layout::sum_demand(gcs, rem) == 3);
        assert(crate::layout::last_flexible(Seq::<Constraint>::empty()) == -1);
        assert(crate::layout::last_flexible(seq![l2]) == -1);
        assert(crate::layout::last_flexible(gcs) == -1);
        assert(crate::layout::target_index(gcs) == 1);
        assert(crate::layout::desired(gcs, total, 0) == 2);
        assert(chunks@[0] == gauge_bar(area));
    }
    let label = chars_of("50.00%");
    let style = Style {
        fg: Color::Magenta,
        bg: Color::Black,
        mods: crate::style::Modifiers {
            bold: true,
            italic: true,
            underlined: false,
            reversed: false,
            crossed_out: false,
            blink: false,
        },
    };
    render_gauge(buf, chunks[0], 500, &label, style);
}

/// The left and right halves of a region split at its width's midpoint;
/// the right half takes the odd leftover cell.
pub open spec fn left_half(area: Rect) -> Rect {
    Rect { x: area.x, y: area.y, width: (area.width / 2) as u16, height: area.height }
}

pub open spec fn right_half(area: Rect) -> Rect {
    Rect {
        x: (area.x + area.width / 2) as u16,
        y: area.y,
        width: (area.width - area.width / 2) as u16,
        height: area.height,
    }
}

/// The task/log pane content for witness item vectors: the left half shows
/// the bordered task list with no selection, the right half the bordered log
/// rows, each in its level's color.
pub open spec fn lists_pane_with(items: Seq<Vec<char>>, rows: Seq<(Vec<char>, Style)>, tasks: Seq<Task>, logs: Seq<LogEntry>, area: Rect, pre: Buffer, post: Buffer) -> bool {
    let left = left_half(area);
    let right = right_half(area);
    let li = left.spec_shrink(1);
    let ri = right.spec_shrink(1);
    &&& items.len() == tasks.len()
    &&& (forall|i: int| 0 <= i < tasks.len() ==> (#[trigger] items[i])@ == tasks[i].name@)
    &&& rows.len() == logs.len()
    &&& (forall|i: int| 0 <= i < logs.len() ==> (#[trigger] rows[i]).0@ == log_line(logs[i])
            && rows[i].1 == spec_with_fg(style_plain(), level_color(logs[i].level)))
    &&& forall|x: int, y: int| pre.area.spec_contains(x, y) && area.spec_contains(x, y) ==>
        #[trigger] post.cell_at(x, y) == (if li.spec_contains(x, y) {
            list_cell(items, Option::None, style_plain(), mods_only(true, false, false, false),
                li, x, y)
        } else if left.width >= 2 && left.height >= 2 && is_border(left, x, y) {
            border_cell(left, "Task"@, style_plain(), x, y)
        } else if ri.spec_contains(x, y) {
            styled_list_cell(rows, style_plain(), ri, x, y)
        } else if right.width >= 2 && right.height >= 2 && is_border(right, x, y) {
            border_cell(right, "Log"@, style_plain(), x, y)
        } else {
            pre.cell_at(x, y)
        })
}

/// The task/log pane content: the task names listed without a selection on
/// the left, the log rows flagged by level color on the right.
pub open spec fn lists_pane(tasks: Seq<Task>, logs: Seq<LogEntry>, area: Rect, pre: Buffer, post: Buffer) -> bool {
    exists|items: Seq<Vec<char>>, rows: Seq<(Vec<char>, Style)>|
        #[trigger] lists_pane_with(items, rows, tasks, logs, area, pre, post)
}

/// Draw the task pane: the task list with its selection cursor beside the
/// event log, each log row flagged in its level's color. Cells outside
/// `area` are untouched.
#[verifier::rlimit(100)]
pub fn draw_list(buf: &mut Buffer, data: &DashboardData, area: Rect)
    requires
        old(buf).wf(),
        area.wf(),
    ensures
        final(buf).wf(),
        final(buf).area == old(buf).area,
        forall|x: int, y: int|
            old(buf).area.spec_contains(x, y) && !area.spec_contains(x, y) ==>
                #[trigger] final(buf).cell_at(x, y) == old(buf).cell_at(x, y),
        lists_pane(data.tasks@, data.logs@, area, *old(buf), *final(buf)),
{
    let mut outer_cs: Vec<Constraint> = Vec::new();
    outer_cs.push(Constraint::Percentage(100));
    let outer = split(area, Direction::Horizontal, 0, &outer_cs);
    proof {
        let p100 = Constraint::Percentage(100);
        let gcs = outer_cs@;
        assert(gcs =~= seq![p100]);
        assert(area.spec_shrink(0) == area);
        let total = area.width as int;
        assert(gcs.drop_last() =~= Seq::<Constraint>::empty());
        assert(crate::layout::sum_base(Seq::<Constraint>::empty()) == 0);
        assert(crate::layout::sum_base(gcs) == 0);
        let rem = crate::layout::rem_after_base(gcs, total);
        assert(rem == total);
        assert(rem * 100 / 100 == rem) by (nonlinear_arith)
            requires rem >= 0;
        assert(crate::layout::sum_demand(Seq::<Constraint>::empty(), rem) == 0);
        assert(crate::layout::sum_demand(gcs, rem) == total);
        assert(crate::layout::last_flexible(gcs) == 0);
        assert(crate::layout::target_index(gcs) == 0);
        assert(crate::layout::leftover(gcs, total) == 0);
        assert(crate::layout::desired(gcs, total, 0) == total);
        assert(outer@[0] == area);
    }
    let mut cs: Vec<Constraint> = Vec::new();
    cs.push(Constraint::Percentage(50));
    cs.push(Constraint::Percentage(50));
    let chunks = split(outer[0], Direction::Horizontal, 0, &cs);
    proof {
        let p50 = Constraint::Percentage(50);
        let gcs = cs@;
        assert(gcs =~= seq![p50, p50]);
        let total = area.width as int;
        assert(gcs.drop_last() =~= seq![p50]);
        assert(seq![p50].drop_last() =~= Seq::<Constraint>::empty());
        assert(crate::layout::sum_base(Seq::<Constraint>::empty()) == 0);
        assert(crate::layout::sum_base(seq![p50]) == 0);
        assert(crate::layout::sum_base(gcs) == 0);
        let rem = crate::layout::rem_after_base(gcs, total);
        assert(rem == total);
        assert(rem * 50 / 100 == rem / 2) by (nonlinear_arith)
            requires rem >= 0;
        assert(crate::layout::sum_demand(Seq::<Constraint>::empty(), rem) == 0);
        assert(crate::layout::sum_demand(seq![p50], rem) == total / 2);
        assert(crate::layout::sum_demand(gcs, rem) == total / 2 + total / 2);
        assert(crate::layout::last_flexible(gcs) == 1);
        assert(crate::layout::target_index(gcs) == 1);
        assert(crate::layout::desired(gcs, total, 0) == total / 2);
        assert(crate::layout::desired(gcs, total, 1)
            == total / 2 + crate::layout::leftover(gcs, total));
        assert(chunks@[0] == left_half(area));
        assert(chunks@[1] == right_half(area));
    }

    let tasks = StatefulList::with_items(task_items(&data.tasks));
    let task_title = chars_of("Task");
    render_block(buf, chunks[0], &task_title, Style::plain());
    let highlight = Style {
        fg: Color::White,
        bg: Color::Black,
        mods: crate::style::Modifiers {
            bold: true,
            italic: false,
            underlined: false,
            reversed: false,
            crossed_out: false,
            blink: false,
        },
    };
    render_list(
        buf,
        chunks[0].shrink(1),
        &tasks.items,
        &tasks.state.selected,
        Style::plain(),
        highlight,
    );

    let log_title = chars_of("Log");
    render_block(buf, chunks[1], &log_title, Style::plain());
    let items = log_items(&data.logs);
    render_styled_list(buf, chunks[1].shrink(1), &items, Style::plain());
    proof {
        assert(lists_pane_with(tasks.items@, items@, data.tasks@, data.logs@, area,
            *old(buf), *buf));
    }
}

/// The sample text of the details pane: each line as (characters, style)
/// span views.
pub open spec fn details_views() -> Seq<Seq<(Seq<char>, Style)>> {
    seq![
        seq![
            (
                "This is a paragraph with several lines. You can change style your text the way you want"@,
                style_plain(),
            ),
        ],
        seq![],
        seq![
            ("For example: "@, style_plain()),
            ("under"@, spec_with_fg(style_plain(), Color::Red)),
            (" "@, style_plain()),
            ("the"@, spec_with_fg(style_plain(), Color::Green)),
            (" "@, style_plain()),
            ("rainbow"@, spec_with_fg(style_plain(), Color::Blue)),
            ("."@, style_plain()),
        ],
        seq![
            ("Oh and if you didn't "@, style_plain()),
            ("notice"@, mods_only(false, true, false, false)),
            (" you can "@, style_plain()),
            ("automatically"@, mods_only(true, false, false, false)),
            (" "@, style_plain()),
            ("wrap"@, mods_only(false, false, false, true)),
            (" your "@, style_plain()),
            ("text"@, mods_only(false, false, true, false)),
            ("."@, style_plain()),
        ],
        seq![
            (
                "One more thing is that it should display unicode characters: 10€"@,
                style_plain(),
            ),
        ],
    ]
}

/// The view of one source line of spans.
pub open spec fn line_view(l: Vec<Span>) -> Seq<(Seq<char>, Style)> {
    l@.map_values(|sp: Span| (sp.content@, sp.style))
}

/// The details pane's content, for one witness text: the witness's span
/// views are exactly the sample text, and the pane shows its border titled
/// "Details" with the text word-wrapped inside.
pub open spec fn text_pane_with(lines: Seq<Vec<Span>>, area: Rect, pre: Buffer, post: Buffer) -> bool {
    let inner = area.spec_shrink(1);
    &&& lines.map_values(|l: Vec<Span>| line_view(l)) == details_views()
    &&& forall|x: int, y: int| pre.area.spec_contains(x, y) && area.spec_contains(x, y) ==>
        #[trigger] post.cell_at(x, y) == (if inner.spec_contains(x, y) {
            crate::paragraph::paragraph_cell(
                crate::paragraph::paragraph_rows(lines, inner.width as int, style_plain()),
                style_plain(),
                inner,
                x,
                y,
            )
        } else if area.width >= 2 && area.height >= 2 && is_border(area, x, y) {
            border_cell(area, "Details"@, style_plain(), x, y)
        } else {
            pre.cell_at(x, y)
        })
}

/// The details pane's content: the sample text, bordered and word-wrapped.
pub open spec fn text_pane(area: Rect, pre: Buffer, post: Buffer) -> bool {
    exists|lines: Seq<Vec<Span>>| #[trigger] text_pane_with(lines, area, pre, post)
}

/// Draw the details pane: a bordered block of word-wrapped, mixed-style
/// sample text. Cells outside `area` are untouched.
pub fn draw_text(buf: &mut Buffer, area: Rect)
    requires
        old(buf).wf(),
        area.wf(),
    ensures
        final(buf).wf(),
        final(buf).area == old(buf).area,
        forall|x: int, y: int|
            old(buf).area.spec_contains(x, y) && !area.spec_contains(x, y) ==>
                #[trigger] final(buf).cell_at(x, y) == old(buf).cell_at(x, y),
        text_pane(area, *old(buf), *final(buf)),
{
    let title = chars_of("Details");
    render_block(buf, area, &title, Style::plain());
    let plain = Style::plain();
    let ital = Style {
        fg: Color::White,
        bg: Color::Black,
        mods: crate::style::Modifiers {
            bold: false,
            italic: true,
            underlined: false,
            reversed: false,
            crossed_out: false,
            blink: false,
        },
    };
    let bold = Style {
        fg: Color::White,
        bg: Color::Black,
        mods: crate::style::Modifiers {
            bold: true,
            italic: false,
            underlined: false,
            reversed: false,
            crossed_out: false,
            blink: false,
        },
    };
    let rev = Style {
        fg: Color::White,
        bg: Color::Black,
        mods: crate::style::Modifiers {
            bold: false,
            italic: false,
            underlined: false,
            reversed: true,
            crossed_out: false,
            blink: false,
        },
    };
    let under = Style {
        fg: Color::White,
        bg: Color::Black,
        mods: crate::style::Modifiers {
            bold: false,
            italic: false,
            underlined: true,
            reversed: false,
            crossed_out: false,
            blink: false,
        },
    };
    let mut lines: Vec<Vec<Span>> = Vec::new();
    let mut line1: Vec<Span> = Vec::new();
    line1.push(Span {
        content: chars_of(
            "This is a paragraph with several lines. You can change style your text the way you want",
        ),
        style: plain,
    });
    lines.push(line1);
    let line2: Vec<Span> = Vec::new();
    lines.push(line2);
    let mut line3: Vec<Span> = Vec::new();
    line3.push(Span { content: chars_of("For example: "), style: plain });
    line3.push(Span { content: chars_of("under"), style: plain.with_fg(Color::Red) });
    line3.push(Span { content: chars_of(" "), style: plain });
    line3.push(Span { content: chars_of("the"), style: plain.with_fg(Color::Green) });
    line3.push(Span { content: chars_of(" "), style: plain });
    line3.push(Span { content: chars_of("rainbow"), style: plain.with_fg(Color::Blue) });
    line3.push(Span { content: chars_of("."), style: plain });
    lines.push(line3);
    let mut line4: Vec<Span> = Vec::new();
    line4.push(Span { content: chars_of("Oh and if you didn't "), style: plain });
    line4.push(Span { content: chars_of("notice"), style: ital });
    line4.push(Span { content: chars_of(" you can "), style: plain });
    line4.push(Span { content: chars_of("automatically"), style: bold });
    line4.push(Span { content: chars_of(" "), style: plain });
    line4.push(Span { content: chars_of("wrap"), style: rev });
    line4.push(Span { content: chars_of(" your "), style: plain });
    line4.push(Span { content: chars_of("text"), style: under });
    line4.push(Span { content: chars_of("."), style: plain });
    lines.push(line4);
    let mut line5: Vec<Span> = Vec::new();
    line5.push(Span {
        content: chars_of("One more thing is that it should display unicode characters: 10€"),
        style: plain,
    });
    lines.push(line5);
    proof {
        assert(line_view(lines@[0]) =~= details_views()[0]);
        assert(line_view(lines@[1]) =~= details_views()[1]);
        assert(line_view(lines@[2]) =~= details_views()[2]);
        assert(line_view(lines@[3]) =~= details_views()[3]);
        assert(line_view(lines@[4]) =~= details_views()[4]);
        assert(lines@.map_values(|l: Vec<Span>| line_view(l)) =~= details_views());
    }
    render_paragraph(buf, area.shrink(1), &lines, plain);
    proof {
        assert(text_pane_with(lines@, area, *old(buf), *buf));
    }
}

/// The heights of the task view's three regions: four rows for the progress
/// pane and thirty for the lists, each clamped to the space that is left;
/// the details text takes the remainder.
pub open spec fn task_h0(area: Rect) -> int {
    if area.height >= 4 { 4int } else { area.height as int }
}

pub open spec fn task_h1(area: Rect) -> int {
    if area.height - task_h0(area) >= 30 { 30int } else { area.height - task_h0(area) }
}

/// The three regions of the task view: the progress pane, the task/log
/// lists, and the details text.
pub open spec fn task_chunk0(area: Rect) -> Rect {
    Rect { x: area.x, y: area.y, width: area.width, height: task_h0(area) as u16 }
}

pub open spec fn task_chunk1(area: Rect) -> Rect {
    Rect {
        x: area.x,
        y: (area.y + task_h0(area)) as u16,
        width: area.width,
        height: task_h1(area) as u16,
    }
}

pub open spec fn task_chunk2(area: Rect) -> Rect {
    Rect {
        x: area.x,
        y: (area.y + task_h0(area) + task_h1(area)) as u16,
        width: area.width,
        height: (area.height - task_h0(area) - task_h1(area)) as u16,
    }
}

/// The task view's content: the progress pane on top, the task/log lists
/// below it, the details text in the remainder.
pub open spec fn task_view(tasks: Seq<Task>, logs: Seq<LogEntry>, area: Rect, pre: Buffer, post: Buffer) -> bool {
    &&& progress_pane(task_chunk0(area), pre, post)
    &&& lists_pane(tasks, logs, task_chunk1(area), pre, post)
    &&& text_pane(task_chunk2(area), pre, post)
}

/// A pane predicate is insensitive to buffer states that agree on the
/// pane's cells.
proof fn lemma_progress_pane_stable(area: Rect, pre1: Buffer, post1: Buffer, pre2: Buffer, post2: Buffer)
    requires
        progress_pane(area, pre1, post1),
        pre2.area == pre1.area,
        forall|x: int, y: int| pre1.area.spec_contains(x, y) && area.spec_contains(x, y) ==>
            #[trigger] pre2.cell_at(x, y) == pre1.cell_at(x, y),
        forall|x: int, y: int| pre1.area.spec_contains(x, y) && area.spec_contains(x, y) ==>
            #[trigger] post2.cell_at(x, y) == post1.cell_at(x, y),
    ensures
        progress_pane(area, pre2, post2),
{
    assert forall|x: int, y: int| pre2.area.spec_contains(x, y) && area.spec_contains(x, y)
        implies #[trigger] post2.cell_at(x, y) == (if gauge_bar(area).spec_contains(x, y) {
            gauge_cell(gauge_bar(area), 500, "50.00%"@, gauge_style(), x, y)
        } else if area.width >= 2 && area.height >= 2 && is_border(area, x, y) {
            border_cell(area, "Progress"@, style_plain(), x, y)
        } else {
            pre2.cell_at(x, y)
        }) by {
        assert(post1.cell_at(x, y) == (if gauge_bar(area).spec_contains(x, y) {
            gauge_cell(gauge_bar(area), 500, "50.00%"@, gauge_style(), x, y)
        } else if area.width >= 2 && area.height >= 2 && is_border(area, x, y) {
            border_cell(area, "Progress"@, style_plain(), x, y)
        } else {
            pre1.cell_at(x, y)
        }));
    }
}

proof fn lemma_lists_pane_stable(tasks: Seq<Task>, logs: Seq<LogEntry>, area: Rect, pre1: Buffer, post1: Buffer, pre2: Buffer, post2: Buffer)
    requires
        lists_pane(tasks, logs, area, pre1, post1),
        pre2.area == pre1.area,
        forall|x: int, y: int| pre1.area.spec_contains(x, y) && area.spec_contains(x, y) ==>
            #[trigger] pre2.cell_at(x, y) == pre1.cell_at(x, y),
        forall|x: int, y: int| pre1.area.spec_contains(x, y) && area.spec_contains(x, y) ==>
            #[trigger] post2.cell_at(x, y) == post1.cell_at(x, y),
    ensures
        lists_pane(tasks, logs, area, pre2, post2),
{
    let (items, rows) = choose|items: Seq<Vec<char>>, rows: Seq<(Vec<char>, Style)>|
        #[trigger] lists_pane_with(items, rows, tasks, logs, area, pre1, post1);
    let left = left_half(area);
    let right = right_half(area);
    let li = left.spec_shrink(1);
    let ri = right.spec_shrink(1);
    assert forall|x: int, y: int| pre2.area.spec_contains(x, y) && area.spec_contains(x, y)
        implies #[trigger] post2.cell_at(x, y) == (if li.spec_contains(x, y) {
            list_cell(items, Option::None, style_plain(), mods_only(true, false, false, false),
                li, x, y)
        } else if left.width >= 2 && left.height >= 2 && is_border(left, x, y) {
            border_cell(left, "Task"@, style_plain(), x, y)
        } else if ri.spec_contains(x, y) {
            styled_list_cell(rows, style_plain(), ri, x, y)
        } else if right.width >= 2 && right.height >= 2 && is_border(right, x, y) {
            border_cell(right, "Log"@, style_plain(), x, y)
        } else {
            pre2.cell_at(x, y)
        }) by {
        assert(pre1.area.spec_contains(x, y) && area.spec_contains(x, y));
    }
    assert(lists_pane_with(items, rows, tasks, logs, area, pre2, post2));
}

proof fn lemma_text_pane_stable(area: Rect, pre1: Buffer, post1: Buffer, pre2: Buffer, post2: Buffer)
    requires
        text_pane(area, pre1, post1),
        pre2.area == pre1.area,
        forall|x: int, y: int| pre1.area.spec_contains(x, y) && area.spec_contains(x, y) ==>
            #[trigger] pre2.cell_at(x, y) == pre1.cell_at(x, y),
        forall|x: int, y: int| pre1.area.spec_contains(x, y) && area.spec_contains(x, y) ==>
            #[trigger] post2.cell_at(x, y) == post1.cell_at(x, y),
    ensures
        text_pane(area, pre2, post2),
{
    let lines = choose|lines: Seq<Vec<Span>>|
        #[trigger] text_pane_with(lines, area, pre1, post1);
    let inner = area.spec_shrink(1);
    assert forall|x: int, y: int| pre2.area.spec_contains(x, y) && area.spec_contains(x, y)
        implies #[trigger] post2.cell_at(x, y) == (if inner.spec_contains(x, y) {
            crate::paragraph::paragraph_cell(
                crate::paragraph::paragraph_rows(lines, inner.width as int, style_plain()),
                style_plain(),
                inner,
                x,
                y,
            )
        } else if area.width >= 2 && area.height >= 2 && is_border(area, x, y) {
            border_cell(area, "Details"@, style_plain(), x, y)
        } else {
            pre2.cell_at(x, y)
        }) by {
        assert(pre1.area.spec_contains(x, y) && area.spec_contains(x, y));
    }
    assert(text_pane_with(lines, area, pre2, post2));
}

/// Compose the task view: the progress gauge, the task and log lists, and
/// the details text, stacked by the layout engine. Cells outside `area` are
/// untouched.
pub fn task(buf: &mut Buffer, data: &DashboardData, area: Rect)
    requires
        old(buf).wf(),
        area.wf(),
    ensures
        final(buf).wf(),
        final(buf).area == old(buf).area,
        forall|x: int, y: int|
            old(buf).area.spec_contains(x, y) && !area.spec_contains(x, y) ==>
                #[trigger] final(buf).cell_at(x, y) == old(buf).cell_at(x, y),
        task_view(data.tasks@, data.logs@, area, *old(buf), *final(buf)),
{
    let mut cs: Vec<Constraint> = Vec::new();
    cs.push(Constraint::Length(4));
    cs.push(Constraint::Length(30));
    cs.push(Constraint::Length(30));
    let chunks = split(area, Direction::Vertical, 0, &cs);
    proof {
        {
            let l4 = Constraint::Length(4);
            let l30 = Constraint::Length(30);
            let gcs = cs@;
            assert(gcs =~= seq![l4, l30, l30]);
            assert(area.spec_shrink(0) == area);
            let total = area.height as int;
            assert(gcs.drop_last() =~= seq![l4, l30]);
            assert(seq![l4, l30].drop_last() =~= seq![l4]);
            assert(seq![l4].drop_last() =~= Seq::<Constraint>::empty());
            assert(crate::layout::sum_base(Seq::<Constraint>::empty()) == 0);
            assert(crate::layout::sum_base(seq![l4]) == 4);
            assert(crate::layout::sum_base(seq![l4, l30]) == 34);
            assert(crate::layout::sum_base(gcs) == 64);
            let rem = crate::layout::rem_after_base(gcs, total);
            assert(crate::layout::sum_demand(Seq::<Constraint>::empty(), rem) == 0);
            assert(crate::layout::sum_demand(seq![l4], rem) == 4);
            assert(crate::layout::sum_demand(seq![l4, l30], rem) == 34);
            assert(crate::layout::sum_demand(gcs, rem) == 64);
            assert(crate::layout::last_flexible(Seq::<Constraint>::empty()) == -1);
            assert(crate::layout::last_flexible(seq![l4]) == -1);
            assert(crate::layout::last_flexible(seq![l4, l30]) == -1);
            assert(crate::layout::last_flexible(gcs) == -1);
            assert(crate::layout::target_index(gcs) == 2);
            assert(crate::layout::desired(gcs, total, 0) == 4);
            assert(crate::layout::desired(gcs, total, 1) == 30);
            assert(chunks@[0] == task_chunk0(area));
            assert(chunks@[1] == task_chunk1(area));
            assert(chunks@[2] == task_chunk2(area));
        }
    }
    let ghost buf0 = *buf;
    draw_gauge(buf, chunks[0]);
    let ghost buf1 = *buf;
    draw_list(buf, data, chunks[1]);
    let ghost buf2 = *buf;
    draw_text(buf, chunks[2]);
    proof {
        lemma_progress_pane_stable(chunks@[0], buf0, buf1, buf0, *buf);
        lemma_lists_pane_stable(data.tasks@, data.logs@, chunks@[1], buf1, buf2, buf0, *buf);
        lemma_text_pane_stable(chunks@[2], buf2, *buf, buf0, *buf);
    }
}

/// The two panes of the server view: the table takes thirty percent of the
/// width, the map canvas the rest.
pub open spec fn table_chunk(area: Rect) -> Rect {
    Rect {
        x: area.x,
        y: area.y,
        width: (area.width as int * 30 / 100) as u16,
        height: area.height,
    }
}

pub open spec fn map_chunk(area: Rect) -> Rect {
    Rect {
        x: (area.x + area.width as int * 30 / 100) as u16,
        y: area.y,
        width: (area.width - area.width as int * 30 / 100) as u16,
        height: area.height,
    }
}

/// The map's logical domain: the whole globe in hundredths of a degree.
pub open spec fn world_bounds() -> Bounds {
    Bounds { x_min: -18000i32, x_max: 18000i32, y_min: -9000i32, y_max: 9000i32 }
}

/// Whether a server's position lies inside the map domain.
pub open spec fn srv_in_domain(s: ServerRecord) -> bool {
    world_bounds().spec_contains(s.lon as int, s.lat as int)
}

/// The grid column and row a server's position projects to.
pub open spec fn srv_col(s: ServerRecord, gw: int) -> int {
    crate::canvas::project_col(world_bounds(), gw, s.lon as int)
}

pub open spec fn srv_row(s: ServerRecord, gh: int) -> int {
    crate::canvas::project_row(world_bounds(), gh, s.lat as int)
}

/// The marker shown at canvas cell `ci`: an 'X' in the status color of the
/// last in-domain server whose position projects to that cell.
pub open spec fn marker_at(servers: Seq<ServerRecord>, width: int, gw: int, gh: int, ci: int) -> Option<(char, Color)>
    decreases servers.len(),
{
    if servers.len() == 0 {
        None
    } else {
        let s = servers.last();
        if srv_in_domain(s)
            && crate::canvas::cell_of(width, srv_col(s, gw), srv_row(s, gh)) == ci {
            Some(('X', status_color(s.status)))
        } else {
            marker_at(servers.drop_last(), width, gw, gh, ci)
        }
    }
}

/// Whether grid dot (c, r) lies on the line between some unordered pair of
/// servers' projected positions.
pub open spec fn pair_line_dot(servers: Seq<ServerRecord>, gw: int, gh: int, c: int, r: int) -> bool {
    exists|i: int, j: int|
        #![trigger servers[i], servers[j]]
        0 <= i < j < servers.len()
            && crate::canvas::on_line(
                srv_col(servers[i], gw), srv_row(servers[i], gh),
                srv_col(servers[j], gw), srv_row(servers[j], gh),
                crate::canvas::line_steps(
                    srv_col(servers[i], gw), srv_row(servers[i], gh),
                    srv_col(servers[j], gw), srv_row(servers[j], gh)) + 1,
                c, r)
}

/// Whether canvas cell `ci` holds a dot of some pair's connecting line.
pub open spec fn pair_line_cell(servers: Seq<ServerRecord>, width: int, gw: int, gh: int, ci: int) -> bool {
    exists|i: int, j: int|
        #![trigger servers[i], servers[j]]
        0 <= i < j < servers.len()
            && crate::canvas::line_in_cell(
                srv_col(servers[i], gw), srv_row(servers[i], gh),
                srv_col(servers[j], gw), srv_row(servers[j], gh),
                crate::canvas::line_steps(
                    srv_col(servers[i], gw), srv_row(servers[i], gh),
                    srv_col(servers[j], gw), srv_row(servers[j], gh)) + 1,
                width, gw, gh, ci)
}

/// The canvas the server map builds: an empty base layer, and over it one
/// layer holding the pairwise yellow connection lines, clipped to the grid,
/// with an 'X' marker per in-domain server, in its status color, composited
/// over the lines.
pub open spec fn map_canvas(servers: Seq<ServerRecord>, w: u16, h: u16, cv: Canvas) -> bool {
    let gw = 2 * w as int;
    let gh = 4 * h as int;
    let cells = w as int * h as int;
    &&& cv.wf()
    &&& cv.width == w
    &&& cv.height == h
    &&& cv.bounds == world_bounds()
    &&& cv.layers.len() == 2
    &&& cv.layers[0].is_empty(cells)
    &&& (forall|ci: int| 0 <= ci < cells ==>
            #[trigger] cv.top().overlay[ci] == marker_at(servers, w as int, gw, gh, ci))
    &&& (forall|c: int, r: int| 0 <= c < gw && 0 <= r < gh ==>
            #[trigger] cv.top().dot_set(w as int, c, r) == pair_line_dot(servers, gw, gh, c, r))
    &&& (forall|ci: int| 0 <= ci < cells ==>
            #[trigger] cv.top().colors[ci]
                == (if pair_line_cell(servers, w as int, gw, gh, ci) {
                Color::Yellow
            } else {
                Color::Reset
            }))
}

/// The server table pane's content for witness vectors: a bordered block
/// titled "Server" holding the header and one row per record, flagged by
/// its status style.
pub open spec fn table_pane_with(header: Seq<Vec<char>>, trows: Seq<TableRow>, servers: Seq<ServerRecord>, area: Rect, pre: Buffer, post: Buffer) -> bool {
    let inner = area.spec_shrink(1);
    &&& header.len() == 3
    &&& header[0]@ == "Server"@
    &&& header[1]@ == "Location"@
    &&& header[2]@ == "Status"@
    &&& trows.len() == servers.len()
    &&& (forall|i: int| 0 <= i < servers.len() ==> {
            let row = #[trigger] trows[i];
            &&& row.cells@.len() == 3
            &&& row.cells@[0]@ == servers[i].host@
            &&& row.cells@[1]@ == servers[i].location@
            &&& row.cells@[2]@ == status_label(servers[i].status)
            &&& row.style == status_style(servers[i].status)
        })
    &&& forall|x: int, y: int| pre.area.spec_contains(x, y) && area.spec_contains(x, y) ==>
        #[trigger] post.cell_at(x, y) == (if inner.spec_contains(x, y) {
            table_cell(header, trows, seq![15u16, 15u16, 10u16],
                spec_with_fg(style_plain(), Color::Yellow), style_plain(), inner, x, y)
        } else if area.width >= 2 && area.height >= 2 && is_border(area, x, y) {
            border_cell(area, "Server"@, style_plain(), x, y)
        } else {
            pre.cell_at(x, y)
        })
}

pub open spec fn table_pane(servers: Seq<ServerRecord>, area: Rect, pre: Buffer, post: Buffer) -> bool {
    exists|header: Seq<Vec<char>>, trows: Seq<TableRow>|
        #[trigger] table_pane_with(header, trows, servers, area, pre, post)
}

/// The map pane's content for one witness canvas: the bordered block titled
/// "Location" whose interior is the composited map canvas of the servers.
pub open spec fn map_pane_with(cv: Canvas, servers: Seq<ServerRecord>, area: Rect, pre: Buffer, post: Buffer) -> bool {
    let inner = area.spec_shrink(1);
    &&& (inner.width >= 1 && inner.height >= 1 ==>
            map_canvas(servers, inner.width, inner.height, cv))
    &&& (inner.width >= 1 && inner.height >= 1 ==>
        forall|x: int, y: int|
            pre.area.spec_contains(x, y) && inner.spec_contains(x, y) ==>
                crate::canvas::canvas_cell_ok(
                    cv.layers@,
                    style_plain(),
                    (y - inner.y) * (inner.width as int) + (x - inner.x),
                    #[trigger] post.cell_at(x, y),
                ))
    &&& forall|x: int, y: int|
        pre.area.spec_contains(x, y) && area.spec_contains(x, y)
            && !(inner.width >= 1 && inner.height >= 1 && inner.spec_contains(x, y)) ==>
            #[trigger] post.cell_at(x, y)
                == (if area.width >= 2 && area.height >= 2 && is_border(area, x, y) {
                border_cell(area, "Location"@, style_plain(), x, y)
            } else {
                pre.cell_at(x, y)
            })
}

pub open spec fn map_pane(servers: Seq<ServerRecord>, area: Rect, pre: Buffer, post: Buffer) -> bool {
    let inner = area.spec_shrink(1);
    if inner.width >= 1 && inner.height >= 1 {
        exists|cv: Canvas| #[trigger] map_pane_with(cv, servers, area, pre, post)
    } else {
        forall|x: int, y: int|
            pre.area.spec_contains(x, y) && area.spec_contains(x, y) ==>
                #[trigger] post.cell_at(x, y)
                    == (if area.width >= 2 && area.height >= 2 && is_border(area, x, y) {
                    border_cell(area, "Location"@, style_plain(), x, y)
                } else {
                    pre.cell_at(x, y)
                })
    }
}

/// The server view's content: the table pane on the left thirty percent,
/// the map pane on the rest.
pub open spec fn server_view(servers: Seq<ServerRecord>, area: Rect, pre: Buffer, post: Buffer) -> bool {
    &&& table_pane(servers, table_chunk(area), pre, post)
    &&& map_pane(servers, map_chunk(area), pre, post)
}

/// Pairs already drawn when the line loops stand at (i, j).
spec fn pair_done(i0: int, j0: int, i: int, j: int) -> bool {
    i0 < i || (i0 == i && j0 < j)
}

spec fn done_line_dot(servers: Seq<ServerRecord>, gw: int, gh: int, i: int, j: int, c: int, r: int) -> bool {
    exists|i0: int, j0: int|
        #![trigger servers[i0], servers[j0]]
        0 <= i0 < j0 < servers.len() && pair_done(i0, j0, i, j)
            && crate::canvas::on_line(
                srv_col(servers[i0], gw), srv_row(servers[i0], gh),
                srv_col(servers[j0], gw), srv_row(servers[j0], gh),
                crate::canvas::line_steps(
                    srv_col(servers[i0], gw), srv_row(servers[i0], gh),
                    srv_col(servers[j0], gw), srv_row(servers[j0], gh)) + 1,
                c, r)
}

spec fn done_line_cell(servers: Seq<ServerRecord>, width: int, gw: int, gh: int, i: int, j: int, ci: int) -> bool {
    exists|i0: int, j0: int|
        #![trigger servers[i0], servers[j0]]
        0 <= i0 < j0 < servers.len() && pair_done(i0, j0, i, j)
            && crate::canvas::line_in_cell(
                srv_col(servers[i0], gw), srv_row(servers[i0], gh),
                srv_col(servers[j0], gw), srv_row(servers[j0], gh),
                crate::canvas::line_steps(
                    srv_col(servers[i0], gw), srv_row(servers[i0], gh),
                    srv_col(servers[j0], gw), srv_row(servers[j0], gh)) + 1,
                width, gw, gh, ci)
}

/// Compose the server view: the server table, each row flagged by status,
/// beside the map canvas plotting each server and the pairwise connections
/// between them, the markers composited over the lines. The base layer under
/// the overlay is left empty: no world outline is drawn, since the outline
/// is no part of the injected data; a provider wanting one could plot it
/// before the overlay layer. Cells outside `area` are untouched.
#[verifier::rlimit(100)]
pub fn server(buf: &mut Buffer, data: &DashboardData, area: Rect)
    requires
        old(buf).wf(),
        area.wf(),
    ensures
        final(buf).wf(),
        final(buf).area == old(buf).area,
        forall|x: int, y: int|
            old(buf).area.spec_contains(x, y) && !area.spec_contains(x, y) ==>
                #[trigger] final(buf).cell_at(x, y) == old(buf).cell_at(x, y),
        server_view(data.servers@, area, *old(buf), *final(buf)),
{
    let mut cs: Vec<Constraint> = Vec::new();
    cs.push(Constraint::Percentage(30));
    cs.push(Constraint::Percentage(70));
    let chunks = split(area, Direction::Horizontal, 0, &cs);
    proof {
        let p30 = Constraint::Percentage(30);
        let p70 = Constraint::Percentage(70);
        let gcs = cs@;
        assert(gcs =~= seq![p30, p70]);
        assert(area.spec_shrink(0) == area);
        let total = area.width as int;
        assert(gcs.drop_last() =~= seq![p30]);
        assert(seq![p30].drop_last() =~= Seq::<Constraint>::empty());
        assert(crate::layout::sum_base(Seq::<Constraint>::empty()) == 0);
        assert(crate::layout::sum_base(seq![p30]) == 0);
        assert(crate::layout::sum_base(gcs) == 0);
        let rem = crate::layout::rem_after_base(gcs, total);
        assert(rem == total);
        assert(total * 30 / 100 + total * 70 / 100 <= total && total * 30 / 100 >= 0
            && total * 70 / 100 >= 0) by (nonlinear_arith)
            requires total >= 0;
        assert(crate::layout::sum_demand(Seq::<Constraint>::empty(), rem) == 0);
        assert(crate::layout::sum_demand(seq![p30], rem) == total * 30 / 100);
        assert(crate::layout::sum_demand(gcs, rem) == total * 30 / 100 + total * 70 / 100);
        assert(crate::layout::last_flexible(gcs) == 1);
        assert(crate::layout::target_index(gcs) == 1);
        assert(crate::layout::desired(gcs, total, 0) == total * 30 / 100);
        assert(crate::layout::desired(gcs, total, 1)
            == total * 70 / 100 + crate::layout::leftover(gcs, total));
        assert(chunks@[0] == table_chunk(area));
        assert(chunks@[1] == map_chunk(area));
    }

    let table_title = chars_of("Server");
    render_block(buf, chunks[0], &table_title, Style::plain());
    let mut header: Vec<Vec<char>> = Vec::new();
    header.push(chars_of("Server"));
    header.push(chars_of("Location"));
    header.push(chars_of("Status"));
    let mut widths: Vec<u16> = Vec::new();
    widths.push(15);
    widths.push(15);
    widths.push(10);
    let rows = server_rows(&data.servers);
    render_table(
        buf,
        chunks[0].shrink(1),
        &header,
        &rows,
        &widths,
        Style::plain().with_fg(Color::Yellow),
        Style::plain(),
    );
    let ghost buf_table = *buf;
    proof {
        assert(widths@ =~= seq![15u16, 15u16, 10u16]);
        assert(table_pane_with(header@, rows@, data.servers@, chunks@[0], *old(buf),
            buf_table));
    }

    let map_title = chars_of("Location");
    render_block(buf, chunks[1], &map_title, Style::plain());
    let inner = chunks[1].shrink(1);
    let ghost srv = data.servers@;
    if inner.width >= 1 && inner.height >= 1 {
        let bounds = Bounds { x_min: -18000, x_max: 18000, y_min: -9000, y_max: 9000 };
        let mut cv = Canvas::new(inner.width, inner.height, bounds);
        cv.layer();
        let ghost gw = 2 * inner.width as int;
        let ghost gh = 4 * inner.height as int;
        let ghost w_ = inner.width as int;
        let ghost cells = inner.width as int * inner.height as int;
        let ghost base = cv.layers@[0];
        proof {
            assert forall|c: int, r: int| 0 <= c < gw && 0 <= r < gh
                implies !(#[trigger] cv.top().dot_set(w_, c, r)) by {
                assert((r / 4) * w_ + c / 2 < w_ * (inner.height as int)
                    && 0 <= (r / 4) * w_ + c / 2) by (nonlinear_arith)
                    requires
                        w_ >= 1 && 0 <= c / 2 < w_
                            && 0 <= r / 4 < inner.height as int;
                assert(cv.top().masks[crate::canvas::cell_of(w_, c, r)] == 0);
                assert(0u8 & crate::canvas::braille_bit(c % 2, r % 4) == 0) by (bit_vector);
            }
        }
        let n = data.servers.len();
        let mut i: usize = 0;
        while i < n
            invariant
                n == srv.len(),
                srv == data.servers@,
                i <= n,
                cv.wf(),
                cv.width == inner.width,
                cv.height == inner.height,
                cv.bounds == world_bounds(),
                cv.layers.len() == 2,
                cv.layers@[0] == base,
                gw == 2 * inner.width as int,
                gh == 4 * inner.height as int,
                w_ == inner.width as int,
                cells == inner.width as int * inner.height as int,
                forall|ci: int| 0 <= ci < cells ==> #[trigger] cv.top().overlay[ci] is None,
                forall|c: int, r: int| 0 <= c < gw && 0 <= r < gh ==>
                    #[trigger] cv.top().dot_set(w_, c, r)
                        == done_line_dot(srv, gw, gh, i as int, i + 1, c, r),
                forall|ci: int| 0 <= ci < cells ==>
                    #[trigger] cv.top().colors[ci]
                        == (if done_line_cell(srv, w_, gw, gh, i as int, i + 1, ci) {
                        Color::Yellow
                    } else {
                        Color::Reset
                    }),
            decreases n - i,
        {
            let mut j: usize = i + 1;
            while j < n
                invariant
                    i < j <= n,
                    i < n,
                    n == srv.len(),
                    srv == data.servers@,
                    cv.wf(),
                    cv.width == inner.width,
                    cv.height == inner.height,
                    cv.bounds == world_bounds(),
                    cv.layers.len() == 2,
                    cv.layers@[0] == base,
                    gw == 2 * inner.width as int,
                    gh == 4 * inner.height as int,
                    w_ == inner.width as int,
                    cells == inner.width as int * inner.height as int,
                    forall|ci: int| 0 <= ci < cells ==> #[trigger] cv.top().overlay[ci] is None,
                    forall|c: int, r: int| 0 <= c < gw && 0 <= r < gh ==>
                        #[trigger] cv.top().dot_set(w_, c, r)
                            == done_line_dot(srv, gw, gh, i as int, j as int, c, r),
                    forall|ci: int| 0 <= ci < cells ==>
                        #[trigger] cv.top().colors[ci]
                            == (if done_line_cell(srv, w_, gw, gh, i as int, j as int, ci) {
                            Color::Yellow
                        } else {
                            Color::Reset
                        }),
                decreases n - j,
            {
                let a = &data.servers[i];
                let b = &data.servers[j];
                let ghost before = cv;
                cv.draw_line(a.lon, a.lat, b.lon, b.lat, Color::Yellow);
                proof {
                    assert forall|c: int, r: int| 0 <= c < gw && 0 <= r < gh
                        implies #[trigger] cv.top().dot_set(w_, c, r)
                            == done_line_dot(srv, gw, gh, i as int, j + 1, c, r) by {
                        if cv.top().dot_set(w_, c, r) {
                            if before.top().dot_set(w_, c, r) {
                                let (i0, j0) = choose|i0: int, j0: int|
                                    #![trigger srv[i0], srv[j0]]
                                    0 <= i0 < j0 < srv.len()
                                        && pair_done(i0, j0, i as int, j as int)
                                        && crate::canvas::on_line(
                                            srv_col(srv[i0], gw), srv_row(srv[i0], gh),
                                            srv_col(srv[j0], gw), srv_row(srv[j0], gh),
                                            crate::canvas::line_steps(
                                                srv_col(srv[i0], gw), srv_row(srv[i0], gh),
                                                srv_col(srv[j0], gw), srv_row(srv[j0], gh))
                                                + 1,
                                            c, r);
                                assert(pair_done(i0, j0, i as int, j + 1));
                                assert(done_line_dot(srv, gw, gh, i as int, j + 1, c, r));
                            } else {
                                assert(pair_done(i as int, j as int, i as int, j + 1));
                                assert(done_line_dot(srv, gw, gh, i as int, j + 1, c, r));
                            }
                        } else {
                            if done_line_dot(srv, gw, gh, i as int, j + 1, c, r) {
                                let (i0, j0) = choose|i0: int, j0: int|
                                    #![trigger srv[i0], srv[j0]]
                                    0 <= i0 < j0 < srv.len()
                                        && pair_done(i0, j0, i as int, j + 1)
                                        && crate::canvas::on_line(
                                            srv_col(srv[i0], gw), srv_row(srv[i0], gh),
                                            srv_col(srv[j0], gw), srv_row(srv[j0], gh),
                                            crate::canvas::line_steps(
                                                srv_col(srv[i0], gw), srv_row(srv[i0], gh),
                                                srv_col(srv[j0], gw), srv_row(srv[j0], gh))
                                                + 1,
                                            c, r);
                                if pair_done(i0, j0, i as int, j as int) {
                                    assert(done_line_dot(srv, gw, gh, i as int, j as int, c,
                                        r));
                                    assert(before.top().dot_set(w_, c, r));
                                } else {
                                    assert(i0 == i as int && j0 == j as int);
                                }
                                assert(false);
                            }
                        }
                    }
                    assert forall|ci: int| 0 <= ci < cells
                        implies #[trigger] cv.top().colors[ci]
                            == (if done_line_cell(srv, w_, gw, gh, i as int, j + 1, ci) {
                            Color::Yellow
                        } else {
                            Color::Reset
                        }) by {
                        if cv.top().colors[ci] == Color::Yellow
                            && before.top().colors[ci] != Color::Yellow {
                            assert(pair_done(i as int, j as int, i as int, j + 1));
                            assert(done_line_cell(srv, w_, gw, gh, i as int, j + 1, ci));
                        } else if before.top().colors[ci] == Color::Yellow {
                            let (i0, j0) = choose|i0: int, j0: int|
                                #![trigger srv[i0], srv[j0]]
                                0 <= i0 < j0 < srv.len()
                                    && pair_done(i0, j0, i as int, j as int)
                                    && crate::canvas::line_in_cell(
                                        srv_col(srv[i0], gw), srv_row(srv[i0], gh),
                                        srv_col(srv[j0], gw), srv_row(srv[j0], gh),
                                        crate::canvas::line_steps(
                                            srv_col(srv[i0], gw), srv_row(srv[i0], gh),
                                            srv_col(srv[j0], gw), srv_row(srv[j0], gh)) + 1,
                                        w_, gw, gh, ci);
                            assert(pair_done(i0, j0, i as int, j + 1));
                            assert(done_line_cell(srv, w_, gw, gh, i as int, j + 1, ci));
                            assert(cv.top().colors[ci] == Color::Yellow);
                        } else {
                            if done_line_cell(srv, w_, gw, gh, i as int, j + 1, ci) {
                                let (i0, j0) = choose|i0: int, j0: int|
                                    #![trigger srv[i0], srv[j0]]
                                    0 <= i0 < j0 < srv.len()
                                        && pair_done(i0, j0, i as int, j + 1)
                                        && crate::canvas::line_in_cell(
                                            srv_col(srv[i0], gw), srv_row(srv[i0], gh),
                                            srv_col(srv[j0], gw), srv_row(srv[j0], gh),
                                            crate::canvas::line_steps(
                                                srv_col(srv[i0], gw), srv_row(srv[i0], gh),
                                                srv_col(srv[j0], gw), srv_row(srv[j0], gh))
                                                + 1,
                                            w_, gw, gh, ci);
                                if pair_done(i0, j0, i as int, j as int) {
                                    assert(done_line_cell(srv, w_, gw, gh, i as int,
                                        j as int, ci));
                                } else {
                                    assert(i0 == i as int && j0 == j as int);
                                    assert(cv.top().colors[ci] == Color::Yellow);
                                }
                                assert(false);
                            }
                        }
                    }
                }
                j = j + 1;
            }
            proof {
                assert forall|c: int, r: int| 0 <= c < gw && 0 <= r < gh
                    implies (done_line_dot(srv, gw, gh, i as int, n as int, c, r)
                        == done_line_dot(srv, gw, gh, i + 1, i + 2, c, r)) by {
                    if done_line_dot(srv, gw, gh, i as int, n as int, c, r) {
                        let (i0, j0) = choose|i0: int, j0: int|
                            #![trigger srv[i0], srv[j0]]
                            0 <= i0 < j0 < srv.len() && pair_done(i0, j0, i as int, n as int)
                                && crate::canvas::on_line(
                                    srv_col(srv[i0], gw), srv_row(srv[i0], gh),
                                    srv_col(srv[j0], gw), srv_row(srv[j0], gh),
                                    crate::canvas::line_steps(
                                        srv_col(srv[i0], gw), srv_row(srv[i0], gh),
                                        srv_col(srv[j0], gw), srv_row(srv[j0], gh)) + 1,
                                    c, r);
                        assert(pair_done(i0, j0, i + 1, i + 2));
                        assert(done_line_dot(srv, gw, gh, i + 1, i + 2, c, r));
                    }
                    if done_line_dot(srv, gw, gh, i + 1, i + 2, c, r) {
                        let (i0, j0) = choose|i0: int, j0: int|
                            #![trigger srv[i0], srv[j0]]
                            0 <= i0 < j0 < srv.len() && pair_done(i0, j0, i + 1, i + 2)
                                && crate::canvas::on_line(
                                    srv_col(srv[i0], gw), srv_row(srv[i0], gh),
                                    srv_col(srv[j0], gw), srv_row(srv[j0], gh),
                                    crate::canvas::line_steps(
                                        srv_col(srv[i0], gw), srv_row(srv[i0], gh),
                                        srv_col(srv[j0], gw), srv_row(srv[j0], gh)) + 1,
                                    c, r);
                        assert(pair_done(i0, j0, i as int, n as int));
                        assert(done_line_dot(srv, gw, gh, i as int, n as int, c, r));
                    }
                }
                assert forall|ci: int| 0 <= ci < cells
                    implies (done_line_cell(srv, w_, gw, gh, i as int, n as int, ci)
                        == done_line_cell(srv, w_, gw, gh, i + 1, i + 2, ci)) by {
                    if done_line_cell(srv, w_, gw, gh, i as int, n as int, ci) {
                        let (i0, j0) = choose|i0: int, j0: int|
                            #![trigger srv[i0], srv[j0]]
                            0 <= i0 < j0 < srv.len() && pair_done(i0, j0, i as int, n as int)
                                && crate::canvas::line_in_cell(
                                    srv_col(srv[i0], gw), srv_row(srv[i0], gh),
                                    srv_col(srv[j0], gw), srv_row(srv[j0], gh),
                                    crate::canvas::line_steps(
                                        srv_col(srv[i0], gw), srv_row(srv[i0], gh),
                                        srv_col(srv[j0], gw), srv_row(srv[j0], gh)) + 1,
                                    w_, gw, gh, ci);
                        assert(pair_done(i0, j0, i + 1, i + 2));
                        assert(done_line_cell(srv, w_, gw, gh, i + 1, i + 2, ci));
                    }
                    if done_line_cell(srv, w_, gw, gh, i + 1, i + 2, ci) {
                        let (i0, j0) = choose|i0: int, j0: int|
                            #![trigger srv[i0], srv[j0]]
                            0 <= i0 < j0 < srv.len() && pair_done(i0, j0, i + 1, i + 2)
                                && crate::canvas::line_in_cell(
                                    srv_col(srv[i0], gw), srv_row(srv[i0], gh),
                                    srv_col(srv[j0], gw), srv_row(srv[j0], gh),
                                    crate::canvas::line_steps(
                                        srv_col(srv[i0], gw), srv_row(srv[i0], gh),
                                        srv_col(srv[j0], gw), srv_row(srv[j0], gh)) + 1,
                                    w_, gw, gh, ci);
                        assert(pair_done(i0, j0, i as int, n as int));
                        assert(done_line_cell(srv, w_, gw, gh, i as int, n as int, ci));
                    }
                }
            }
            i = i + 1;
        }
        proof {
            assert forall|c: int, r: int| 0 <= c < gw && 0 <= r < gh
                implies (done_line_dot(srv, gw, gh, n as int, n + 1, c, r)
                    == pair_line_dot(srv, gw, gh, c, r)) by {
            }
            assert forall|ci: int| 0 <= ci < cells
                implies (done_line_cell(srv, w_, gw, gh, n as int, n + 1, ci)
                    == pair_line_cell(srv, w_, gw, gh, ci)) by {
            }
        }
        i = 0;
        while i < n
            invariant
                i <= n,
                n == srv.len(),
                srv == data.servers@,
                cv.wf(),
                cv.width == inner.width,
                cv.height == inner.height,
                cv.bounds == world_bounds(),
                cv.layers.len() == 2,
                cv.layers@[0] == base,
                gw == 2 * inner.width as int,
                gh == 4 * inner.height as int,
                w_ == inner.width as int,
                cells == inner.width as int * inner.height as int,
                forall|ci: int| 0 <= ci < cells ==>
                    #[trigger] cv.top().overlay[ci]
                        == marker_at(srv.take(i as int), w_, gw, gh, ci),
                forall|c: int, r: int| 0 <= c < gw && 0 <= r < gh ==>
                    #[trigger] cv.top().dot_set(w_, c, r)
                        == pair_line_dot(srv, gw, gh, c, r),
                forall|ci: int| 0 <= ci < cells ==>
                    #[trigger] cv.top().colors[ci]
                        == (if pair_line_cell(srv, w_, gw, gh, ci) {
                        Color::Yellow
                    } else {
                        Color::Reset
                    }),
            decreases n - i,
        {
            let s = &data.servers[i];
            let color = match s.status {
                ServerStatus::Up => Color::Green,
                ServerStatus::Fail => Color::Red,
            };
            let ghost prev = cv;
            cv.print(s.lon, s.lat, 'X', color);
            proof {
                assert(srv.take(i + 1).drop_last() =~= srv.take(i as int));
                assert(srv.take(i + 1).last() == srv[i as int]);
                assert(color == status_color(srv[i as int].status));
                assert forall|c: int, r: int| 0 <= c < gw && 0 <= r < gh
                    implies #[trigger] cv.top().dot_set(w_, c, r)
                        == pair_line_dot(srv, gw, gh, c, r) by {
                    assert(prev.top().dot_set(w_, c, r) == pair_line_dot(srv, gw, gh, c, r));
                    assert(cv.top().masks == prev.top().masks);
                }
                assert forall|ci: int| 0 <= ci < cells
                    implies #[trigger] cv.top().colors[ci]
                        == (if pair_line_cell(srv, w_, gw, gh, ci) {
                        Color::Yellow
                    } else {
                        Color::Reset
                    }) by {
                    assert(prev.top().colors[ci] == (if pair_line_cell(srv, w_, gw, gh, ci) {
                        Color::Yellow
                    } else {
                        Color::Reset
                    }));
                    assert(cv.top().colors == prev.top().colors);
                }
            }
            i = i + 1;
        }
        proof {
            assert(srv.take(n as int) =~= srv);
            assert(map_canvas(srv, inner.width, inner.height, cv));
        }
        render_canvas(buf, inner, &cv, Style::plain());
        proof {
            assert(map_pane_with(cv, srv, chunks@[1], *old(buf), *buf));
        }
    } else {
        proof {
            assert(map_pane(srv, chunks@[1], *old(buf), *buf));
        }
    }
    proof {
        assert forall|x: int, y: int|
            old(buf).area.spec_contains(x, y) && chunks@[0].spec_contains(x, y)
                implies #[trigger] buf.cell_at(x, y) == buf_table.cell_at(x, y) by {
        }
        assert(table_pane_with(header@, rows@, data.servers@, chunks@[0], *old(buf), *buf));
    }
}

/// The tab bar and content regions of a frame over `size`.
pub open spec fn ui_bar(size: Rect) -> Rect {
    Rect { x: (size.x + 5) as u16, y: (size.y + 5) as u16, width: (size.width - 10) as u16, height: 3 }
}

pub open spec fn ui_content(size: Rect) -> Rect {
    Rect {
        x: (size.x + 5) as u16,
        y: (size.y + 8) as u16,
        width: (size.width - 10) as u16,
        height: (size.height - 13) as u16,
    }
}

proof fn lemma_table_pane_stable(servers: Seq<ServerRecord>, area: Rect, pre1: Buffer, post1: Buffer, pre2: Buffer, post2: Buffer)
    requires
        table_pane(servers, area, pre1, post1),
        pre2.area == pre1.area,
        forall|x: int, y: int| pre1.area.spec_contains(x, y) && area.spec_contains(x, y) ==>
            #[trigger] pre2.cell_at(x, y) == pre1.cell_at(x, y),
        forall|x: int, y: int| pre1.area.spec_contains(x, y) && area.spec_contains(x, y) ==>
            #[trigger] post2.cell_at(x, y) == post1.cell_at(x, y),
    ensures
        table_pane(servers, area, pre2, post2),
{
    let (header, trows) = choose|header: Seq<Vec<char>>, trows: Seq<TableRow>|
        #[trigger] table_pane_with(header, trows, servers, area, pre1, post1);
    let inner = area.spec_shrink(1);
    assert forall|x: int, y: int| pre2.area.spec_contains(x, y) && area.spec_contains(x, y)
        implies #[trigger] post2.cell_at(x, y) == (if inner.spec_contains(x, y) {
            table_cell(header, trows, seq![15u16, 15u16, 10u16],
                spec_with_fg(style_plain(), Color::Yellow), style_plain(), inner, x, y)
        } else if area.width >= 2 && area.height >= 2 && is_border(area, x, y) {
            border_cell(area, "Server"@, style_plain(), x, y)
        } else {
            pre2.cell_at(x, y)
        }) by {
        assert(pre1.area.spec_contains(x, y) && area.spec_contains(x, y));
    }
    assert(table_pane_with(header, trows, servers, area, pre2, post2));
}

proof fn lemma_map_pane_stable(servers: Seq<ServerRecord>, area: Rect, pre1: Buffer, post1: Buffer, pre2: Buffer, post2: Buffer)
    requires
        area.wf(),
        map_pane(servers, area, pre1, post1),
        pre2.area == pre1.area,
        forall|x: int, y: int| pre1.area.spec_contains(x, y) && area.spec_contains(x, y) ==>
            #[trigger] pre2.cell_at(x, y) == pre1.cell_at(x, y),
        forall|x: int, y: int| pre1.area.spec_contains(x, y) && area.spec_contains(x, y) ==>
            #[trigger] post2.cell_at(x, y) == post1.cell_at(x, y),
    ensures
        map_pane(servers, area, pre2, post2),
{
    let inner = area.spec_shrink(1);
    if inner.width >= 1 && inner.height >= 1 {
        let cv = choose|cv: Canvas| #[trigger] map_pane_with(cv, servers, area, pre1, post1);
        assert forall|x: int, y: int|
            pre2.area.spec_contains(x, y) && inner.spec_contains(x, y)
                implies crate::canvas::canvas_cell_ok(
                    cv.layers@,
                    style_plain(),
                    (y - inner.y) * (inner.width as int) + (x - inner.x),
                    #[trigger] post2.cell_at(x, y),
                ) by {
            assert(area.spec_contains(x, y));
            assert(post2.cell_at(x, y) == post1.cell_at(x, y));
        }
        assert forall|x: int, y: int|
            pre2.area.spec_contains(x, y) && area.spec_contains(x, y)
                && !(inner.width >= 1 && inner.height >= 1 && inner.spec_contains(x, y))
                implies #[trigger] post2.cell_at(x, y)
                    == (if area.width >= 2 && area.height >= 2 && is_border(area, x, y) {
                    border_cell(area, "Location"@, style_plain(), x, y)
                } else {
                    pre2.cell_at(x, y)
                }) by {
            assert(pre1.area.spec_contains(x, y) && area.spec_contains(x, y));
        }
        assert(map_pane_with(cv, servers, area, pre2, post2));
    } else {
        assert forall|x: int, y: int|
            pre2.area.spec_contains(x, y) && area.spec_contains(x, y)
                implies #[trigger] post2.cell_at(x, y)
                    == (if area.width >= 2 && area.height >= 2 && is_border(area, x, y) {
                    border_cell(area, "Location"@, style_plain(), x, y)
                } else {
                    pre2.cell_at(x, y)
                }) by {
            assert(pre1.area.spec_contains(x, y) && area.spec_contains(x, y));
        }
    }
}

proof fn lemma_task_view_stable(tasks: Seq<Task>, logs: Seq<LogEntry>, area: Rect, pre1: Buffer, post1: Buffer, pre2: Buffer, post2: Buffer)
    requires
        area.wf(),
        task_view(tasks, logs, area, pre1, post1),
        pre2.area == pre1.area,
        forall|x: int, y: int| pre1.area.spec_contains(x, y) && area.spec_contains(x, y) ==>
            #[trigger] pre2.cell_at(x, y) == pre1.cell_at(x, y),
        forall|x: int, y: int| pre1.area.spec_contains(x, y) && area.spec_contains(x, y) ==>
            #[trigger] post2.cell_at(x, y) == post1.cell_at(x, y),
    ensures
        task_view(tasks, logs, area, pre2, post2),
{
    lemma_progress_pane_stable(task_chunk0(area), pre1, post1, pre2, post2);
    lemma_lists_pane_stable(tasks, logs, task_chunk1(area), pre1, post1, pre2, post2);
    lemma_text_pane_stable(task_chunk2(area), pre1, post1, pre2, post2);
}

proof fn lemma_server_view_stable(servers: Seq<ServerRecord>, area: Rect, pre1: Buffer, post1: Buffer, pre2: Buffer, post2: Buffer)
    requires
        area.wf(),
        server_view(servers, area, pre1, post1),
        pre2.area == pre1.area,
        forall|x: int, y: int| pre1.area.spec_contains(x, y) && area.spec_contains(x, y) ==>
            #[trigger] pre2.cell_at(x, y) == pre1.cell_at(x, y),
        forall|x: int, y: int| pre1.area.spec_contains(x, y) && area.spec_contains(x, y) ==>
            #[trigger] post2.cell_at(x, y) == post1.cell_at(x, y),
    ensures
        server_view(servers, area, pre2, post2),
{
    assert(area.width as int * 30 / 100 <= area.width && area.width as int * 30 / 100 >= 0)
        by (nonlinear_arith)
        requires area.width >= 0;
    lemma_table_pane_stable(servers, table_chunk(area), pre1, post1, pre2, post2);
    lemma_map_pane_stable(servers, map_chunk(area), pre1, post1, pre2, post2);
}

/// Compose one full frame: the tab bar on top — its titles separated by a
/// divider, the active one highlighted — and below it the view the active
/// tab selects: the task view for the first tab, the server view for the
/// second, wherever the frame is large enough for the margin and the bar.
pub fn ui(buf: &mut Buffer, app: &App, data: &DashboardData)
    requires
        old(buf).wf(),
        app.wf(),
    ensures
        final(buf).wf(),
        final(buf).area == old(buf).area,
        forall|x: int, y: int|
            old(buf).area.spec_contains(x, y)
                && !old(buf).area.spec_shrink(5).spec_contains(x, y) ==>
                #[trigger] final(buf).cell_at(x, y) == old(buf).cell_at(x, y),
        old(buf).area.width >= 12 && old(buf).area.height >= 13 ==> {
            let size = old(buf).area;
            let bar = ui_bar(size);
            let bi = bar.spec_shrink(1);
            &&& (forall|x: int, y: int| size.spec_contains(x, y) && bar.spec_contains(x, y) ==>
                #[trigger] final(buf).cell_at(x, y) == (if bi.spec_contains(x, y) {
                    tabs_cell(app.titles@, app.index as int,
                        spec_with_fg(style_plain(), Color::Green),
                        tab_highlight(), bi, x)
                } else {
                    border_cell(bar, "tuidemo"@, style_plain(), x, y)
                }))
            &&& (app.index == 0 ==> task_view(data.tasks@, data.logs@, ui_content(size),
                    *old(buf), *final(buf)))
            &&& (app.index == 1 ==> server_view(data.servers@, ui_content(size),
                    *old(buf), *final(buf)))
            &&& (app.index >= 2 ==> forall|x: int, y: int|
                size.spec_contains(x, y) && ui_content(size).spec_contains(x, y) ==>
                    #[trigger] final(buf).cell_at(x, y) == old(buf).cell_at(x, y))
        },
{
    let size = buf.area;
    let mut cs: Vec<Constraint> = Vec::new();
    cs.push(Constraint::Length(3));
    cs.push(Constraint::Min(0));
    let chunks = split(size, Direction::Vertical, 5, &cs);
    proof {
        if size.width >= 12 && size.height >= 13 {
            let gcs = cs@;
            let l3 = Constraint::Length(3);
            let m0 = Constraint::Min(0);
            assert(gcs =~= seq![l3, m0]);
            let inner = size.spec_shrink(5);
            let total = crate::layout::axis_len(inner, Direction::Vertical);
            assert(inner.y == size.y + 5 && inner.x == size.x + 5);
            assert(inner.height == size.height - 10 && inner.width == size.width - 10);
            assert(total >= 3);
            assert(gcs.drop_last() =~= seq![l3]);
            assert(seq![l3].drop_last() =~= Seq::<Constraint>::empty());
            assert(crate::layout::sum_base(Seq::<Constraint>::empty()) == 0);
            assert(crate::layout::sum_base(seq![l3]) == 3);
            assert(crate::layout::sum_base(gcs) == 3);
            let rem = crate::layout::rem_after_base(gcs, total);
            assert(crate::layout::sum_demand(Seq::<Constraint>::empty(), rem) == 0);
            assert(crate::layout::sum_demand(seq![l3], rem) == 3);
            assert(crate::layout::sum_demand(gcs, rem) == 3);
            assert(crate::layout::last_flexible(gcs) == 1);
            assert(crate::layout::target_index(gcs) == 1);
            assert(crate::layout::leftover(gcs, total) == total - 3);
            assert(crate::layout::desired(gcs, total, 0) == 3);
            assert(crate::layout::desired(gcs, total, 1) == total - 3);
            assert(chunks@[0] == ui_bar(size));
            assert(chunks@[1] == ui_content(size));
        }
    }
    let bar_title = chars_of("tuidemo");
    render_block(buf, chunks[0], &bar_title, Style::plain());
    let highlight = Style {
        fg: Color::Green,
        bg: Color::Black,
        mods: crate::style::Modifiers {
            bold: true,
            italic: false,
            underlined: false,
            reversed: false,
            crossed_out: false,
            blink: false,
        },
    };
    render_tabs(
        buf,
        chunks[0].shrink(1),
        &app.titles,
        app.index,
        Style::plain().with_fg(Color::Green),
        highlight,
    );
    let ghost buf_bar = *buf;
    if app.index == 0 {
        task(buf, data, chunks[1]);
        proof {
            if size.width >= 12 && size.height >= 13 {
                lemma_task_view_stable(data.tasks@, data.logs@, chunks@[1], buf_bar, *buf,
                    *old(buf), *buf);
            }
        }
    } else if app.index == 1 {
        server(buf, data, chunks[1]);
        proof {
            if size.width >= 12 && size.height >= 13 {
                lemma_server_view_stable(data.servers@, chunks@[1], buf_bar, *buf,
                    *old(buf), *buf);
            }
        }
    }
}
} // verus!
