//! Stateless widgets: each is a pure function of its data, a target
//! rectangle and style parameters, writing styled cells into the frame
//! buffer. Rendering the same inputs twice produces identical output.

use vstd::prelude::*;
use crate::geometry::Rect;
use crate::style::Style;
use crate::buffer::{Buffer, Cell};

verus! {

/// Number of cells a gauge fills: the width scaled by a ratio given in
/// thousandths, clamped to one, rounded down.
pub open spec fn gauge_filled(width: int, ratio: int) -> int {
    let r = if ratio > 1000 { 1000int } else if ratio < 0 { 0int } else { ratio };
    width * r / 1000
}

/// The cell a gauge paints at (x, y) inside `area`: a filled prefix of each
/// row in the style with foreground and background swapped, the rest in the
/// plain style, with the label centered on the middle row (omitted when it
/// does not fit).
pub open spec fn gauge_cell(area: Rect, ratio: int, label: Seq<char>, style: Style, x: int, y: int) -> Cell {
    let o = x - area.x;
    let filled = gauge_filled(area.width as int, ratio);
    let label_row = area.y + area.height as int / 2;
    let has_label = label.len() <= area.width;
    let label_start = (area.width - label.len()) / 2;
    let sym = if y == label_row && has_label && label_start <= o < label_start + label.len() {
        label[o - label_start]
    } else if o < filled {
        '█'
    } else {
        ' '
    };
    let st = if o < filled {
        Style { fg: style.bg, bg: style.fg, mods: style.mods }
    } else {
        style
    };
    Cell { symbol: sym, style: st }
}

fn gauge_cell_at(area: Rect, ratio: u16, label: &Vec<char>, style: Style, x: u16, y: u16) -> (c: Cell)
    requires
        area.wf(),
        area.spec_contains(x as int, y as int),
    ensures
        c == gauge_cell(area, ratio as int, label@, style, x as int, y as int),
{
    let r: u32 = if ratio > 1000 { 1000 } else { ratio as u32 };
    proof {
        assert((area.width as int) * (r as int) <= 0xffff * 1000) by (nonlinear_arith)
            requires area.width <= 0xffff && r <= 1000;
        assert((area.width as int) * (r as int) >= 0) by (nonlinear_arith)
            requires area.width >= 0 && r >= 0;
    }
    let filled: u32 = (area.width as u32) * r / 1000;
    let o: u16 = x - area.x;
    let label_row: u16 = area.y + area.height / 2;
    let llen: usize = label.len();
    let has_label: bool = llen <= area.width as usize;
    let sym: char = if y == label_row && has_label
        && (o as usize) >= (area.width as usize - llen) / 2
        && (o as usize) < (area.width as usize - llen) / 2 + llen {
        label[(o as usize) - (area.width as usize - llen) / 2]
    } else if (o as u32) < filled {
        '█'
    } else {
        ' '
    };
    let st: Style = if (o as u32) < filled {
        Style { fg: style.bg, bg: style.fg, mods: style.mods }
    } else {
        style
    };
    Cell { symbol: sym, style: st }
}

/// Render a gauge showing `ratio` (in thousandths, clamped to the unit
/// range) over `area`, with `label` centered on the middle row. Every cell
/// of `area` that lies in the buffer is painted by the gauge rule; every
/// other cell is untouched.
pub fn render_gauge(buf: &mut Buffer, area: Rect, ratio: u16, label: &Vec<char>, style: Style)
    requires
        old(buf).wf(),
        area.wf(),
    ensures
        final(buf).wf(),
        final(buf).area == old(buf).area,
        forall|x: int, y: int| old(buf).area.spec_contains(x, y) ==>
            #[trigger] final(buf).cell_at(x, y) == (if area.spec_contains(x, y) {
                gauge_cell(area, ratio as int, label@, style, x, y)
            } else {
                old(buf).cell_at(x, y)
            }),
{
    let mut y: u16 = area.y;
    while y < area.y + area.height
        invariant
            old(buf).wf(),
            buf.wf(),
            buf.area == old(buf).area,
            area.wf(),
            area.y <= y <= area.y + area.height,
            forall|x2: int, y2: int| old(buf).area.spec_contains(x2, y2) ==>
                #[trigger] buf.cell_at(x2, y2) == (if area.spec_contains(x2, y2) && y2 < y as int {
                    gauge_cell(area, ratio as int, label@, style, x2, y2)
                } else {
                    old(buf).cell_at(x2, y2)
                }),
        decreases area.y + area.height - y,
    {
        let mut x: u16 = area.x;
        while x < area.x + area.width
            invariant
                old(buf).wf(),
                buf.wf(),
                buf.area == old(buf).area,
                area.wf(),
                area.y <= y < area.y + area.height,
                area.x <= x <= area.x + area.width,
                forall|x2: int, y2: int| old(buf).area.spec_contains(x2, y2) ==>
                    #[trigger] buf.cell_at(x2, y2) == (if area.spec_contains(x2, y2)
                        && (y2 < y as int || (y2 == y as int && x2 < x as int)) {
                        gauge_cell(area, ratio as int, label@, style, x2, y2)
                    } else {
                        old(buf).cell_at(x2, y2)
                    }),
            decreases area.x + area.width - x,
        {
            let c = gauge_cell_at(area, ratio, label, style, x, y);
            buf.set(x, y, c);
            x = x + 1;
        }
        y = y + 1;
    }
}

/// Whether (x, y) lies on the one-cell border frame of `area`.
pub open spec fn is_border(area: Rect, x: int, y: int) -> bool {
    area.spec_contains(x, y) && (x == area.x || x == area.x + area.width - 1
        || y == area.y || y == area.y + area.height - 1)
}

/// The border cell at (x, y): corners, lines, and the title laid over the
/// top line starting one cell in (truncated at the right corner).
pub open spec fn border_cell(area: Rect, title: Seq<char>, style: Style, x: int, y: int) -> Cell {
    let l = area.x as int;
    let t = area.y as int;
    let rgt = area.x + area.width - 1;
    let btm = area.y + area.height - 1;
    let sym = if y == t {
        if x == l {
            '┌'
        } else if x == rgt {
            '┐'
        } else if x - l - 1 < title.len() {
            title[x - l - 1]
        } else {
            '─'
        }
    } else if y == btm {
        if x == l {
            '└'
        } else if x == rgt {
            '┘'
        } else {
            '─'
        }
    } else {
        '│'
    };
    Cell { symbol: sym, style }
}

fn border_cell_at(area: Rect, title: &Vec<char>, style: Style, x: u16, y: u16) -> (c: Cell)
    requires
        area.wf(),
        area.width >= 2,
        area.height >= 2,
        is_border(area, x as int, y as int),
    ensures
        c == border_cell(area, title@, style, x as int, y as int),
{
    let l = area.x;
    let t = area.y;
    let rgt = area.x + area.width - 1;
    let btm = area.y + area.height - 1;
    let sym: char = if y == t {
        if x == l {
            '┌'
        } else if x == rgt {
            '┐'
        } else if ((x - l - 1) as usize) < title.len() {
            title[(x - l - 1) as usize]
        } else {
            '─'
        }
    } else if y == btm {
        if x == l {
            '└'
        } else if x == rgt {
            '┘'
        } else {
            '─'
        }
    } else {
        '│'
    };
    Cell { symbol: sym, style }
}

/// Draw a one-cell border around `area` with `title` over the top edge.
/// Interior cells are untouched; an area thinner than two cells in either
/// direction is left entirely untouched rather than failing.
pub fn render_block(buf: &mut Buffer, area: Rect, title: &Vec<char>, style: Style)
    requires
        old(buf).wf(),
        area.wf(),
    ensures
        final(buf).wf(),
        final(buf).area == old(buf).area,
        forall|x: int, y: int| old(buf).area.spec_contains(x, y) ==>
            #[trigger] final(buf).cell_at(x, y)
                == (if area.width >= 2 && area.height >= 2 && is_border(area, x, y) {
                border_cell(area, title@, style, x, y)
            } else {
                old(buf).cell_at(x, y)
            }),
{
    if area.width < 2 || area.height < 2 {
        return;
    }
    let mut y: u16 = area.y;
    while y < area.y + area.height
        invariant
            old(buf).wf(),
            buf.wf(),
            buf.area == old(buf).area,
            area.wf(),
            area.width >= 2,
            area.height >= 2,
            area.y <= y <= area.y + area.height,
            forall|x2: int, y2: int| old(buf).area.spec_contains(x2, y2) ==>
                #[trigger] buf.cell_at(x2, y2)
                    == (if is_border(area, x2, y2) && y2 < y as int {
                    border_cell(area, title@, style, x2, y2)
                } else {
                    old(buf).cell_at(x2, y2)
                }),
        decreases area.y + area.height - y,
    {
        let mut x: u16 = area.x;
        while x < area.x + area.width
            invariant
                old(buf).wf(),
                buf.wf(),
                buf.area == old(buf).area,
                area.wf(),
                area.width >= 2,
                area.height >= 2,
                area.y <= y < area.y + area.height,
                area.x <= x <= area.x + area.width,
                forall|x2: int, y2: int| old(buf).area.spec_contains(x2, y2) ==>
                    #[trigger] buf.cell_at(x2, y2)
                        == (if is_border(area, x2, y2)
                            && (y2 < y as int || (y2 == y as int && x2 < x as int)) {
                        border_cell(area, title@, style, x2, y2)
                    } else {
                        old(buf).cell_at(x2, y2)
                    }),
            decreases area.x + area.width - x,
        {
            if x == area.x || x == area.x + area.width - 1
                || y == area.y || y == area.y + area.height - 1 {
                let c = border_cell_at(area, title, style, x, y);
                buf.set(x, y, c);
            }
            x = x + 1;
        }
        y = y + 1;
    }
}

/// The character and active flag at offset `o` of the tab line: the titles
/// in order, a divider between each pair, the active title flagged.
pub open spec fn tabs_char(titles: Seq<Vec<char>>, active: int, o: int) -> (char, bool)
    decreases titles.len(),
{
    if titles.len() == 0 {
        (' ', false)
    } else if o < titles[0]@.len() {
        (titles[0]@[o], active == 0)
    } else if o == titles[0]@.len() {
        (if titles.len() > 1 { '│' } else { ' ' }, false)
    } else {
        tabs_char(titles.drop_first(), active - 1, o - titles[0]@.len() - 1)
    }
}

fn tabs_char_at(titles: &Vec<Vec<char>>, active: usize, o: u16) -> (r: (char, bool))
    ensures
        r == tabs_char(titles@, active as int, o as int),
{
    let mut j: usize = 0;
    let mut rem: usize = o as usize;
    proof {
        assert(titles@.skip(0) =~= titles@);
    }
    while j < titles.len()
        invariant
            j <= titles.len(),
            tabs_char(titles@, active as int, o as int)
                == tabs_char(titles@.skip(j as int), active - j, rem as int),
        decreases titles.len() - j,
    {
        proof {
            assert(titles@.skip(j as int).drop_first() =~= titles@.skip(j + 1));
            assert(titles@.skip(j as int)[0] == titles@[j as int]);
        }
        let tl: usize = titles[j].len();
        if rem < tl {
            return (titles[j][rem], j == active);
        }
        if rem == tl {
            if j + 1 < titles.len() {
                return ('│', false);
            }
            return (' ', false);
        }
        rem = rem - tl - 1;
        j = j + 1;
    }
    proof {
        assert(titles@.skip(titles@.len() as int).len() == 0);
    }
    (' ', false)
}

/// The cell the tab bar paints at offset `x` of its single row.
pub open spec fn tabs_cell(titles: Seq<Vec<char>>, active: int, style: Style, hstyle: Style, area: Rect, x: int) -> Cell {
    let pair = tabs_char(titles, active, x - area.x);
    Cell { symbol: pair.0, style: if pair.1 { hstyle } else { style } }
}

/// Render the tab titles inline on the top row of `area`, the active title
/// in the highlight style, titles separated by a divider; titles that
/// overflow the width are truncated, never an error.
pub fn render_tabs(buf: &mut Buffer, area: Rect, titles: &Vec<Vec<char>>, active: usize, style: Style, hstyle: Style)
    requires
        old(buf).wf(),
        area.wf(),
    ensures
        final(buf).wf(),
        final(buf).area == old(buf).area,
        forall|x: int, y: int| old(buf).area.spec_contains(x, y) ==>
            #[trigger] final(buf).cell_at(x, y)
                == (if area.spec_contains(x, y) && y == area.y && area.height > 0 {
                tabs_cell(titles@, active as int, style, hstyle, area, x)
            } else {
                old(buf).cell_at(x, y)
            }),
{
    if area.height == 0 {
        return;
    }
    let y: u16 = area.y;
    let mut x: u16 = area.x;
    while x < area.x + area.width
        invariant
            old(buf).wf(),
            buf.wf(),
            buf.area == old(buf).area,
            area.wf(),
            area.height > 0,
            y == area.y,
            area.x <= x <= area.x + area.width,
            forall|x2: int, y2: int| old(buf).area.spec_contains(x2, y2) ==>
                #[trigger] buf.cell_at(x2, y2)
                    == (if area.spec_contains(x2, y2) && y2 == area.y && x2 < x as int {
                    tabs_cell(titles@, active as int, style, hstyle, area, x2)
                } else {
                    old(buf).cell_at(x2, y2)
                }),
        decreases area.x + area.width - x,
    {
        let pair = tabs_char_at(titles, active, x - area.x);
        let c = Cell { symbol: pair.0, style: if pair.1 { hstyle } else { style } };
        buf.set(x, y, c);
        x = x + 1;
    }
}

/// The cell a list paints at (x, y): row `r` shows item `r` prefixed by a
/// selection marker column when a selection exists, the selected row in the
/// highlight style; rows past the items are blank.
pub open spec fn list_cell(items: Seq<Vec<char>>, selected: Option<usize>, style: Style, hstyle: Style, area: Rect, x: int, y: int) -> Cell {
    let r = y - area.y;
    let o = x - area.x;
    if 0 <= r < items.len() {
        let line = match selected {
            Option::None => items[r]@,
            Option::Some(s) => (if s == r { seq!['>', ' '] } else { seq![' ', ' '] }) + items[r]@,
        };
        let sym = if 0 <= o < line.len() { line[o] } else { ' ' };
        let st = match selected {
            Option::Some(s) => if s == r { hstyle } else { style },
            Option::None => style,
        };
        Cell { symbol: sym, style: st }
    } else {
        Cell { symbol: ' ', style }
    }
}

fn list_cell_at(items: &Vec<Vec<char>>, selected: &Option<usize>, style: Style, hstyle: Style, area: Rect, x: u16, y: u16) -> (c: Cell)
    requires
        area.wf(),
        area.spec_contains(x as int, y as int),
    ensures
        c == list_cell(items@, *selected, style, hstyle, area, x as int, y as int),
{
    let r: usize = (y - area.y) as usize;
    let o: usize = (x - area.x) as usize;
    if r < items.len() {
        let item = &items[r];
        match selected {
            None => {
                let sym: char = if o < item.len() { item[o] } else { ' ' };
                Cell { symbol: sym, style }
            }
            Some(s) => {
                let sel: bool = *s == r;
                let sym: char = if o == 0 {
                    if sel { '>' } else { ' ' }
                } else if o == 1 {
                    ' '
                } else if o - 2 < item.len() {
                    item[o - 2]
                } else {
                    ' '
                };
                Cell { symbol: sym, style: if sel { hstyle } else { style } }
            }
        }
    } else {
        Cell { symbol: ' ', style }
    }
}

/// Render `items` top to bottom over `area`, marking and highlighting the
/// selected item if one is selected. Every cell of `area` inside the buffer
/// is painted; rows past the last item are blank.
pub fn render_list(buf: &mut Buffer, area: Rect, items: &Vec<Vec<char>>, selected: &Option<usize>, style: Style, hstyle: Style)
    requires
        old(buf).wf(),
        area.wf(),
    ensures
        final(buf).wf(),
        final(buf).area == old(buf).area,
        forall|x: int, y: int| old(buf).area.spec_contains(x, y) ==>
            #[trigger] final(buf).cell_at(x, y) == (if area.spec_contains(x, y) {
                list_cell(items@, *selected, style, hstyle, area, x, y)
            } else {
                old(buf).cell_at(x, y)
            }),
{
    let mut y: u16 = area.y;
    while y < area.y + area.height
        invariant
            old(buf).wf(),
            buf.wf(),
            buf.area == old(buf).area,
            area.wf(),
            area.y <= y <= area.y + area.height,
            forall|x2: int, y2: int| old(buf).area.spec_contains(x2, y2) ==>
                #[trigger] buf.cell_at(x2, y2)
                    == (if area.spec_contains(x2, y2) && y2 < y as int {
                    list_cell(items@, *selected, style, hstyle, area, x2, y2)
                } else {
                    old(buf).cell_at(x2, y2)
                }),
        decreases area.y + area.height - y,
    {
        let mut x: u16 = area.x;
        while x < area.x + area.width
            invariant
                old(buf).wf(),
                buf.wf(),
                buf.area == old(buf).area,
                area.wf(),
                area.y <= y < area.y + area.height,
                area.x <= x <= area.x + area.width,
                forall|x2: int, y2: int| old(buf).area.spec_contains(x2, y2) ==>
                    #[trigger] buf.cell_at(x2, y2)
                        == (if area.spec_contains(x2, y2)
                            && (y2 < y as int || (y2 == y as int && x2 < x as int)) {
                        list_cell(items@, *selected, style, hstyle, area, x2, y2)
                    } else {
                        old(buf).cell_at(x2, y2)
                    }),
            decreases area.x + area.width - x,
        {
            let c = list_cell_at(items, selected, style, hstyle, area, x, y);
            buf.set(x, y, c);
            x = x + 1;
        }
        y = y + 1;
    }
}

/// The cell a styled list paints at (x, y): row `r` shows the text of item
/// `r` in that item's own style; rows past the items are blank.
pub open spec fn styled_list_cell(items: Seq<(Vec<char>, Style)>, base: Style, area: Rect, x: int, y: int) -> Cell {
    let r = y - area.y;
    let o = x - area.x;
    if 0 <= r < items.len() {
        let sym = if 0 <= o < items[r].0@.len() { items[r].0@[o] } else { ' ' };
        Cell { symbol: sym, style: items[r].1 }
    } else {
        Cell { symbol: ' ', style: base }
    }
}

/// Render rows of independently styled text top to bottom over `area`: each
/// row whole in its item's style, rows past the last item blank. Every cell
/// of `area` inside the buffer is painted.
pub fn render_styled_list(buf: &mut Buffer, area: Rect, items: &Vec<(Vec<char>, Style)>, base: Style)
    requires
        old(buf).wf(),
        area.wf(),
    ensures
        final(buf).wf(),
        final(buf).area == old(buf).area,
        forall|x: int, y: int| old(buf).area.spec_contains(x, y) ==>
            #[trigger] final(buf).cell_at(x, y) == (if area.spec_contains(x, y) {
                styled_list_cell(items@, base, area, x, y)
            } else {
                old(buf).cell_at(x, y)
            }),
{
    let mut y: u16 = area.y;
    while y < area.y + area.height
        invariant
            old(buf).wf(),
            buf.wf(),
            buf.area == old(buf).area,
            area.wf(),
            area.y <= y <= area.y + area.height,
            forall|x2: int, y2: int| old(buf).area.spec_contains(x2, y2) ==>
                #[trigger] buf.cell_at(x2, y2)
                    == (if area.spec_contains(x2, y2) && y2 < y as int {
                    styled_list_cell(items@, base, area, x2, y2)
                } else {
                    old(buf).cell_at(x2, y2)
                }),
        decreases area.y + area.height - y,
    {
        let mut x: u16 = area.x;
        while x < area.x + area.width
            invariant
                old(buf).wf(),
                buf.wf(),
                buf.area == old(buf).area,
                area.wf(),
                area.y <= y < area.y + area.height,
                area.x <= x <= area.x + area.width,
                forall|x2: int, y2: int| old(buf).area.spec_contains(x2, y2) ==>
                    #[trigger] buf.cell_at(x2, y2)
                        == (if area.spec_contains(x2, y2)
                            && (y2 < y as int || (y2 == y as int && x2 < x as int)) {
                        styled_list_cell(items@, base, area, x2, y2)
                    } else {
                        old(buf).cell_at(x2, y2)
                    }),
            decreases area.x + area.width - x,
        {
            let r: usize = (y - area.y) as usize;
            let o: usize = (x - area.x) as usize;
            let c: Cell = if r < items.len() {
                let item = &items[r];
                let sym: char = if o < item.0.len() { item.0[o] } else { ' ' };
                Cell { symbol: sym, style: item.1 }
            } else {
                Cell { symbol: ' ', style: base }
            };
            buf.set(x, y, c);
            x = x + 1;
        }
        y = y + 1;
    }
}

/// One data row of a table: its column texts and the style that flags it.
pub struct TableRow {
    pub cells: Vec<Vec<char>>,
    pub style: Style,
}

/// The character at offset `o` of a table row laid out in fixed-width
/// columns separated by one blank cell; texts are clipped to their column.
pub open spec fn table_row_char(widths: Seq<u16>, cells: Seq<Vec<char>>, o: int) -> char
    recommends
        widths.len() == cells.len(),
    decreases widths.len(),
{
    if widths.len() == 0 {
        ' '
    } else if o < widths[0] {
        if 0 <= o < cells[0]@.len() {
            cells[0]@[o]
        } else {
            ' '
        }
    } else if o == widths[0] {
        ' '
    } else {
        table_row_char(widths.drop_first(), cells.drop_first(), o - widths[0] - 1)
    }
}

fn table_row_char_at(widths: &Vec<u16>, cells: &Vec<Vec<char>>, o: u16) -> (c: char)
    requires
        widths@.len() == cells@.len(),
    ensures
        c == table_row_char(widths@, cells@, o as int),
{
    let mut j: usize = 0;
    let mut rem: usize = o as usize;
    proof {
        assert(widths@.skip(0) =~= widths@);
        assert(cells@.skip(0) =~= cells@);
    }
    while j < widths.len()
        invariant
            j <= widths.len(),
            widths@.len() == cells@.len(),
            table_row_char(widths@, cells@, o as int)
                == table_row_char(widths@.skip(j as int), cells@.skip(j as int), rem as int),
        decreases widths.len() - j,
    {
        proof {
            assert(widths@.skip(j as int).drop_first() =~= widths@.skip(j + 1));
            assert(cells@.skip(j as int).drop_first() =~= cells@.skip(j + 1));
            assert(widths@.skip(j as int)[0] == widths@[j as int]);
            assert(cells@.skip(j as int)[0] == cells@[j as int]);
        }
        let w: usize = widths[j] as usize;
        if rem < w {
            let text = &cells[j];
            if rem < text.len() {
                return text[rem];
            }
            return ' ';
        }
        if rem == w {
            return ' ';
        }
        rem = rem - w - 1;
        j = j + 1;
    }
    ' '
}

/// The cell a table paints at (x, y): the header on the first row, one blank
/// margin row, then one row per record carrying that record's own style;
/// rows past the records are blank.
pub open spec fn table_cell(header: Seq<Vec<char>>, rows: Seq<TableRow>, widths: Seq<u16>, hstyle: Style, style: Style, area: Rect, x: int, y: int) -> Cell {
    let o = x - area.x;
    let r = y - area.y;
    if r == 0 {
        Cell { symbol: table_row_char(widths, header, o), style: hstyle }
    } else if 2 <= r < rows.len() + 2 {
        Cell {
            symbol: table_row_char(widths, rows[r - 2].cells@, o),
            style: rows[r - 2].style,
        }
    } else {
        Cell { symbol: ' ', style }
    }
}

fn table_cell_at(header: &Vec<Vec<char>>, rows: &Vec<TableRow>, widths: &Vec<u16>, hstyle: Style, style: Style, area: Rect, x: u16, y: u16) -> (c: Cell)
    requires
        area.wf(),
        area.spec_contains(x as int, y as int),
        widths@.len() == header@.len(),
        forall|k: int| 0 <= k < rows@.len() ==> (#[trigger] rows@[k].cells)@.len() == widths@.len(),
    ensures
        c == table_cell(header@, rows@, widths@, hstyle, style, area, x as int, y as int),
{
    let r: usize = (y - area.y) as usize;
    let o: u16 = x - area.x;
    if r == 0 {
        Cell { symbol: table_row_char_at(widths, header, o), style: hstyle }
    } else if r >= 2 && r - 2 < rows.len() {
        let row = &rows[r - 2];
        Cell { symbol: table_row_char_at(widths, &row.cells, o), style: row.style }
    } else {
        Cell { symbol: ' ', style }
    }
}

/// Render a table over `area`: a header row in the header style, a blank
/// margin row, then the records in order, each whole row in its record's
/// style, columns at fixed widths separated by one blank cell. Every cell of
/// `area` inside the buffer is painted.
pub fn render_table(buf: &mut Buffer, area: Rect, header: &Vec<Vec<char>>, rows: &Vec<TableRow>, widths: &Vec<u16>, hstyle: Style, style: Style)
    requires
        old(buf).wf(),
        area.wf(),
        widths@.len() == header@.len(),
        forall|k: int| 0 <= k < rows@.len() ==> (#[trigger] rows@[k].cells)@.len() == widths@.len(),
    ensures
        final(buf).wf(),
        final(buf).area == old(buf).area,
        forall|x: int, y: int| old(buf).area.spec_contains(x, y) ==>
            #[trigger] final(buf).cell_at(x, y) == (if area.spec_contains(x, y) {
                table_cell(header@, rows@, widths@, hstyle, style, area, x, y)
            } else {
                old(buf).cell_at(x, y)
            }),
{
    let mut y: u16 = area.y;
    while y < area.y + area.height
        invariant
            old(buf).wf(),
            buf.wf(),
            buf.area == old(buf).area,
            area.wf(),
            widths@.len() == header@.len(),
            forall|k: int| 0 <= k < rows@.len() ==> (#[trigger] rows@[k].cells)@.len() == widths@.len(),
            area.y <= y <= area.y + area.height,
            forall|x2: int, y2: int| old(buf).area.spec_contains(x2, y2) ==>
                #[trigger] buf.cell_at(x2, y2)
                    == (if area.spec_contains(x2, y2) && y2 < y as int {
                    table_cell(header@, rows@, widths@, hstyle, style, area, x2, y2)
                } else {
                    old(buf).cell_at(x2, y2)
                }),
        decreases area.y + area.height - y,
    {
        let mut x: u16 = area.x;
        while x < area.x + area.width
            invariant
                old(buf).wf(),
                buf.wf(),
                buf.area == old(buf).area,
                area.wf(),
                widths@.len() == header@.len(),
                forall|k: int| 0 <= k < rows@.len() ==> (#[trigger] rows@[k].cells)@.len() == widths@.len(),
                area.y <= y < area.y + area.height,
                area.x <= x <= area.x + area.width,
                forall|x2: int, y2: int| old(buf).area.spec_contains(x2, y2) ==>
                    #[trigger] buf.cell_at(x2, y2)
                        == (if area.spec_contains(x2, y2)
                            && (y2 < y as int || (y2 == y as int && x2 < x as int)) {
                        table_cell(header@, rows@, widths@, hstyle, style, area, x2, y2)
                    } else {
                        old(buf).cell_at(x2, y2)
                    }),
            decreases area.x + area.width - x,
        {
            let c = table_cell_at(header, rows, widths, hstyle, style, area, x, y);
            buf.set(x, y, c);
            x = x + 1;
        }
        y = y + 1;
    }
}

} // verus!
