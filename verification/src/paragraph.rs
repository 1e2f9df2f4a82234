//! The paragraph widget: styled, mixed-style text, word-wrapped to the
//! target width, clipped to the target height.

use vstd::prelude::*;
use crate::geometry::Rect;
use crate::style::Style;
use crate::buffer::{Buffer, Cell};

verus! {

/// One run of text in a single style.
pub struct Span {
    pub content: Vec<char>,
    pub style: Style,
}

/// A source line of text flattened to one styled character per position.
pub open spec fn flatten_spans(spans: Seq<Span>) -> Seq<(char, Style)>
    decreases spans.len(),
{
    if spans.len() == 0 {
        seq![]
    } else {
        spans[0].content@.map_values(|c: char| (c, spans[0].style))
            + flatten_spans(spans.drop_first())
    }
}

/// Length of the leading run of non-space characters.
pub open spec fn first_word_len(s: Seq<(char, Style)>) -> nat
    decreases s.len(),
{
    if s.len() == 0 {
        0
    } else if s[0].0 == ' ' {
        0
    } else {
        1 + first_word_len(s.drop_first())
    }
}

proof fn lemma_first_word_len_le(s: Seq<(char, Style)>)
    ensures
        first_word_len(s) <= s.len(),
    decreases s.len(),
{
    if s.len() > 0 && s[0].0 != ' ' {
        lemma_first_word_len_le(s.drop_first());
    }
}

/// The maximal runs of non-space characters, in order: the words of a line.
pub open spec fn words_of(s: Seq<(char, Style)>) -> Seq<Seq<(char, Style)>>
    decreases s.len(),
    when s.len() >= 0
    via words_of_decreases
{
    if s.len() == 0 {
        seq![]
    } else if s[0].0 == ' ' {
        words_of(s.drop_first())
    } else {
        seq![s.take(first_word_len(s) as int)] + words_of(s.skip(first_word_len(s) as int))
    }
}

#[via_fn]
proof fn words_of_decreases(s: Seq<(char, Style)>) {
    if s.len() > 0 && s[0].0 != ' ' {
        lemma_first_word_len_le(s);
    }
}

/// Greedy word wrap: fill each row with words separated by single spaces as
/// long as the row stays within `width`; a word longer than `width` stands
/// alone on its own row.
pub open spec fn pack_words(words: Seq<Seq<(char, Style)>>, width: int, cur: Seq<(char, Style)>, sp: Style) -> Seq<Seq<(char, Style)>>
    decreases words.len(), cur.len(),
{
    if words.len() == 0 {
        if cur.len() == 0 {
            seq![]
        } else {
            seq![cur]
        }
    } else {
        let w = words[0];
        if cur.len() == 0 {
            if w.len() <= width {
                pack_words(words.drop_first(), width, w, sp)
            } else {
                seq![w] + pack_words(words.drop_first(), width, seq![], sp)
            }
        } else if cur.len() + 1 + w.len() <= width {
            pack_words(words.drop_first(), width, cur + seq![(' ', sp)] + w, sp)
        } else {
            seq![cur] + pack_words(words, width, seq![], sp)
        }
    }
}

/// The display rows of one source line: its words wrapped; an empty line
/// still occupies one blank row.
pub open spec fn line_rows(line: Seq<Span>, width: int, sp: Style) -> Seq<Seq<(char, Style)>> {
    let packed = pack_words(words_of(flatten_spans(line)), width, seq![], sp);
    if packed.len() == 0 {
        seq![seq![]]
    } else {
        packed
    }
}

/// The display rows of the whole text: each source line wrapped, in order.
pub open spec fn paragraph_rows(lines: Seq<Vec<Span>>, width: int, sp: Style) -> Seq<Seq<(char, Style)>>
    decreases lines.len(),
{
    if lines.len() == 0 {
        seq![]
    } else {
        line_rows(lines[0]@, width, sp) + paragraph_rows(lines.drop_first(), width, sp)
    }
}

/// The view of a vector of rows.
pub open spec fn rows_view(rows: Seq<Vec<(char, Style)>>) -> Seq<Seq<(char, Style)>> {
    rows.map_values(|v: Vec<(char, Style)>| v@)
}

fn flatten_line(line: &Vec<Span>) -> (out: Vec<(char, Style)>)
    ensures
        out@ == flatten_spans(line@),
{
    let mut out: Vec<(char, Style)> = Vec::new();
    let mut j: usize = 0;
    proof {
        assert(line@.skip(0) =~= line@);
        assert(flatten_spans(line@) =~= out@ + flatten_spans(line@.skip(0)));
    }
    while j < line.len()
        invariant
            j <= line@.len(),
            flatten_spans(line@) =~= out@ + flatten_spans(line@.skip(j as int)),
        decreases line@.len() - j,
    {
        proof {
            assert(line@.skip(j as int).drop_first() =~= line@.skip(j + 1));
            assert(line@.skip(j as int)[0] == line@[j as int]);
        }
        let ghost out0 = out@;
        let span = &line[j];
        let mut k: usize = 0;
        while k < span.content.len()
            invariant
                k <= span.content@.len(),
                span == &line[j as int],
                j < line@.len(),
                out@ =~= out0 + span.content@.take(k as int).map_values(
                    |c: char| (c, span.style),
                ),
            decreases span.content@.len() - k,
        {
            let ch = span.content[k];
            out.push((ch, span.style));
            proof {
                assert(span.content@.take(k + 1).map_values(|c: char| (c, span.style))
                    =~= span.content@.take(k as int).map_values(|c: char| (c, span.style))
                        .push((span.content@[k as int], span.style)));
            }
            k = k + 1;
        }
        proof {
            assert(span.content@.take(span.content@.len() as int) =~= span.content@);
            assert(flatten_spans(line@.skip(j as int))
                == line@[j as int].content@.map_values(|c: char| (c, line@[j as int].style))
                    + flatten_spans(line@.skip(j + 1)));
            assert(flatten_spans(line@) =~= out@ + flatten_spans(line@.skip(j + 1)));
        }
        j = j + 1;
    }
    proof {
        assert(line@.skip(line@.len() as int).len() == 0);
        assert(flatten_spans(line@) =~= out@);
    }
    out
}

fn split_words(chars: &Vec<(char, Style)>) -> (out: Vec<Vec<(char, Style)>>)
    ensures
        rows_view(out@) == words_of(chars@),
{
    let n: usize = chars.len();
    let mut out: Vec<Vec<(char, Style)>> = Vec::new();
    let mut i: usize = 0;
    proof {
        assert(chars@.skip(0) =~= chars@);
        assert(words_of(chars@) =~= rows_view(out@) + words_of(chars@.skip(0)));
    }
    while i < n
        invariant
            i <= n,
            n == chars@.len(),
            words_of(chars@) =~= rows_view(out@) + words_of(chars@.skip(i as int)),
        decreases n - i,
    {
        proof {
            assert(chars@.skip(i as int).drop_first() =~= chars@.skip(i + 1));
            assert(chars@.skip(i as int)[0] == chars@[i as int]);
        }
        if chars[i].0 == ' ' {
            i = i + 1;
        } else {
            let mut j: usize = i;
            proof {
                assert(chars@.skip(i as int).skip(0) =~= chars@.skip(i as int));
            }
            while j < n && chars[j].0 != ' '
                invariant
                    i <= j <= n,
                    n == chars@.len(),
                    first_word_len(chars@.skip(i as int))
                        == (j - i) + first_word_len(chars@.skip(j as int)),
                    forall|k: int| i <= k < j ==> (#[trigger] chars@[k]).0 != ' ',
                decreases n - j,
            {
                proof {
                    assert(chars@.skip(j as int).drop_first() =~= chars@.skip(j + 1));
                    assert(chars@.skip(j as int)[0] == chars@[j as int]);
                }
                j = j + 1;
            }
            proof {
                if j < n {
                    assert(chars@.skip(j as int)[0] == chars@[j as int]);
                }
                assert(first_word_len(chars@.skip(j as int)) == 0);
                assert(first_word_len(chars@.skip(i as int)) == j - i);
            }
            let mut word: Vec<(char, Style)> = Vec::new();
            let mut k: usize = i;
            while k < j
                invariant
                    i <= k <= j <= n,
                    n == chars@.len(),
                    word@ =~= chars@.subrange(i as int, k as int),
                decreases j - k,
            {
                word.push(chars[k]);
                proof {
                    assert(chars@.subrange(i as int, k + 1)
                        =~= chars@.subrange(i as int, k as int).push(chars@[k as int]));
                }
                k = k + 1;
            }
            proof {
                assert(chars@.skip(i as int).take((j - i) as int)
                    =~= chars@.subrange(i as int, j as int));
                assert(chars@.skip(i as int).skip((j - i) as int) =~= chars@.skip(j as int));
                assert(rows_view(out@.push(word))
                    =~= rows_view(out@).push(word@));
            }
            out.push(word);
            i = j;
        }
    }
    proof {
        assert(chars@.skip(n as int).len() == 0);
        assert(words_of(chars@) =~= rows_view(out@));
    }
    out
}

fn copy_row(v: &Vec<(char, Style)>) -> (out: Vec<(char, Style)>)
    ensures
        out@ == v@,
{
    let mut out: Vec<(char, Style)> = Vec::new();
    let mut k: usize = 0;
    while k < v.len()
        invariant
            k <= v@.len(),
            out@ =~= v@.take(k as int),
        decreases v@.len() - k,
    {
        out.push(v[k]);
        proof {
            assert(v@.take(k + 1) =~= v@.take(k as int).push(v@[k as int]));
        }
        k = k + 1;
    }
    proof {
        assert(v@.take(v@.len() as int) =~= v@);
    }
    out
}

fn pack_rows(words: &Vec<Vec<(char, Style)>>, width: u16, sp: Style) -> (out: Vec<Vec<(char, Style)>>)
    ensures
        rows_view(out@) == pack_words(rows_view(words@), width as int, seq![], sp),
{
    let n: usize = words.len();
    let mut out: Vec<Vec<(char, Style)>> = Vec::new();
    let mut cur: Vec<(char, Style)> = Vec::new();
    let mut i: usize = 0;
    proof {
        assert(rows_view(words@).skip(0) =~= rows_view(words@));
        assert(pack_words(rows_view(words@), width as int, seq![], sp)
            =~= rows_view(out@)
                + pack_words(rows_view(words@).skip(0), width as int, cur@, sp));
    }
    while i < n
        invariant
            i <= n,
            n == words@.len(),
            cur@.len() <= width,
            pack_words(rows_view(words@), width as int, seq![], sp)
                =~= rows_view(out@)
                    + pack_words(rows_view(words@).skip(i as int), width as int, cur@, sp),
        decreases n - i, cur@.len(),
    {
        proof {
            assert(rows_view(words@).skip(i as int).drop_first()
                =~= rows_view(words@).skip(i + 1));
            assert(rows_view(words@).skip(i as int)[0] == words@[i as int]@);
        }
        let ghost gout = rows_view(out@);
        let ghost gcur = cur@;
        let ghost gskip = rows_view(words@).skip(i as int);
        let w = &words[i];
        if cur.len() == 0 {
            if w.len() <= width as usize {
                cur = copy_row(w);
                proof {
                    assert(pack_words(gskip, width as int, gcur, sp)
                        == pack_words(rows_view(words@).skip(i + 1), width as int, cur@, sp));
                }
            } else {
                let copy = copy_row(w);
                proof {
                    assert(rows_view(out@.push(copy)) =~= rows_view(out@).push(copy@));
                    assert(pack_words(gskip, width as int, gcur, sp)
                        =~= seq![copy@] + pack_words(
                            rows_view(words@).skip(i + 1), width as int, seq![], sp));
                }
                out.push(copy);
                proof {
                    assert(gout + pack_words(gskip, width as int, gcur, sp)
                        =~= rows_view(out@) + pack_words(
                            rows_view(words@).skip(i + 1), width as int, cur@, sp));
                }
            }
            i = i + 1;
        } else if w.len() <= width as usize && cur.len() + 1 + w.len() <= width as usize {
            let ghost prev = cur@;
            cur.push((' ', sp));
            let mut k: usize = 0;
            let ghost cur0 = cur@;
            while k < w.len()
                invariant
                    k <= w@.len(),
                    w == &words@[i as int],
                    i < n,
                    n == words@.len(),
                    cur@ =~= cur0 + w@.take(k as int),
                decreases w@.len() - k,
            {
                cur.push(w[k]);
                proof {
                    assert(w@.take(k + 1) =~= w@.take(k as int).push(w@[k as int]));
                }
                k = k + 1;
            }
            proof {
                assert(w@.take(w@.len() as int) =~= w@);
                assert(cur@ =~= prev + seq![(' ', sp)] + words@[i as int]@);
                assert(pack_words(gskip, width as int, gcur, sp)
                    == pack_words(rows_view(words@).skip(i + 1), width as int, cur@, sp));
            }
            i = i + 1;
        } else {
            proof {
                assert(rows_view(out@.push(cur)) =~= rows_view(out@).push(cur@));
                assert(pack_words(gskip, width as int, gcur, sp)
                    =~= seq![gcur] + pack_words(gskip, width as int, seq![], sp));
            }
            out.push(cur);
            cur = Vec::new();
            proof {
                assert(gout + pack_words(gskip, width as int, gcur, sp)
                    =~= rows_view(out@) + pack_words(gskip, width as int, cur@, sp));
            }
        }
    }
    proof {
        assert(rows_view(words@).skip(n as int).len() == 0);
    }
    if cur.len() > 0 {
        proof {
            assert(rows_view(out@.push(cur)) =~= rows_view(out@).push(cur@));
        }
        out.push(cur);
    }
    proof {
        assert(pack_words(rows_view(words@), width as int, seq![], sp) =~= rows_view(out@));
    }
    out
}

/// The cell a paragraph paints at (x, y): the wrapped row's character and
/// style at that offset, blank in the base style past the row's end or past
/// the last row; rows past the height and characters past the width are
/// clipped, never an error.
pub open spec fn paragraph_cell(rows: Seq<Seq<(char, Style)>>, style: Style, area: Rect, x: int, y: int) -> Cell {
    let r = y - area.y;
    let o = x - area.x;
    if 0 <= r < rows.len() && 0 <= o < rows[r].len() {
        Cell { symbol: rows[r][o].0, style: rows[r][o].1 }
    } else {
        Cell { symbol: ' ', style }
    }
}

/// Render word-wrapped, styled text over `area`: each source line is broken
/// into rows of words at most `area.width` wide (a single word longer than
/// the width stands alone and is clipped), rows beyond the height are
/// dropped, and every cell of `area` inside the buffer is painted.
pub fn render_paragraph(buf: &mut Buffer, area: Rect, lines: &Vec<Vec<Span>>, style: Style)
    requires
        old(buf).wf(),
        area.wf(),
    ensures
        final(buf).wf(),
        final(buf).area == old(buf).area,
        forall|x: int, y: int| old(buf).area.spec_contains(x, y) ==>
            #[trigger] final(buf).cell_at(x, y) == (if area.spec_contains(x, y) {
                paragraph_cell(
                    paragraph_rows(lines@, area.width as int, style),
                    style,
                    area,
                    x,
                    y,
                )
            } else {
                old(buf).cell_at(x, y)
            }),
{
    let ghost goal = paragraph_rows(lines@, area.width as int, style);
    let mut rows: Vec<Vec<(char, Style)>> = Vec::new();
    let mut j: usize = 0;
    proof {
        assert(lines@.skip(0) =~= lines@);
        assert(goal =~= rows_view(rows@) + paragraph_rows(lines@.skip(0), area.width as int, style));
    }
    while j < lines.len()
        invariant
            j <= lines@.len(),
            goal == paragraph_rows(lines@, area.width as int, style),
            goal =~= rows_view(rows@)
                + paragraph_rows(lines@.skip(j as int), area.width as int, style),
        decreases lines@.len() - j,
    {
        proof {
            assert(lines@.skip(j as int).drop_first() =~= lines@.skip(j + 1));
            assert(lines@.skip(j as int)[0] == lines@[j as int]);
        }
        let flat = flatten_line(&lines[j]);
        let words = split_words(&flat);
        let packed = pack_rows(&words, area.width, style);
        if packed.len() == 0 {
            let empty_row: Vec<(char, Style)> = Vec::new();
            proof {
                assert(rows_view(rows@.push(empty_row)) =~= rows_view(rows@).push(empty_row@));
            }
            rows.push(empty_row);
        } else {
            let mut k: usize = 0;
            let ghost rows0 = rows@;
            while k < packed.len()
                invariant
                    k <= packed@.len(),
                    rows_view(rows@) =~= rows_view(rows0) + rows_view(packed@).take(k as int),
                decreases packed@.len() - k,
            {
                let row = copy_row(&packed[k]);
                proof {
                    assert(rows_view(rows@.push(row)) =~= rows_view(rows@).push(row@));
                    assert(rows_view(packed@).take(k + 1)
                        =~= rows_view(packed@).take(k as int).push(packed@[k as int]@));
                }
                rows.push(row);
                k = k + 1;
            }
            proof {
                assert(rows_view(packed@).take(packed@.len() as int) =~= rows_view(packed@));
            }
        }
        j = j + 1;
    }
    proof {
        assert(lines@.skip(lines@.len() as int).len() == 0);
        assert(rows_view(rows@) =~= goal);
    }
    let mut y: u16 = area.y;
    while y < area.y + area.height
        invariant
            old(buf).wf(),
            buf.wf(),
            buf.area == old(buf).area,
            area.wf(),
            rows_view(rows@) == goal,
            goal == paragraph_rows(lines@, area.width as int, style),
            area.y <= y <= area.y + area.height,
            forall|x2: int, y2: int| old(buf).area.spec_contains(x2, y2) ==>
                #[trigger] buf.cell_at(x2, y2)
                    == (if area.spec_contains(x2, y2) && y2 < y as int {
                    paragraph_cell(goal, style, area, x2, y2)
                } else {
                    old(buf).cell_at(x2, y2)
                }),
        decreases area.y + area.height - y,
    {
        let mut x: u16 = area.x;
        while x < area.x + area.width
            invariant
                old(buf).wf(),
                buf.wf(),
                buf.area == old(buf).area,
                area.wf(),
                rows_view(rows@) == goal,
                goal == paragraph_rows(lines@, area.width as int, style),
                area.y <= y < area.y + area.height,
                area.x <= x <= area.x + area.width,
                forall|x2: int, y2: int| old(buf).area.spec_contains(x2, y2) ==>
                    #[trigger] buf.cell_at(x2, y2)
                        == (if area.spec_contains(x2, y2)
                            && (y2 < y as int || (y2 == y as int && x2 < x as int)) {
                        paragraph_cell(goal, style, area, x2, y2)
                    } else {
                        old(buf).cell_at(x2, y2)
                    }),
            decreases area.x + area.width - x,
        {
            let r: usize = (y - area.y) as usize;
            let o: usize = (x - area.x) as usize;
            let c: Cell = if r < rows.len() {
                let row = &rows[r];
                if o < row.len() {
                    let pair = row[o];
                    Cell { symbol: pair.0, style: pair.1 }
                } else {
                    Cell { symbol: ' ', style }
                }
            } else {
                Cell { symbol: ' ', style }
            };
            proof {
                if r < rows@.len() {
                    assert(goal[r as int] == rows@[r as int]@);
                }
            }
            buf.set(x, y, c);
            x = x + 1;
        }
        y = y + 1;
    }
}

} // verus!
