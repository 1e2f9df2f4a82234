//! The layout engine: partitioning a rectangle into an ordered sequence of
//! sub-rectangles along an axis, driven by sizing constraints.
//!
//! `split` shrinks the area by a margin, then resolves the constraints in two
//! passes: fixed lengths and minimums are satisfied first, and the remaining
//! length is distributed among percentage and ratio constraints (rounding
//! down), with any leftover cells assigned to the last flexible region so the
//! partition exactly covers the available length.

use vstd::prelude::*;
use crate::geometry::Rect;

verus! {

/// The axis along which a rectangle is partitioned.
#[derive(Clone, Copy, Debug, PartialEq, Eq, Structural)]
pub enum Direction {
    Horizontal,
    Vertical,
}

/// A rule for how much of the axis one sub-region should occupy.
#[derive(Clone, Copy, Debug, PartialEq, Eq, Structural)]
pub enum Constraint {
    /// Exactly this many cells.
    Length(u16),
    /// This percentage of the length that remains after fixed demands.
    Percentage(u16),
    /// At least this many cells; absorbs leftover length.
    Min(u16),
    /// This fraction (numerator, denominator) of the remaining length.
    Ratio(u32, u32),
}

impl Constraint {
    /// Cells demanded up front, before flexible distribution.
    pub open spec fn base(self) -> int {
        match self {
            Constraint::Length(n) => n as int,
            Constraint::Min(n) => n as int,
            Constraint::Percentage(_) => 0,
            Constraint::Ratio(_, _) => 0,
        }
    }

    /// Whether the region may grow beyond its base demand.
    pub open spec fn is_flexible(self) -> bool {
        match self {
            Constraint::Length(_) => false,
            Constraint::Percentage(_) => true,
            Constraint::Min(_) => true,
            Constraint::Ratio(_, _) => true,
        }
    }

    /// Share of the remaining length `rem`, rounded down.
    pub open spec fn flex(self, rem: int) -> int {
        match self {
            Constraint::Percentage(p) => rem * p / 100,
            Constraint::Ratio(a, b) => if b > 0 { rem * (a as int) / (b as int) } else { 0 },
            Constraint::Length(_) => 0,
            Constraint::Min(_) => 0,
        }
    }

    fn base_len(&self) -> (r: u16)
        ensures
            r as int == self.base(),
    {
        match self {
            Constraint::Length(n) => *n,
            Constraint::Min(n) => *n,
            Constraint::Percentage(_) => 0,
            Constraint::Ratio(_, _) => 0,
        }
    }

    fn flexible(&self) -> (r: bool)
        ensures
            r == self.is_flexible(),
    {
        match self {
            Constraint::Length(_) => false,
            Constraint::Percentage(_) => true,
            Constraint::Min(_) => true,
            Constraint::Ratio(_, _) => true,
        }
    }

    fn flex_len(&self, rem: u16) -> (r: u64)
        ensures
            r as int == self.flex(rem as int),
            r <= 0xffff_ffff_ffff,
    {
        match self {
            Constraint::Percentage(p) => {
                proof {
                    assert((rem as int) * (*p as int) <= 0xffff * 0xffff) by (nonlinear_arith)
                        requires rem <= 0xffff && *p <= 0xffff;
                    assert((rem as int) * (*p as int) / 100 <= (rem as int) * (*p as int))
                        by (nonlinear_arith)
                        requires (rem as int) * (*p as int) >= 0;
                }
                let prod: u64 = (rem as u64) * (*p as u64);
                prod / 100
            }
            Constraint::Ratio(a, b) => {
                if *b > 0 {
                    proof {
                        assert((rem as int) * (*a as int) <= 0xffff * 0xffff_ffff)
                            by (nonlinear_arith)
                            requires rem <= 0xffff && *a <= 0xffff_ffff;
                        assert((rem as int) * (*a as int) / (*b as int)
                            <= (rem as int) * (*a as int)) by (nonlinear_arith)
                            requires (rem as int) * (*a as int) >= 0 && *b >= 1;
                    }
                    let prod: u64 = (rem as u64) * (*a as u64);
                    prod / (*b as u64)
                } else {
                    0
                }
            }
            Constraint::Length(_) => 0,
            Constraint::Min(_) => 0,
        }
    }
}

/// Sum of the up-front demands of a constraint sequence.
pub open spec fn sum_base(cs: Seq<Constraint>) -> int
    decreases cs.len(),
{
    if cs.len() == 0 {
        0
    } else {
        sum_base(cs.drop_last()) + cs.last().base()
    }
}

/// Sum of up-front demand plus flexible share for each constraint.
pub open spec fn sum_demand(cs: Seq<Constraint>, rem: int) -> int
    decreases cs.len(),
{
    if cs.len() == 0 {
        0
    } else {
        sum_demand(cs.drop_last(), rem) + cs.last().base() + cs.last().flex(rem)
    }
}

/// Length left over for flexible distribution after up-front demands.
pub open spec fn rem_after_base(cs: Seq<Constraint>, total: int) -> int {
    if sum_base(cs) >= total {
        0
    } else {
        total - sum_base(cs)
    }
}

/// Index of the last flexible constraint, or -1 if none is flexible.
pub open spec fn last_flexible(cs: Seq<Constraint>) -> int
    decreases cs.len(),
{
    if cs.len() == 0 {
        -1
    } else if cs.last().is_flexible() {
        cs.len() - 1
    } else {
        last_flexible(cs.drop_last())
    }
}

/// The region that receives leftover cells: the last flexible one, or,
/// failing that, the last region.
pub open spec fn target_index(cs: Seq<Constraint>) -> int {
    if last_flexible(cs) >= 0 {
        last_flexible(cs)
    } else {
        cs.len() - 1
    }
}

/// Cells left undistributed after both passes; they go to the target region.
pub open spec fn leftover(cs: Seq<Constraint>, total: int) -> int {
    let d = sum_demand(cs, rem_after_base(cs, total));
    if d >= total {
        0
    } else {
        total - d
    }
}

/// The length the region for constraint `i` asks for, leftover included.
pub open spec fn desired(cs: Seq<Constraint>, total: int, i: int) -> int {
    cs[i].base() + cs[i].flex(rem_after_base(cs, total))
        + if i == target_index(cs) { leftover(cs, total) } else { 0 }
}

/// The constraints' total demand fits in the available length.
pub open spec fn fits(cs: Seq<Constraint>, total: int) -> bool {
    sum_demand(cs, rem_after_base(cs, total)) <= total
}

proof fn lemma_flex_nonneg(c: Constraint, rem: int)
    requires
        rem >= 0,
    ensures
        c.flex(rem) >= 0,
{
    match c {
        Constraint::Percentage(p) => {
            assert(rem * p >= 0) by (nonlinear_arith)
                requires rem >= 0 && p >= 0;
            assert(rem * p / 100 >= 0) by (nonlinear_arith)
                requires rem * p >= 0;
        }
        Constraint::Ratio(a, b) => {
            if b > 0 {
                assert(rem * a >= 0) by (nonlinear_arith)
                    requires rem >= 0 && a >= 0;
                assert(rem * (a as int) / (b as int) >= 0) by (nonlinear_arith)
                    requires rem * a >= 0 && b > 0;
            }
        }
        _ => {}
    }
}

/// Clamp `v` from above at `t`.
pub open spec fn clamped(v: int, t: int) -> int {
    if v >= t { t } else { v }
}

/// Position of a region along the split axis.
pub open spec fn axis_pos(r: Rect, dir: Direction) -> int {
    match dir {
        Direction::Horizontal => r.x as int,
        Direction::Vertical => r.y as int,
    }
}

/// Extent of a region along the split axis.
pub open spec fn axis_len(r: Rect, dir: Direction) -> int {
    match dir {
        Direction::Horizontal => r.width as int,
        Direction::Vertical => r.height as int,
    }
}

/// The region spans the whole of `inner` across the split axis.
pub open spec fn cross_matches(r: Rect, inner: Rect, dir: Direction) -> bool {
    match dir {
        Direction::Horizontal => r.y == inner.y && r.height == inner.height,
        Direction::Vertical => r.x == inner.x && r.width == inner.width,
    }
}

proof fn lemma_sum_demand_prefix(cs: Seq<Constraint>, rem: int, k: int)
    requires
        0 <= k <= cs.len(),
        rem >= 0,
    ensures
        sum_demand(cs.subrange(0, k), rem) <= sum_demand(cs, rem),
    decreases cs.len() - k,
{
    if k == cs.len() {
        assert(cs.subrange(0, k) =~= cs);
    } else {
        assert(cs.subrange(0, k + 1).drop_last() =~= cs.subrange(0, k));
        assert(cs.subrange(0, k + 1).last() == cs[k]);
        lemma_flex_nonneg(cs[k], rem);
        lemma_sum_demand_prefix(cs, rem, k + 1);
    }
}

/// Partition `area`, shrunk by `margin` on all sides, into one region per
/// constraint along `dir`.
///
/// The regions stand in constraint order, are adjacent (zero gap, zero
/// overlap), begin at the shrunk area's edge, never extend past it, and each
/// spans the shrunk area fully across the split axis. Whenever the
/// constraints' total demand fits the available length, the regions cover it
/// exactly and each region's extent equals its demanded length. An empty
/// constraint sequence yields the shrunk area alone.
pub fn split(area: Rect, dir: Direction, margin: u16, cs: &Vec<Constraint>) -> (out: Vec<Rect>)
    requires
        area.wf(),
    ensures
        ({
            let inner = area.spec_shrink(margin as int);
            let total = axis_len(inner, dir);
            let start = axis_pos(inner, dir);
            &&& (cs@.len() == 0 ==> out@ =~= seq![inner])
            &&& cs@.len() > 0 ==> {
                &&& out@.len() == cs@.len()
                &&& (forall|i: int| 0 <= i < out@.len() ==> (#[trigger] out@[i]).wf())
                &&& (forall|i: int| 0 <= i < out@.len() ==>
                        (#[trigger] out@[i]).within(area))
                &&& (forall|i: int| 0 <= i < out@.len() ==>
                        (#[trigger] out@[i]).within(inner))
                &&& (forall|i: int| 0 <= i < out@.len() ==>
                        cross_matches(#[trigger] out@[i], inner, dir))
                &&& axis_pos(out@[0], dir) == start
                &&& (forall|i: int| 0 < i < out@.len() ==>
                        axis_pos(#[trigger] out@[i], dir)
                            == axis_pos(out@[i - 1], dir) + axis_len(out@[i - 1], dir))
                &&& axis_pos(out@.last(), dir) + axis_len(out@.last(), dir) <= start + total
                &&& (forall|i: int| 0 <= i < out@.len() ==>
                        axis_len(#[trigger] out@[i], dir) <= desired(cs@, total, i))
                &&& (forall|i: int| 0 <= i < out@.len() ==>
                        axis_len(#[trigger] out@[i], dir) == clamped(
                            desired(cs@, total, i),
                            start + total - axis_pos(out@[i], dir),
                        ))
                &&& (fits(cs@, total) ==> {
                    &&& axis_pos(out@.last(), dir) + axis_len(out@.last(), dir) == start + total
                    &&& (forall|i: int| 0 <= i < out@.len() ==>
                            axis_len(#[trigger] out@[i], dir) == desired(cs@, total, i))
                })
            }
        }),
{
    let inner = area.shrink(margin);
    proof {
        assert(inner.within(area));
    }
    let n: usize = cs.len();
    if n == 0 {
        let mut out: Vec<Rect> = Vec::new();
        out.push(inner);
        return out;
    }
    let (start, total): (u16, u16) = match dir {
        Direction::Horizontal => (inner.x, inner.width),
        Direction::Vertical => (inner.y, inner.height),
    };
    let end: u16 = start + total;

    // First pass: sum the up-front demands, clamped at the available length.
    let mut sb: u16 = 0;
    let mut i: usize = 0;
    while i < n
        invariant
            i <= n,
            n == cs@.len(),
            sb <= total,
            sb as int == clamped(sum_base(cs@.subrange(0, i as int)), total as int),
            sum_base(cs@.subrange(0, i as int)) >= 0,
        decreases n - i,
    {
        let b: u16 = cs[i].base_len();
        let s: u32 = sb as u32 + b as u32;
        proof {
            assert(cs@.subrange(0, i + 1).drop_last() =~= cs@.subrange(0, i as int));
            assert(cs@.subrange(0, i + 1).last() == cs@[i as int]);
        }
        sb = if s > total as u32 { total } else { s as u16 };
        i = i + 1;
    }
    proof {
        assert(cs@.subrange(0, n as int) =~= cs@);
    }
    let rem: u16 = total - sb;
    assert(rem as int == rem_after_base(cs@, total as int));

    // Second pass: each constraint's full demand (up-front plus flexible
    // share of the remainder), and their clamped sum.
    let mut dvec: Vec<u64> = Vec::new();
    let mut sd: u16 = 0;
    i = 0;
    while i < n
        invariant
            i <= n,
            n == cs@.len(),
            rem as int == rem_after_base(cs@, total as int),
            dvec@.len() == i,
            forall|j: int| 0 <= j < i ==> #[trigger] dvec@[j] as int
                == cs@[j].base() + cs@[j].flex(rem as int),
            forall|j: int| 0 <= j < i ==> #[trigger] dvec@[j] <= 0x1_0000_ffff_fffe,
            sd <= total,
            sd as int == clamped(sum_demand(cs@.subrange(0, i as int), rem as int), total as int),
            sum_demand(cs@.subrange(0, i as int), rem as int) >= 0,
        decreases n - i,
    {
        let b: u16 = cs[i].base_len();
        let fx: u64 = cs[i].flex_len(rem);
        let d0: u64 = b as u64 + fx;
        let s: u64 = sd as u64 + d0;
        proof {
            assert(cs@.subrange(0, i + 1).drop_last() =~= cs@.subrange(0, i as int));
            assert(cs@.subrange(0, i + 1).last() == cs@[i as int]);
            lemma_flex_nonneg(cs@[i as int], rem as int);
        }
        dvec.push(d0);
        sd = if s > total as u64 { total } else { s as u16 };
        i = i + 1;
    }
    proof {
        assert(cs@.subrange(0, n as int) =~= cs@);
    }
    let lo: u16 = total - sd;
    assert(lo as int == leftover(cs@, total as int));

    // The region that absorbs leftover cells: the last flexible one, or the
    // last region when none is flexible.
    let mut tgt: usize = n - 1;
    let mut found: bool = false;
    i = 0;
    while i < n
        invariant
            i <= n,
            n == cs@.len(),
            found ==> 0 <= tgt < i && tgt as int == last_flexible(cs@.subrange(0, i as int)),
            !found ==> last_flexible(cs@.subrange(0, i as int)) == -1 && tgt == n - 1,
        decreases n - i,
    {
        proof {
            assert(cs@.subrange(0, i + 1).drop_last() =~= cs@.subrange(0, i as int));
            assert(cs@.subrange(0, i + 1).last() == cs@[i as int]);
        }
        if cs[i].flexible() {
            tgt = i;
            found = true;
        }
        i = i + 1;
    }
    proof {
        assert(cs@.subrange(0, n as int) =~= cs@);
    }
    assert(tgt as int == target_index(cs@));

    // Cut the regions in order, clamping each at the space that is left.
    let ghost gfits: bool = fits(cs@, total as int);
    let mut out: Vec<Rect> = Vec::new();
    let mut pos: u16 = start;
    i = 0;
    while i < n
        invariant
            i <= n,
            n == cs@.len(),
            n > 0,
            inner.wf(),
            start as int == axis_pos(inner, dir),
            total as int == axis_len(inner, dir),
            end == start + total,
            rem as int == rem_after_base(cs@, total as int),
            lo as int == leftover(cs@, total as int),
            tgt as int == target_index(cs@),
            dvec@.len() == n,
            forall|j: int| 0 <= j < n ==> #[trigger] dvec@[j] as int
                == cs@[j].base() + cs@[j].flex(rem as int),
            forall|j: int| 0 <= j < n ==> #[trigger] dvec@[j] <= 0x1_0000_ffff_fffe,
            gfits == fits(cs@, total as int),
            out@.len() == i,
            start <= pos <= end,
            forall|j: int| 0 <= j < i ==> (#[trigger] out@[j]).wf(),
            forall|j: int| 0 <= j < i ==> (#[trigger] out@[j]).within(area),
            forall|j: int| 0 <= j < i ==> (#[trigger] out@[j]).within(inner),
            inner.within(area),
            forall|j: int| 0 <= j < i ==> cross_matches(#[trigger] out@[j], inner, dir),
            i > 0 ==> axis_pos(out@[0], dir) == start,
            forall|j: int| 0 < j < i ==> axis_pos(#[trigger] out@[j], dir)
                == axis_pos(out@[j - 1], dir) + axis_len(out@[j - 1], dir),
            i > 0 ==> pos as int == axis_pos(out@[i - 1], dir) + axis_len(out@[i - 1], dir),
            i == 0 ==> pos == start,
            forall|j: int| 0 <= j < i ==> axis_len(#[trigger] out@[j], dir)
                <= desired(cs@, total as int, j),
            forall|j: int| 0 <= j < i ==> axis_len(#[trigger] out@[j], dir)
                == clamped(
                    desired(cs@, total as int, j),
                    start + total - axis_pos(out@[j], dir),
                ),
            gfits ==> pos as int == start + sum_demand(cs@.subrange(0, i as int), rem as int)
                + if tgt < i { lo as int } else { 0 },
            gfits ==> forall|j: int| 0 <= j < i ==> axis_len(#[trigger] out@[j], dir)
                == desired(cs@, total as int, j),
        decreases n - i,
    {
        let extra: u64 = if i == tgt { lo as u64 } else { 0 };
        let d: u64 = dvec[i] + extra;
        let room: u16 = end - pos;
        proof {
            assert(cs@.subrange(0, i + 1).drop_last() =~= cs@.subrange(0, i as int));
            assert(cs@.subrange(0, i + 1).last() == cs@[i as int]);
            lemma_flex_nonneg(cs@[i as int], rem as int);
            if gfits {
                lemma_sum_demand_prefix(cs@, rem as int, i + 1);
            }
        }
        let size: u16 = if d >= room as u64 { room } else { d as u16 };
        let r: Rect = match dir {
            Direction::Horizontal => Rect {
                x: pos,
                y: inner.y,
                width: size,
                height: inner.height,
            },
            Direction::Vertical => Rect {
                x: inner.x,
                y: pos,
                width: inner.width,
                height: size,
            },
        };
        out.push(r);
        pos = pos + size;
        i = i + 1;
    }
    proof {
        assert(cs@.subrange(0, n as int) =~= cs@);
    }
    out
}

} // verus!
