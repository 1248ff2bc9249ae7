//! What normalisation must do to a grid.
//!
//! Normalisation to the 8-bit scale sends a number `v` of a grid whose
//! least number is `low` and whose greatest is `high` to
//! `255 * (v - low) / (high - low)`, rounded to a level. Whichever way a
//! back end rounds, the level is the floor or the ceiling of that quotient,
//! and a greater number never gets the lower level. Single-precision
//! numbers are integers in units of 2^-149, so both claims are about
//! integers and are decided here without rounding.

use vstd::prelude::*;
use vstd::arithmetic::power2::{lemma_pow2_adds, pow2};
use crate::grid::{is_greatest_rank, is_least_rank, Grid};
use crate::matrix::{Matrix, HIGH, LOW};
use crate::sample::{
    is_number, lemma_size_bound, lemma_value_grows, rank, sample_is_number, sample_rank, value_at,
};
use crate::wide::{lemma_weights, w5, Wide};

verus! {

/// `levels` sends every least number among `samples` to the low bound and
/// every greatest number to the high bound.
pub open spec fn keeps_extremes(samples: Seq<u32>, levels: Seq<u8>) -> bool {
    &&& levels.len() == samples.len()
    &&& forall|i: int|
        0 <= i < samples.len() && is_number(samples[i]) && is_least_rank(samples, rank(samples[i]))
            ==> #[trigger] levels[i] == LOW
    &&& forall|i: int|
        0 <= i < samples.len() && is_number(samples[i]) && is_greatest_rank(
            samples,
            rank(samples[i]),
        ) ==> #[trigger] levels[i] == HIGH
}

/// `levels` never sends the greater of two numbers to the lower level.
pub open spec fn keeps_order(samples: Seq<u32>, levels: Seq<u8>) -> bool {
    &&& levels.len() == samples.len()
    &&& forall|i: int, j: int|
        0 <= i < samples.len() && 0 <= j < samples.len() && is_number(samples[i]) && is_number(
            samples[j],
        ) && rank(samples[i]) <= rank(samples[j]) ==> #[trigger] levels[i] <= #[trigger] levels[j]
}

/// `level` is the floor or the ceiling of `255 * (value - low) / (high - low)`.
pub open spec fn on_scale(low: int, high: int, value: int, level: int) -> bool {
    (level - 1) * (high - low) < 255 * (value - low) < (level + 1) * (high - low)
}

/// Every number among `samples` has in `levels` a level on the scale that
/// runs from the number of rank `low` to the number of rank `high`.
pub open spec fn scaled_between(samples: Seq<u32>, levels: Seq<u8>, low: int, high: int) -> bool {
    forall|i: int|
        0 <= i < samples.len() && is_number(#[trigger] samples[i]) ==> on_scale(
            value_at(low),
            value_at(high),
            value_at(rank(samples[i])),
            levels[i] as int,
        )
}

/// `levels` holds, for every number among `samples`, the floor or the
/// ceiling of its place on the scale from the least number to the greatest.
pub open spec fn keeps_scale(samples: Seq<u32>, levels: Seq<u8>) -> bool {
    &&& levels.len() == samples.len()
    &&& forall|low: int, high: int|
        #[trigger] is_least_rank(samples, low) && #[trigger] is_greatest_rank(samples, high)
            ==> scaled_between(samples, levels, low, high)
}

/// On a scale of positive length the least number lies at the low bound
/// and the greatest at the high bound, whichever way levels are rounded.
pub proof fn lemma_scale_keeps_extremes(samples: Seq<u32>, levels: Seq<u8>)
    requires
        keeps_scale(samples, levels),
    ensures
        keeps_extremes(samples, levels),
{
    assert forall|i: int|
        0 <= i < samples.len() && is_number(samples[i]) && is_least_rank(
            samples,
            rank(samples[i]),
        ) implies #[trigger] levels[i] == LOW by {
        let low = rank(samples[i]);
        lemma_some_greatest(samples);
        let high = choose|high: int| is_greatest_rank(samples, high);
        assert(scaled_between(samples, levels, low, high));
        lemma_span(samples, levels, low, high, i);
        let span = value_at(high) - value_at(low);
        let level = levels[i] as int;
        assert(level == 0) by (nonlinear_arith)
            requires
                (level - 1) * span < 255 * 0 < (level + 1) * span,
                span > 0,
        ;
    }
    assert forall|i: int|
        0 <= i < samples.len() && is_number(samples[i]) && is_greatest_rank(
            samples,
            rank(samples[i]),
        ) implies #[trigger] levels[i] == HIGH by {
        let high = rank(samples[i]);
        lemma_some_least(samples);
        let low = choose|low: int| is_least_rank(samples, low);
        assert(scaled_between(samples, levels, low, high));
        lemma_span(samples, levels, low, high, i);
        let span = value_at(high) - value_at(low);
        let level = levels[i] as int;
        assert(level == 255) by (nonlinear_arith)
            requires
                (level - 1) * span < 255 * span < (level + 1) * span,
                span > 0,
        ;
    }
}

/// Where some level is on a scale, the scale has positive length.
proof fn lemma_span(samples: Seq<u32>, levels: Seq<u8>, low: int, high: int, i: int)
    requires
        scaled_between(samples, levels, low, high),
        0 <= i < samples.len(),
        is_number(samples[i]),
    ensures
        value_at(high) - value_at(low) > 0,
        on_scale(value_at(low), value_at(high), value_at(rank(samples[i])), levels[i] as int),
{
    let span = value_at(high) - value_at(low);
    let level = levels[i] as int;
    assert(on_scale(value_at(low), value_at(high), value_at(rank(samples[i])), level));
    assert(span > 0) by (nonlinear_arith)
        requires
            (level - 1) * span < (level + 1) * span,
    ;
}

/// Samples that hold a number have a least one.
pub proof fn lemma_some_least(samples: Seq<u32>)
    requires
        exists|i: int| 0 <= i < samples.len() && is_number(samples[i]),
    ensures
        exists|low: int| is_least_rank(samples, low),
    decreases samples.len(),
{
    let last = samples.len() - 1;
    let head = samples.take(last);
    assert(forall|k: int| 0 <= k < last ==> head[k] == samples[k]);
    if exists|i: int| 0 <= i < head.len() && is_number(head[i]) {
        lemma_some_least(head);
        let before = choose|low: int| is_least_rank(head, low);
        let at = choose|i: int| 0 <= i < head.len() && is_number(head[i]) && rank(head[i]) == before;
        assert(samples[at] == head[at]);
        if is_number(samples[last]) && rank(samples[last]) < before {
            assert(is_least_rank(samples, rank(samples[last])));
        } else {
            assert(is_least_rank(samples, before));
        }
    } else {
        let i = choose|i: int| 0 <= i < samples.len() && is_number(samples[i]);
        assert(i == last) by {
            if i < last {
                assert(head[i] == samples[i]);
            }
        }
        assert(is_least_rank(samples, rank(samples[last])));
    }
}

/// Samples that hold a number have a greatest one.
pub proof fn lemma_some_greatest(samples: Seq<u32>)
    requires
        exists|i: int| 0 <= i < samples.len() && is_number(samples[i]),
    ensures
        exists|high: int| is_greatest_rank(samples, high),
    decreases samples.len(),
{
    let last = samples.len() - 1;
    let head = samples.take(last);
    assert(forall|k: int| 0 <= k < last ==> head[k] == samples[k]);
    if exists|i: int| 0 <= i < head.len() && is_number(head[i]) {
        lemma_some_greatest(head);
        let before = choose|high: int| is_greatest_rank(head, high);
        let at = choose|i: int| 0 <= i < head.len() && is_number(head[i]) && rank(head[i]) == before;
        assert(samples[at] == head[at]);
        if is_number(samples[last]) && rank(samples[last]) > before {
            assert(is_greatest_rank(samples, rank(samples[last])));
        } else {
            assert(is_greatest_rank(samples, before));
        }
    } else {
        let i = choose|i: int| 0 <= i < samples.len() && is_number(samples[i]);
        assert(i == last) by {
            if i < last {
                assert(head[i] == samples[i]);
            }
        }
        assert(is_greatest_rank(samples, rank(samples[last])));
    }
}

/// A sequence has one least rank and one greatest rank.
pub proof fn lemma_extremes_unique(samples: Seq<u32>, low: int, high: int)
    requires
        is_least_rank(samples, low),
        is_greatest_rank(samples, high),
    ensures
        forall|other: int| is_least_rank(samples, other) ==> other == low,
        forall|other: int| is_greatest_rank(samples, other) ==> other == high,
        low <= high,
{
}

/// Whether `matrix` never sends the greater of two numbers of `grid` to the
/// lower level.
pub fn holds_order(matrix: &Matrix, grid: &Grid) -> (yes: bool)
    ensures
        yes == keeps_order(grid.spec_samples(), matrix@),
{
    let samples = grid.samples();
    let levels = matrix.levels();
    let n: usize = samples.len();
    if levels.len() != n {
        return false;
    }
    // Per level: whether a number lands there, and the least and the
    // greatest rank among those that do.
    let mut seen: Vec<bool> = Vec::new();
    let mut lo: Vec<i64> = Vec::new();
    let mut hi: Vec<i64> = Vec::new();
    let mut v: usize = 0;
    while v < 256
        invariant
            0 <= v <= 256,
            seen@.len() == v,
            lo@.len() == v,
            hi@.len() == v,
            forall|u: int| 0 <= u < v ==> !seen@[u],
        decreases 256 - v,
    {
        seen.push(false);
        lo.push(0);
        hi.push(0);
        v += 1;
    }
    let ghost mut lo_at: Seq<int> = Seq::new(256, |u: int| 0);
    let ghost mut hi_at: Seq<int> = Seq::new(256, |u: int| 0);
    let mut i: usize = 0;
    while i < n
        invariant
            0 <= i <= n,
            n == samples@.len(),
            n == levels@.len(),
            seen@.len() == 256,
            lo@.len() == 256,
            hi@.len() == 256,
            lo_at.len() == 256,
            hi_at.len() == 256,
            forall|k: int|
                0 <= k < i && is_number(#[trigger] samples@[k]) ==> seen@[levels@[k] as int]
                    && lo@[levels@[k] as int] <= rank(samples@[k])
                    <= hi@[levels@[k] as int],
            forall|u: int|
                0 <= u < 256 && #[trigger] seen@[u] ==> 0 <= lo_at[u] < i && is_number(
                    samples@[lo_at[u]],
                ) && levels@[lo_at[u]] == u && rank(samples@[lo_at[u]]) == lo@[u],
            forall|u: int|
                0 <= u < 256 && #[trigger] seen@[u] ==> 0 <= hi_at[u] < i && is_number(
                    samples@[hi_at[u]],
                ) && levels@[hi_at[u]] == u && rank(samples@[hi_at[u]]) == hi@[u],
        decreases n - i,
    {
        let bits: u32 = samples[i];
        if sample_is_number(bits) {
            let r: i64 = sample_rank(bits);
            let at: usize = levels[i] as usize;
            if !seen[at] {
                seen.set(at, true);
                lo.set(at, r);
                hi.set(at, r);
                proof {
                    lo_at = lo_at.update(at as int, i as int);
                    hi_at = hi_at.update(at as int, i as int);
                }
            } else {
                if r < lo[at] {
                    lo.set(at, r);
                    proof {
                        lo_at = lo_at.update(at as int, i as int);
                    }
                }
                if r > hi[at] {
                    hi.set(at, r);
                    proof {
                        hi_at = hi_at.update(at as int, i as int);
                    }
                }
            }
        }
        i += 1;
    }
    // Levels in ascending order: each one's least rank must lie above
    // the greatest rank of every lower level.
    let mut top: Option<i64> = None;
    let ghost mut top_level: int = 0;
    let mut v: usize = 0;
    while v < 256
        invariant
            0 <= v <= 256,
            n == samples@.len(),
            n == levels@.len(),
            samples@ == grid.spec_samples(),
            levels@ == matrix@,
            seen@.len() == 256,
            lo@.len() == 256,
            hi@.len() == 256,
            lo_at.len() == 256,
            hi_at.len() == 256,
            forall|k: int|
                0 <= k < n && is_number(#[trigger] samples@[k]) ==> seen@[levels@[k] as int]
                    && lo@[levels@[k] as int] <= rank(samples@[k])
                    <= hi@[levels@[k] as int],
            forall|u: int|
                0 <= u < 256 && #[trigger] seen@[u] ==> 0 <= lo_at[u] < n && is_number(
                    samples@[lo_at[u]],
                ) && levels@[lo_at[u]] == u && rank(samples@[lo_at[u]]) == lo@[u],
            forall|u: int|
                0 <= u < 256 && #[trigger] seen@[u] ==> 0 <= hi_at[u] < n && is_number(
                    samples@[hi_at[u]],
                ) && levels@[hi_at[u]] == u && rank(samples@[hi_at[u]]) == hi@[u],
            top matches Some(m) ==> 0 <= top_level < v && seen@[top_level] && hi@[top_level]
                == m,
            forall|u: int| 0 <= u < v && #[trigger] seen@[u] ==> top is Some && hi@[u] <= top->0,
            forall|u: int, w: int|
                0 <= u < w < v && #[trigger] seen@[u] && #[trigger] seen@[w] ==> hi@[u]
                    < lo@[w],
        decreases 256 - v,
    {
        if seen[v] {
            match top {
                Some(m) => {
                    if lo[v] <= m {
                        proof {
                            let i = lo_at[v as int];
                            let j = hi_at[top_level];
                            assert(seen@[v as int] && seen@[top_level]);
                            assert(rank(samples@[i]) <= rank(samples@[j]));
                            assert(levels@[i] > levels@[j]);
                        }
                        return false;
                    }
                },
                None => {},
            }
            proof {
                let i = lo_at[v as int];
                assert(seen@[v as int]);
                assert(is_number(samples@[i]) && levels@[i] == v);
                assert(lo@[v as int] <= hi@[v as int]);
                top_level = v as int;
            }
            top = Some(hi[v]);
        }
        v += 1;
    }
    proof {
        assert forall|i: int, j: int|
            0 <= i < n && 0 <= j < n && is_number(samples@[i]) && is_number(samples@[j])
                && rank(samples@[i]) <= rank(samples@[j]) implies #[trigger] levels@[i]
            <= #[trigger] levels@[j] by {
            let a = levels@[i] as int;
            let b = levels@[j] as int;
            assert(seen@[a] && seen@[b]);
            if b < a {
                assert(hi@[b] < lo@[a]);
            }
        }
    }
    true
}

/// A number as its sign and its size.
#[derive(Clone, Copy)]
struct Signed {
    negative: bool,
    size: Wide,
}

impl Signed {
    spec fn value(self) -> int {
        if self.negative {
            -self.size.value()
        } else {
            self.size.value()
        }
    }

    /// The number of a rank.
    fn at(r: i64) -> (out: Signed)
        requires
            -0x8000_0000 < r < 0x8000_0000,
        ensures
            out.value() == value_at(r as int),
            out.size.value() < pow2(278),
    {
        let negative: bool = r < 0;
        let magnitude: u32 = if negative {
            (-r) as u32
        } else {
            r as u32
        };
        let e: u32 = magnitude / 0x80_0000;
        let f: u32 = magnitude % 0x80_0000;
        proof {
            lemma_size_bound(magnitude as int);
            assert(pow2(0) == 1) by {
                vstd::arithmetic::power2::lemma2_to64();
            }
        }
        let size = if e == 0 {
            Wide::shifted(f, 0)
        } else {
            Wide::shifted(0x80_0000 + f, e - 1)
        };
        Signed { negative, size }
    }

    /// How far this number lies above `floor`.
    fn above(self, floor: Signed) -> (gap: Wide)
        requires
            floor.value() <= self.value(),
            self.size.value() < pow2(278),
            floor.size.value() < pow2(278),
        ensures
            gap.value() == self.value() - floor.value(),
            gap.value() < pow2(279),
    {
        proof {
            lemma_bounds();
            self.size.lemma_range();
            floor.size.lemma_range();
        }
        if self.negative {
            if floor.negative {
                floor.size.minus(self.size)
            } else {
                Wide::zero()
            }
        } else {
            if floor.negative {
                self.size.plus(floor.size)
            } else {
                self.size.minus(floor.size)
            }
        }
    }
}

/// 2^279 times 256 stays below 2^320.
proof fn lemma_bounds()
    ensures
        pow2(279) == 2 * pow2(278),
        256 * pow2(279) < w5(),
        pow2(278) > 0,
{
    lemma_weights();
    vstd::arithmetic::power2::lemma2_to64();
    lemma_pow2_adds(1, 278);
    lemma_pow2_adds(8, 279);
    vstd::arithmetic::power2::lemma_pow2_strictly_increases(287, 320);
    vstd::arithmetic::power2::lemma_pow2_pos(278);
}

/// Whether `matrix` holds, for every number of `grid`, the floor or the
/// ceiling of its place on the scale from the grid's least number to its
/// greatest. A grid without numbers asks nothing of the matrix; a grid whose
/// numbers are all equal has no scale that any level could be on. An
/// infinity counts as 2^128, the first power of two beyond the finite
/// numbers.
pub fn holds_scale(matrix: &Matrix, grid: &Grid) -> (yes: bool)
    ensures
        yes == keeps_scale(grid.spec_samples(), matrix@),
{
    let samples = grid.samples();
    let levels = matrix.levels();
    let n: usize = samples.len();
    if levels.len() != n {
        return false;
    }
    let ends = match grid.extremes() {
        Some(ends) => ends,
        None => {
            return true;
        },
    };
    proof {
        lemma_extremes_unique(samples@, ends.low as int, ends.high as int);
        lemma_bounds();
        let at_low = choose|i: int|
            0 <= i < samples@.len() && is_number(samples@[i]) && rank(samples@[i]) == ends.low;
        let at_high = choose|i: int|
            0 <= i < samples@.len() && is_number(samples@[i]) && rank(samples@[i]) == ends.high;
        assert(-0x8000_0000 < rank(samples@[at_low]) < 0x8000_0000);
        assert(-0x8000_0000 < rank(samples@[at_high]) < 0x8000_0000);
        if ends.low < ends.high {
            lemma_value_grows(ends.low as int, ends.high as int);
        }
    }
    let low = Signed::at(ends.low);
    let high = Signed::at(ends.high);
    let span: Wide = high.above(low);
    let mut i: usize = 0;
    while i < n
        invariant
            0 <= i <= n,
            n == samples@.len(),
            n == levels@.len(),
            samples@ == grid.spec_samples(),
            levels@ == matrix@,
            is_least_rank(samples@, ends.low as int),
            is_greatest_rank(samples@, ends.high as int),
            low.value() == value_at(ends.low as int),
            high.value() == value_at(ends.high as int),
            low.size.value() < pow2(278),
            span.value() == value_at(ends.high as int) - value_at(ends.low as int),
            span.value() < pow2(279),
            forall|k: int|
                0 <= k < i && is_number(#[trigger] samples@[k]) ==> on_scale(
                    value_at(ends.low as int),
                    value_at(ends.high as int),
                    value_at(rank(samples@[k])),
                    levels@[k] as int,
                ),
        decreases n - i,
    {
        let bits: u32 = samples[i];
        if sample_is_number(bits) {
            let r: i64 = sample_rank(bits);
            proof {
                lemma_bounds();
                if ends.low < r {
                    lemma_value_grows(ends.low as int, r as int);
                }
                if r < ends.high {
                    lemma_value_grows(r as int, ends.high as int);
                }
            }
            let here = Signed::at(r);
            let gap: Wide = here.above(low);
            let level: u64 = levels[i] as u64;
            proof {
                span.lemma_range();
                gap.lemma_range();
                assert(gap.value() <= span.value());
                assert(gap.value() * 255 < w5()) by (nonlinear_arith)
                    requires
                        0 <= gap.value() < pow2(279),
                        256 * pow2(279) < w5(),
                ;
                assert(span.value() * (level + 1) < w5()) by (nonlinear_arith)
                    requires
                        0 <= span.value() < pow2(279),
                        0 <= level <= 255,
                        256 * pow2(279) < w5(),
                ;
                if level > 0 {
                    assert(span.value() * (level - 1) < w5()) by (nonlinear_arith)
                        requires
                            0 <= span.value() < pow2(279),
                            0 < level <= 255,
                            256 * pow2(279) < w5(),
                    ;
                }
            }
            let place: Wide = gap.times(255);
            let ceiling: Wide = span.times(level + 1);
            let under: bool = place.below(ceiling);
            let over: bool = if level == 0 {
                // a gap is not negative: only an empty scale fails here
                Wide::zero().below(span) || Wide::zero().below(place)
            } else {
                span.times(level - 1).below(place)
            };
            proof {
                let s = span.value();
                let g = gap.value();
                let l = level as int;
                assert(under == (255 * g < (l + 1) * s)) by (nonlinear_arith)
                    requires
                        under == (g * 255 < s * (l + 1)),
                ;
                if level == 0 {
                    assert(over == ((l - 1) * s < 255 * g)) by (nonlinear_arith)
                        requires
                            l == 0,
                            over == (0 < s || 0 < g * 255),
                            s >= 0,
                            g >= 0,
                    ;
                } else {
                    assert(over == ((l - 1) * s < 255 * g)) by (nonlinear_arith)
                        requires
                            over == (s * (l - 1) < g * 255),
                    ;
                }
                assert((under && over) == on_scale(
                    value_at(ends.low as int),
                    value_at(ends.high as int),
                    value_at(rank(samples@[i as int])),
                    levels@[i as int] as int,
                ));
            }
            if !under || !over {
                proof {
                    assert(!scaled_between(samples@, levels@, ends.low as int, ends.high as int));
                }
                return false;
            }
        }
        i += 1;
    }
    proof {
        assert(scaled_between(samples@, levels@, ends.low as int, ends.high as int));
    }
    true
}

} // verus!
