//! What smoothing may do to a matrix.
//!
//! A smoothing kernel averages the cells around each cell with weights that
//! are not negative and add up to one. Whatever the weights, the average
//! lies between the least and the greatest level of the cells it covers;
//! where the kernel reaches beyond the edge, a reflected border adds no
//! cell that is not covered already, and a constant border adds zeros.

use vstd::prelude::*;
use crate::grid::lemma_cell_index;
use crate::matrix::Matrix;

verus! {

/// The level in row `r`, column `c` of a row-major buffer.
pub open spec fn cell(levels: Seq<u8>, width: int, r: int, c: int) -> int {
    levels[r * width + c] as int
}

/// Cell `(r2, c2)` lies in the matrix and within `reach` of `(r, c)`.
pub open spec fn near(
    width: int,
    height: int,
    r: int,
    c: int,
    reach: int,
    r2: int,
    c2: int,
) -> bool {
    &&& 0 <= r2 < height
    &&& 0 <= c2 < width
    &&& r - reach <= r2 <= r + reach
    &&& c - reach <= c2 <= c + reach
}

/// The kernel around `(r, c)` reaches beyond the matrix.
pub open spec fn crosses_edge(width: int, height: int, r: int, c: int, reach: int) -> bool {
    r < reach || c < reach || r + reach >= height || c + reach >= width
}

/// Some cell near `(r, c)` is, up to `slack`, at least as high in `source`
/// as `(r, c)` is in `out`.
pub open spec fn capped(
    source: Seq<u8>,
    out: Seq<u8>,
    width: int,
    height: int,
    r: int,
    c: int,
    reach: int,
    slack: int,
) -> bool {
    exists|r2: int, c2: int|
        near(width, height, r, c, reach, r2, c2) && cell(out, width, r, c) <= #[trigger] cell(
            source,
            width,
            r2,
            c2,
        ) + slack
}

/// Some cell near `(r, c)` is, up to `slack`, at most as high in `source`
/// as `(r, c)` is in `out`; or zeros were padded in around `(r, c)`.
pub open spec fn floored(
    source: Seq<u8>,
    out: Seq<u8>,
    width: int,
    height: int,
    r: int,
    c: int,
    reach: int,
    padded: bool,
    slack: int,
) -> bool {
    (padded && crosses_edge(width, height, r, c, reach)) || exists|r2: int, c2: int|
        near(width, height, r, c, reach, r2, c2) && #[trigger] cell(source, width, r2, c2) <= cell(
            out,
            width,
            r,
            c,
        ) + slack
}

/// The level of `out` at `(r, c)` lies, up to `slack`, between the least and
/// the greatest level that `source` holds within `reach` of `(r, c)`, zeros
/// included where `padded` and the kernel crosses the edge.
pub open spec fn averaged_at(
    source: Seq<u8>,
    out: Seq<u8>,
    width: int,
    height: int,
    r: int,
    c: int,
    reach: int,
    padded: bool,
    slack: int,
) -> bool {
    &&& capped(source, out, width, height, r, c, reach, slack)
    &&& floored(source, out, width, height, r, c, reach, padded, slack)
}

/// Every level of `out` lies, up to `slack`, between the least and the
/// greatest level that `source` holds within `reach` of the same cell,
/// zeros included where `padded` and the kernel crosses the edge.
pub open spec fn averages(
    source: Seq<u8>,
    out: Seq<u8>,
    width: int,
    height: int,
    reach: int,
    padded: bool,
    slack: int,
) -> bool {
    &&& out.len() == source.len()
    &&& forall|r: int, c: int|
        0 <= r < height && 0 <= c < width ==> #[trigger] averaged_at(source, out, width, height, r, c, reach, padded, slack)
}

/// The least and the greatest level of `source` within `reach` of `(r, c)`.
fn window_range(source: &Matrix, r: usize, c: usize, reach: usize) -> (range: (u8, u8))
    requires
        source.wf(),
        r < source.spec_height(),
        c < source.spec_width(),
    ensures
        exists|r2: int, c2: int|
            near(
                source.spec_width() as int,
                source.spec_height() as int,
                r as int,
                c as int,
                reach as int,
                r2,
                c2,
            ) && #[trigger] cell(source@, source.spec_width() as int, r2, c2) == range.0,
        exists|r2: int, c2: int|
            near(
                source.spec_width() as int,
                source.spec_height() as int,
                r as int,
                c as int,
                reach as int,
                r2,
                c2,
            ) && #[trigger] cell(source@, source.spec_width() as int, r2, c2) == range.1,
        forall|r2: int, c2: int|
            near(
                source.spec_width() as int,
                source.spec_height() as int,
                r as int,
                c as int,
                reach as int,
                r2,
                c2,
            ) ==> range.0 <= #[trigger] cell(source@, source.spec_width() as int, r2, c2)
                <= range.1,
{
    let w: usize = source.width();
    let h: usize = source.height();
    let levels = source.levels();
    let r_lo: usize = if r >= reach {
        r - reach
    } else {
        0
    };
    let r_hi: usize = if reach >= h - r {
        h - 1
    } else {
        r + reach
    };
    let c_lo: usize = if c >= reach {
        c - reach
    } else {
        0
    };
    let c_hi: usize = if reach >= w - c {
        w - 1
    } else {
        c + reach
    };
    let n: usize = levels.len();
    proof {
        lemma_cell_index(r as int, c as int, h as int, w as int);
        assert(r * w <= r * w + c < n);
    }
    let here: u8 = levels[r * w + c];
    let mut least: u8 = here;
    let mut most: u8 = here;
    let ghost mut least_at: (int, int) = (r as int, c as int);
    let ghost mut most_at: (int, int) = (r as int, c as int);
    let mut r2: usize = r_lo;
    while r2 <= r_hi
        invariant
            source.wf(),
            w == source.spec_width(),
            h == source.spec_height(),
            levels@ == source@,
            n == levels@.len(),
            r < h,
            c < w,
            r_lo <= r <= r_hi < h,
            c_lo <= c <= c_hi < w,
            r_lo == if r >= reach { r - reach } else { 0 },
            c_lo == if c >= reach { c - reach } else { 0 },
            r_hi == if reach >= h - r { h - 1 } else { r + reach },
            c_hi == if reach >= w - c { w - 1 } else { c + reach },
            r_lo <= r2 <= r_hi + 1,
            near(w as int, h as int, r as int, c as int, reach as int, least_at.0, least_at.1),
            near(w as int, h as int, r as int, c as int, reach as int, most_at.0, most_at.1),
            cell(source@, w as int, least_at.0, least_at.1) == least,
            cell(source@, w as int, most_at.0, most_at.1) == most,
            forall|a: int, b: int|
                r_lo <= a < r2 && c_lo <= b <= c_hi ==> least <= #[trigger] cell(
                    source@,
                    w as int,
                    a,
                    b,
                ) <= most,
        decreases r_hi + 1 - r2,
    {
        let mut c2: usize = c_lo;
        while c2 <= c_hi
            invariant
                source.wf(),
                w == source.spec_width(),
                h == source.spec_height(),
                levels@ == source@,
                n == levels@.len(),
                r < h,
                c < w,
                r_lo <= r <= r_hi < h,
                c_lo <= c <= c_hi < w,
                r_lo == if r >= reach { r - reach } else { 0 },
                c_lo == if c >= reach { c - reach } else { 0 },
                r_hi == if reach >= h - r { h - 1 } else { r + reach },
                c_hi == if reach >= w - c { w - 1 } else { c + reach },
                r_lo <= r2 <= r_hi,
                c_lo <= c2 <= c_hi + 1,
                near(w as int, h as int, r as int, c as int, reach as int, least_at.0, least_at.1),
                near(w as int, h as int, r as int, c as int, reach as int, most_at.0, most_at.1),
                cell(source@, w as int, least_at.0, least_at.1) == least,
                cell(source@, w as int, most_at.0, most_at.1) == most,
                forall|a: int, b: int|
                    r_lo <= a < r2 && c_lo <= b <= c_hi ==> least <= #[trigger] cell(
                        source@,
                        w as int,
                        a,
                        b,
                    ) <= most,
                forall|b: int|
                    c_lo <= b < c2 ==> least <= #[trigger] cell(source@, w as int, r2 as int, b)
                        <= most,
            decreases c_hi + 1 - c2,
        {
            proof {
                lemma_cell_index(r2 as int, c2 as int, h as int, w as int);
                assert(r2 * w <= r2 * w + c2 < n);
            }
            let v: u8 = levels[r2 * w + c2];
            if v < least {
                least = v;
                proof {
                    least_at = (r2 as int, c2 as int);
                }
            }
            if v > most {
                most = v;
                proof {
                    most_at = (r2 as int, c2 as int);
                }
            }
            c2 += 1;
        }
        r2 += 1;
    }
    proof {
        assert(cell(source@, w as int, least_at.0, least_at.1) == least);
        assert(cell(source@, w as int, most_at.0, most_at.1) == most);
    }
    (least, most)
}

/// Whether `out` can be a smoothing of `source` with a kernel that spans
/// `reach` cells to each side: the same dimensions, and every level within
/// `slack` of the range its neighbourhood has in `source`, with zeros in the
/// neighbourhood where `padded` and the kernel crosses the edge.
pub fn is_average_of(out: &Matrix, source: &Matrix, reach: usize, padded: bool, slack: u8) -> (yes:
    bool)
    requires
        out.wf(),
        source.wf(),
    ensures
        yes == (out.spec_width() == source.spec_width() && out.spec_height()
            == source.spec_height() && averages(
            source@,
            out@,
            source.spec_width() as int,
            source.spec_height() as int,
            reach as int,
            padded,
            slack as int,
        )),
{
    let w: usize = source.width();
    let h: usize = source.height();
    if out.width() != w || out.height() != h {
        return false;
    }
    let levels = out.levels();
    let n: usize = levels.len();
    let mut r: usize = 0;
    while r < h
        invariant
            n == levels@.len(),
            out.wf(),
            source.wf(),
            w == source.spec_width(),
            h == source.spec_height(),
            w == out.spec_width(),
            h == out.spec_height(),
            levels@ == out@,
            0 <= r <= h,
            forall|a: int, b: int|
                0 <= a < r && 0 <= b < w ==> #[trigger] averaged_at(source@, out@, w as int, h as int, a, b, reach as int, padded, slack as int),
        decreases h - r,
    {
        let mut c: usize = 0;
        while c < w
            invariant
                n == levels@.len(),
                out.wf(),
                source.wf(),
                w == source.spec_width(),
                h == source.spec_height(),
                w == out.spec_width(),
                h == out.spec_height(),
                levels@ == out@,
                0 <= r < h,
                0 <= c <= w,
                forall|a: int, b: int|
                    0 <= a < r && 0 <= b < w ==> #[trigger] averaged_at(source@, out@, w as int, h as int, a, b, reach as int, padded, slack as int),
                forall|b: int|
                    0 <= b < c ==> #[trigger] averaged_at(source@, out@, w as int, h as int, r as int, b, reach as int, padded, slack as int),
            decreases w - c,
        {
            let range = window_range(source, r, c, reach);
            proof {
                lemma_cell_index(r as int, c as int, h as int, w as int);
                assert(r * w <= r * w + c < n);
            }
            let v: u16 = levels[r * w + c] as u16;
            let crosses: bool = reach > r || reach > c || reach >= h - r || reach >= w - c;
            let capped_here: bool = v <= range.1 as u16 + slack as u16;
            let floored_here: bool = (padded && crosses) || range.0 as u16 <= v + slack as u16;
            proof {
                let wi = w as int;
                let hi = h as int;
                let ri = r as int;
                let ci = c as int;
                let reach_i = reach as int;
                let slack_i = slack as int;
                assert(cell(out@, wi, ri, ci) == v);
                assert(crosses == crosses_edge(wi, hi, ri, ci, reach_i));
                if capped_here {
                    let (a, b) = choose|a: int, b: int|
                        near(wi, hi, ri, ci, reach_i, a, b) && #[trigger] cell(source@, wi, a, b)
                            == range.1;
                    assert(near(wi, hi, ri, ci, reach_i, a, b) && cell(out@, wi, ri, ci) <= cell(
                        source@,
                        wi,
                        a,
                        b,
                    ) + slack_i);
                    assert(capped(source@, out@, wi, hi, ri, ci, reach_i, slack_i));
                } else {
                    assert forall|a: int, b: int| near(wi, hi, ri, ci, reach_i, a, b) implies !(
                    cell(out@, wi, ri, ci) <= #[trigger] cell(source@, wi, a, b) + slack_i) by {
                        assert(cell(source@, wi, a, b) <= range.1);
                    }
                    assert(!capped(source@, out@, wi, hi, ri, ci, reach_i, slack_i));
                }
                if floored_here {
                    if !(padded && crosses) {
                        let (a, b) = choose|a: int, b: int|
                            near(wi, hi, ri, ci, reach_i, a, b) && #[trigger] cell(
                                source@,
                                wi,
                                a,
                                b,
                            ) == range.0;
                        assert(near(wi, hi, ri, ci, reach_i, a, b) && cell(source@, wi, a, b)
                            <= cell(out@, wi, ri, ci) + slack_i);
                    }
                    assert(floored(source@, out@, wi, hi, ri, ci, reach_i, padded, slack_i));
                } else {
                    assert forall|a: int, b: int| near(wi, hi, ri, ci, reach_i, a, b) implies !(
                    #[trigger] cell(source@, wi, a, b) <= cell(out@, wi, ri, ci) + slack_i) by {
                        assert(range.0 <= cell(source@, wi, a, b));
                    }
                    assert(!floored(source@, out@, wi, hi, ri, ci, reach_i, padded, slack_i));
                }
            }
            if !capped_here || !floored_here {
                assert(!averaged_at(
                    source@,
                    out@,
                    w as int,
                    h as int,
                    r as int,
                    c as int,
                    reach as int,
                    padded,
                    slack as int,
                ));
                return false;
            }
            assert(averaged_at(
                source@,
                out@,
                w as int,
                h as int,
                r as int,
                c as int,
                reach as int,
                padded,
                slack as int,
            ));
            c += 1;
        }
        proof {
            assert forall|a: int, b: int| 0 <= a < r + 1 && 0 <= b < w implies #[trigger] averaged_at(source@, out@, w as int, h as int, a, b, reach as int, padded, slack as int) by {
                if a == r {
                    assert(averaged_at(
                        source@,
                        out@,
                        w as int,
                        h as int,
                        r as int,
                        b,
                        reach as int,
                        padded,
                        slack as int,
                    ));
                }
            }
        }
        r += 1;
    }
    true
}

} // verus!
