//! The input grid: a rectangular, non-empty matrix of measurements.

use vstd::prelude::*;
use crate::error::InputFault;
use crate::sample::{is_number, rank, sample_is_number, sample_rank};

verus! {

/// The largest width or height a grid may have: what a PNG header and a
/// signed 32-bit matrix dimension can both express.
pub const MAX_DIMENSION: usize = 0x7fff_ffff;

/// The rows handed in, each as the sequence of its samples.
pub open spec fn rows_of(rows: Seq<Vec<u32>>) -> Seq<Seq<u32>> {
    Seq::new(rows.len(), |r: int| rows[r]@)
}

/// Every row is as long as the first one.
pub open spec fn rectangular(rows: Seq<Seq<u32>>) -> bool {
    forall|r: int| 0 <= r < rows.len() ==> (#[trigger] rows[r]).len() == rows[0].len()
}

/// `row` is the first row whose length differs from that of row 0.
pub open spec fn first_ragged(rows: Seq<Seq<u32>>, row: int) -> bool {
    &&& 0 < row < rows.len()
    &&& rows[row].len() != rows[0].len()
    &&& forall|r: int| 0 <= r < row ==> (#[trigger] rows[r]).len() == rows[0].len()
}

/// Both dimensions and the cell count are within the machine's limits.
pub open spec fn fits(height: int, width: int) -> bool {
    &&& height <= MAX_DIMENSION
    &&& width <= MAX_DIMENSION
    &&& height * width <= usize::MAX
}

/// What a grid must satisfy before any numeric stage may run.
pub open spec fn well_shaped(rows: Seq<Seq<u32>>) -> bool {
    &&& rows.len() >= 1
    &&& rows[0].len() >= 1
    &&& rectangular(rows)
    &&& fits(rows.len() as int, rows[0].len() as int)
}

/// `fault` is the first precondition that `rows` fails, in the order: no
/// rows, no columns, ragged, too large.
pub open spec fn refused_as(rows: Seq<Seq<u32>>, fault: InputFault) -> bool {
    match fault {
        InputFault::NoRows => rows.len() == 0,
        InputFault::NoColumns => rows.len() > 0 && rows[0].len() == 0,
        InputFault::Ragged { row } => {
            &&& rows.len() > 0
            &&& rows[0].len() > 0
            &&& first_ragged(rows, row as int)
        },
        InputFault::TooLarge => {
            &&& rows.len() > 0
            &&& rows[0].len() > 0
            &&& rectangular(rows)
            &&& !fits(rows.len() as int, rows[0].len() as int)
        },
    }
}

/// A grid that is refused is not well shaped, and is refused for one fault
/// only.
pub proof fn lemma_one_fault(rows: Seq<Seq<u32>>, fault: InputFault, other: InputFault)
    requires
        refused_as(rows, fault),
    ensures
        !well_shaped(rows),
        refused_as(rows, other) ==> other == fault,
{
    if let InputFault::Ragged { row } = fault {
        assert(rows[row as int].len() != rows[0].len());
        if let InputFault::Ragged { row: second } = other {
            if refused_as(rows, other) {
                assert(rows[second as int].len() != rows[0].len());
                assert(row == second);
            }
        }
    } else if let InputFault::Ragged { row: second } = other {
        if refused_as(rows, other) {
            assert(rows[second as int].len() != rows[0].len());
        }
    }
}

/// `low` is the rank of the least number in `samples`.
pub open spec fn is_least_rank(samples: Seq<u32>, low: int) -> bool {
    &&& exists|i: int| 0 <= i < samples.len() && is_number(samples[i]) && rank(samples[i]) == low
    &&& forall|i: int| 0 <= i < samples.len() && is_number(samples[i]) ==> low <= rank(samples[i])
}

/// `high` is the rank of the greatest number in `samples`.
pub open spec fn is_greatest_rank(samples: Seq<u32>, high: int) -> bool {
    &&& exists|i: int|
        0 <= i < samples.len() && is_number(samples[i]) && rank(samples[i]) == high
    &&& forall|i: int| 0 <= i < samples.len() && is_number(samples[i]) ==> rank(samples[i]) <= high
}

/// No sample encodes a number.
pub open spec fn no_numbers(samples: Seq<u32>) -> bool {
    forall|i: int| 0 <= i < samples.len() ==> !is_number(#[trigger] samples[i])
}

/// The least and the greatest rank among the numbers of a grid.
#[derive(Debug, Clone, Copy, PartialEq, Eq, Structural)]
pub struct Extremes {
    pub low: i64,
    pub high: i64,
}

/// A validated grid, stored row by row in one buffer.
pub struct Grid {
    width: usize,
    height: usize,
    samples: Vec<u32>,
}

/// Cell `(r, c)` has a flat index of its own, within its row's span.
pub proof fn lemma_cell_index(r: int, c: int, height: int, width: int)
    requires
        0 <= r < height,
        0 <= c < width,
    ensures
        0 <= r * width + c < height * width,
        r * width + c < (r + 1) * width,
{
    assert(r * width + c < (r + 1) * width) by (nonlinear_arith)
        requires
            0 <= c < width,
    ;
    assert((r + 1) * width <= height * width) by (nonlinear_arith)
        requires
            0 <= r < height,
            0 < width,
    ;
    assert(0 <= r * width) by (nonlinear_arith)
        requires
            0 <= r,
            0 < width,
    ;
}

/// A flat index falls in row `k / width`, column `k % width`.
pub proof fn lemma_cell_split(r: int, c: int, width: int)
    requires
        0 <= r,
        0 <= c < width,
    ensures
        (r * width + c) / width == r,
        (r * width + c) % width == c,
{
    vstd::arithmetic::div_mod::lemma_fundamental_div_mod_converse(r * width + c, width, r, c);
}

/// `samples` holds the leading cells of `model`, row after row.
pub open spec fn row_major(samples: Seq<u32>, model: Seq<Seq<u32>>, width: int) -> bool {
    forall|k: int|
        0 <= k < samples.len() ==> #[trigger] samples[k] == model[k / width][k % width]
}

impl Grid {
    /// Number of columns.
    pub closed spec fn spec_width(&self) -> nat {
        self.width as nat
    }

    /// Number of rows.
    pub closed spec fn spec_height(&self) -> nat {
        self.height as nat
    }

    /// The samples in row-major order.
    pub closed spec fn spec_samples(&self) -> Seq<u32> {
        self.samples@
    }

    /// The grid's invariant: at least one row and one column, within the
    /// limits, and exactly one sample per cell.
    pub open spec fn wf(&self) -> bool {
        &&& 1 <= self.spec_width() <= MAX_DIMENSION
        &&& 1 <= self.spec_height() <= MAX_DIMENSION
        &&& self.spec_samples().len() == self.spec_height() * self.spec_width()
    }

    /// The sample in row `r`, column `c`.
    pub open spec fn at(&self, r: int, c: int) -> u32 {
        self.spec_samples()[r * self.spec_width() + c]
    }

    /// The grid as a sequence of rows.
    pub open spec fn view(&self) -> Seq<Seq<u32>> {
        Seq::new(self.spec_height(), |r: int| Seq::new(self.spec_width(), |c: int| self.at(r, c)))
    }

    /// Validates `rows` and stores them row by row. Succeeds exactly on the
    /// well-shaped grids; otherwise names the first precondition that fails,
    /// in the order: no rows, no columns, ragged, too large.
    pub fn from_rows(rows: &Vec<Vec<u32>>) -> (result: Result<Grid, InputFault>)
        ensures
            match result {
                Ok(grid) => {
                    &&& well_shaped(rows_of(rows@))
                    &&& grid.wf()
                    &&& grid@ == rows_of(rows@)
                },
                Err(fault) => refused_as(rows_of(rows@), fault),
            },
    {
        let ghost model = rows_of(rows@);
        let height: usize = rows.len();
        if height == 0 {
            return Err(InputFault::NoRows);
        }
        let width: usize = rows[0].len();
        assert(model[0] == rows@[0]@);
        if width == 0 {
            return Err(InputFault::NoColumns);
        }
        let mut r: usize = 1;
        while r < height
            invariant
                1 <= r <= height,
                height == rows@.len(),
                width == rows@[0]@.len(),
                width >= 1,
                model == rows_of(rows@),
                forall|k: int| 0 <= k < r ==> (#[trigger] model[k]).len() == width,
            decreases height - r,
        {
            assert(model[r as int] == rows@[r as int]@);
            assert(model[0] == rows@[0]@);
            if rows[r].len() != width {
                return Err(InputFault::Ragged { row: r });
            }
            r += 1;
        }
        assert(model[0] == rows@[0]@);
        if height > MAX_DIMENSION || width > MAX_DIMENSION {
            return Err(InputFault::TooLarge);
        }
        assert(height * width <= 0x7fff_ffff * 0x7fff_ffff) by (nonlinear_arith)
            requires
                0 <= height <= 0x7fff_ffff,
                0 <= width <= 0x7fff_ffff,
        ;
        let cells: u64 = (height as u64) * (width as u64);
        if cells > usize::MAX as u64 {
            return Err(InputFault::TooLarge);
        }
        let mut samples: Vec<u32> = Vec::new();
        let mut r: usize = 0;
        while r < height
            invariant
                0 <= r <= height,
                height == rows@.len(),
                width == rows@[0]@.len(),
                width >= 1,
                height * width <= usize::MAX,
                model == rows_of(rows@),
                rectangular(model),
                samples@.len() == r * width,
                row_major(samples@, model, width as int),
            decreases height - r,
        {
            let row = &rows[r];
            assert(model[r as int].len() == width);
            let mut c: usize = 0;
            while c < width
                invariant
                    0 <= c <= width,
                    0 <= r < height,
                    width >= 1,
                    height * width <= usize::MAX,
                    row@ == model[r as int],
                    row@.len() == width,
                    samples@.len() == r * width + c,
                    row_major(samples@, model, width as int),
                decreases width - c,
            {
                proof {
                    lemma_cell_index(r as int, c as int, height as int, width as int);
                    lemma_cell_split(r as int, c as int, width as int);
                }
                samples.push(row[c]);
                c += 1;
            }
            proof {
                assert((r + 1) * width == r * width + width) by (nonlinear_arith);
            }
            r += 1;
        }
        let grid = Grid { width, height, samples };
        proof {
            assert forall|i: int| 0 <= i < height implies #[trigger] grid@[i] == model[i] by {
                assert forall|j: int| 0 <= j < width implies grid@[i][j] == model[i][j] by {
                    lemma_cell_index(i, j, height as int, width as int);
                    lemma_cell_split(i, j, width as int);
                }
                assert(grid@[i] =~= model[i]);
            }
            assert(grid@ =~= model);
        }
        Ok(grid)
    }

    /// Number of columns.
    pub fn width(&self) -> (w: usize)
        ensures
            w == self.spec_width(),
    {
        self.width
    }

    /// Number of rows.
    pub fn height(&self) -> (h: usize)
        ensures
            h == self.spec_height(),
    {
        self.height
    }

    /// The samples in row-major order, as the numeric back end takes them.
    pub fn samples(&self) -> (all: &Vec<u32>)
        ensures
            all@ == self.spec_samples(),
    {
        &self.samples
    }

    /// The sample in row `r`, column `c`.
    pub fn sample(&self, r: usize, c: usize) -> (bits: u32)
        requires
            self.wf(),
            r < self.spec_height(),
            c < self.spec_width(),
        ensures
            bits == self.at(r as int, c as int),
    {
        let n: usize = self.samples.len();
        proof {
            lemma_cell_index(r as int, c as int, self.height as int, self.width as int);
            assert(r * self.width <= r * self.width + c < n);
        }
        self.samples[r * self.width + c]
    }

    /// The ranks of the least and the greatest number in the grid, or `None`
    /// when no sample encodes a number.
    pub fn extremes(&self) -> (found: Option<Extremes>)
        ensures
            match found {
                Some(e) => {
                    &&& is_least_rank(self.spec_samples(), e.low as int)
                    &&& is_greatest_rank(self.spec_samples(), e.high as int)
                },
                None => no_numbers(self.spec_samples()),
            },
    {
        let n: usize = self.samples.len();
        let mut found: Option<Extremes> = None;
        let mut i: usize = 0;
        while i < n
            invariant
                0 <= i <= n,
                n == self.samples@.len(),
                match found {
                    Some(e) => {
                        &&& is_least_rank(self.samples@.take(i as int), e.low as int)
                        &&& is_greatest_rank(self.samples@.take(i as int), e.high as int)
                    },
                    None => no_numbers(self.samples@.take(i as int)),
                },
            decreases n - i,
        {
            let bits: u32 = self.samples[i];
            let ghost before = self.samples@.take(i as int);
            let ghost after = self.samples@.take(i + 1);
            assert(forall|k: int| 0 <= k < i ==> before[k] == after[k]);
            assert(after[i as int] == bits);
            if sample_is_number(bits) {
                let r: i64 = sample_rank(bits);
                match found {
                    Some(e) => {
                        let low: i64 = if r < e.low {
                            r
                        } else {
                            e.low
                        };
                        let high: i64 = if r > e.high {
                            r
                        } else {
                            e.high
                        };
                        proof {
                            let wl = choose|k: int|
                                0 <= k < before.len() && is_number(before[k]) && rank(before[k])
                                    == e.low;
                            let wh = choose|k: int|
                                0 <= k < before.len() && is_number(before[k]) && rank(before[k])
                                    == e.high;
                            let kl = if r < e.low {
                                i as int
                            } else {
                                wl
                            };
                            let kh = if r > e.high {
                                i as int
                            } else {
                                wh
                            };
                            assert(0 <= kl < after.len() && is_number(after[kl]) && rank(after[kl])
                                == low);
                            assert(0 <= kh < after.len() && is_number(after[kh]) && rank(after[kh])
                                == high);
                        }
                        found = Some(Extremes { low, high });
                    },
                    None => {
                        proof {
                            assert(0 <= i < after.len() && is_number(after[i as int]) && rank(
                                after[i as int],
                            ) == r);
                        }
                        found = Some(Extremes { low: r, high: r });
                    },
                }
            }
            i += 1;
        }
        assert(self.samples@.take(n as int) =~= self.samples@);
        found
    }
}

} // verus!
