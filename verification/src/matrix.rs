//! Eight-bit matrices: what every stage hands to the next one.

use vstd::prelude::*;
use crate::error::ProcessingFault;
use crate::grid::{lemma_cell_index, Grid, MAX_DIMENSION};

verus! {

/// The low sentinel, and the lower bound of the 8-bit target range.
pub const LOW: u8 = 0;

/// The high sentinel, and the upper bound of the 8-bit target range.
pub const HIGH: u8 = 255;

/// The complement of one level.
pub open spec fn complement(level: u8) -> u8 {
    (HIGH - level) as u8
}

/// The complement of every level.
pub open spec fn inverted(levels: Seq<u8>) -> Seq<u8> {
    Seq::new(levels.len(), |i: int| complement(levels[i]))
}

/// Every level is one of the two sentinels.
pub open spec fn is_binary(levels: Seq<u8>) -> bool {
    forall|i: int| 0 <= i < levels.len() ==> levels[i] == LOW || levels[i] == HIGH
}

/// `binary` is `source` cut at `threshold`: low where the source is at most
/// the threshold, high where it is above.
pub open spec fn splits_at(source: Seq<u8>, binary: Seq<u8>, threshold: u8) -> bool {
    &&& binary.len() == source.len()
    &&& forall|i: int|
        0 <= i < source.len() ==> #[trigger] binary[i] == if source[i] > threshold {
            HIGH
        } else {
            LOW
        }
}

/// Complementing twice gives every level back.
pub proof fn lemma_invert_twice(levels: Seq<u8>)
    ensures
        inverted(inverted(levels)) == levels,
{
    assert(inverted(inverted(levels)) =~= levels);
}

/// A source has one cut at each threshold: two matrices that split it at the
/// same threshold are equal.
pub proof fn lemma_split_unique(source: Seq<u8>, a: Seq<u8>, b: Seq<u8>, threshold: u8)
    requires
        splits_at(source, a, threshold),
        splits_at(source, b, threshold),
    ensures
        a == b,
{
    assert(a =~= b);
}

/// A cut holds nothing but the two sentinels.
pub proof fn lemma_split_binary(source: Seq<u8>, binary: Seq<u8>, threshold: u8)
    requires
        splits_at(source, binary, threshold),
    ensures
        is_binary(binary),
{
}

/// The complement of a two-level matrix is a two-level matrix.
pub proof fn lemma_invert_binary(levels: Seq<u8>)
    requires
        is_binary(levels),
    ensures
        is_binary(inverted(levels)),
{
}

/// A width-by-height buffer of 8-bit levels, stored row by row.
pub struct Matrix {
    width: usize,
    height: usize,
    levels: Vec<u8>,
}

impl Matrix {
    /// Number of columns.
    pub closed spec fn spec_width(&self) -> nat {
        self.width as nat
    }

    /// Number of rows.
    pub closed spec fn spec_height(&self) -> nat {
        self.height as nat
    }

    /// The levels in row-major order.
    pub closed spec fn view(&self) -> Seq<u8> {
        self.levels@
    }

    /// The matrix's invariant: at least one row and one column, within the
    /// limits, and exactly one level per cell.
    pub open spec fn wf(&self) -> bool {
        &&& 1 <= self.spec_width() <= MAX_DIMENSION
        &&& 1 <= self.spec_height() <= MAX_DIMENSION
        &&& self@.len() == self.spec_height() * self.spec_width()
    }

    /// The level in row `r`, column `c`.
    pub open spec fn at(&self, r: int, c: int) -> u8 {
        self@[r * self.spec_width() + c]
    }

    /// Same width and height as `grid`.
    pub open spec fn shaped_like(&self, grid: &Grid) -> bool {
        self.spec_width() == grid.spec_width() && self.spec_height() == grid.spec_height()
    }

    /// Takes a buffer from the numeric back end. Succeeds exactly when both
    /// dimensions are between 1 and [`MAX_DIMENSION`] and the buffer holds
    /// width times height levels.
    pub fn from_parts(width: usize, height: usize, levels: Vec<u8>) -> (result: Result<
        Matrix,
        ProcessingFault,
    >)
        ensures
            match result {
                Ok(m) => {
                    &&& m.wf()
                    &&& m.spec_width() == width
                    &&& m.spec_height() == height
                    &&& m@ == levels@
                },
                Err(fault) => {
                    &&& fault == ProcessingFault::Dimensions
                    &&& !(1 <= width <= MAX_DIMENSION && 1 <= height <= MAX_DIMENSION
                        && levels@.len() == height * width)
                },
            },
    {
        if width < 1 || width > MAX_DIMENSION || height < 1 || height > MAX_DIMENSION {
            return Err(ProcessingFault::Dimensions);
        }
        assert(height * width <= 0x7fff_ffff * 0x7fff_ffff) by (nonlinear_arith)
            requires
                0 <= height <= 0x7fff_ffff,
                0 <= width <= 0x7fff_ffff,
        ;
        let cells: u64 = (height as u64) * (width as u64);
        if levels.len() as u64 != cells {
            return Err(ProcessingFault::Dimensions);
        }
        Ok(Matrix { width, height, levels })
    }

    /// The matrix of `grid`'s dimensions that holds `level` in every cell.
    pub fn constant(grid: &Grid, level: u8) -> (m: Matrix)
        requires
            grid.wf(),
        ensures
            m.wf(),
            m.shaped_like(grid),
            forall|i: int| 0 <= i < m@.len() ==> m@[i] == level,
    {
        let n: usize = grid.samples().len();
        let mut levels: Vec<u8> = Vec::new();
        let mut i: usize = 0;
        while i < n
            invariant
                0 <= i <= n,
                levels@.len() == i,
                forall|k: int| 0 <= k < i ==> levels@[k] == level,
            decreases n - i,
        {
            levels.push(level);
            i += 1;
        }
        Matrix { width: grid.width(), height: grid.height(), levels }
    }

    /// Number of columns.
    pub fn width(&self) -> (w: usize)
        ensures
            w == self.spec_width(),
    {
        self.width
    }

    /// Number of rows.
    pub fn height(&self) -> (h: usize)
        ensures
            h == self.spec_height(),
    {
        self.height
    }

    /// The levels in row-major order, as the raster codec takes them.
    pub fn levels(&self) -> (all: &Vec<u8>)
        ensures
            all@ == self@,
    {
        &self.levels
    }

    /// The level in row `r`, column `c`.
    pub fn level(&self, r: usize, c: usize) -> (v: u8)
        requires
            self.wf(),
            r < self.spec_height(),
            c < self.spec_width(),
        ensures
            v == self.at(r as int, c as int),
    {
        let n: usize = self.levels.len();
        proof {
            lemma_cell_index(r as int, c as int, self.height as int, self.width as int);
            assert(r * self.width <= r * self.width + c < n);
        }
        self.levels[r * self.width + c]
    }

    /// The polarity flip: every level `v` becomes `HIGH - v`.
    pub fn invert(&self) -> (out: Matrix)
        ensures
            out@ == inverted(self@),
            out.spec_width() == self.spec_width(),
            out.spec_height() == self.spec_height(),
            self.wf() ==> out.wf(),
    {
        let n: usize = self.levels.len();
        let mut levels: Vec<u8> = Vec::new();
        let mut i: usize = 0;
        while i < n
            invariant
                0 <= i <= n,
                n == self.levels@.len(),
                levels@.len() == i,
                forall|k: int| 0 <= k < i ==> levels@[k] == complement(self.levels@[k]),
            decreases n - i,
        {
            levels.push(HIGH - self.levels[i]);
            i += 1;
        }
        assert(levels@ =~= inverted(self.levels@));
        Matrix { width: self.width, height: self.height, levels }
    }

    /// Whether the matrix holds nothing but the two sentinels.
    pub fn is_two_level(&self) -> (yes: bool)
        ensures
            yes == is_binary(self@),
    {
        let n: usize = self.levels.len();
        let mut i: usize = 0;
        while i < n
            invariant
                0 <= i <= n,
                n == self.levels@.len(),
                forall|k: int| 0 <= k < i ==> self.levels@[k] == LOW || self.levels@[k] == HIGH,
            decreases n - i,
        {
            let v: u8 = self.levels[i];
            if v != LOW && v != HIGH {
                return false;
            }
            i += 1;
        }
        true
    }

    /// The least threshold at which this matrix is a cut of `source`, or
    /// `None` when it is a cut of `source` at no threshold.
    pub fn split_threshold(&self, source: &Matrix) -> (found: Option<u8>)
        ensures
            match found {
                Some(t) => {
                    &&& splits_at(source@, self@, t)
                    &&& forall|u: u8| u < t ==> !splits_at(source@, self@, u)
                },
                None => forall|u: u8| !splits_at(source@, self@, u),
            },
    {
        let n: usize = source.levels.len();
        if self.levels.len() != n {
            return None;
        }
        // The greatest source level under a low cell, and the least under a
        // high cell; -1 and 256 while no such cell was met.
        let mut under_low: i32 = -1;
        let mut under_high: i32 = 256;
        let ghost mut low_at: int = -1;
        let ghost mut high_at: int = -1;
        let mut i: usize = 0;
        while i < n
            invariant
                0 <= i <= n,
                n == source.levels@.len(),
                n == self.levels@.len(),
                -1 <= under_low <= 255,
                0 <= under_high <= 256,
                forall|k: int| 0 <= k < i ==> self.levels@[k] == LOW || self.levels@[k] == HIGH,
                forall|k: int|
                    0 <= k < i && self.levels@[k] == LOW ==> source.levels@[k] <= under_low,
                forall|k: int|
                    0 <= k < i && self.levels@[k] == HIGH ==> source.levels@[k] >= under_high,
                under_low >= 0 ==> 0 <= low_at < i && self.levels@[low_at] == LOW
                    && source.levels@[low_at] == under_low,
                under_high <= 255 ==> 0 <= high_at < i && self.levels@[high_at] == HIGH
                    && source.levels@[high_at] == under_high,
            decreases n - i,
        {
            let b: u8 = self.levels[i];
            let s: i32 = source.levels[i] as i32;
            if b == LOW {
                if s > under_low {
                    under_low = s;
                    proof {
                        low_at = i as int;
                    }
                }
            } else if b == HIGH {
                if s < under_high {
                    under_high = s;
                    proof {
                        high_at = i as int;
                    }
                }
            } else {
                assert forall|u: u8| !splits_at(source@, self@, u) by {
                    assert(self@[i as int] != LOW && self@[i as int] != HIGH);
                }
                return None;
            }
            i += 1;
        }
        let floor: i32 = if under_low < 0 {
            0
        } else {
            under_low
        };
        if floor < under_high {
            let t: u8 = floor as u8;
            assert(splits_at(source@, self@, t));
            assert forall|u: u8| u < t implies !splits_at(source@, self@, u) by {
                assert(self@[low_at] == LOW && source@[low_at] > u);
            }
            Some(t)
        } else {
            assert forall|u: u8| !splits_at(source@, self@, u) by {
                assert(self@[high_at] == HIGH && source@[high_at] == under_high);
                if under_low >= 0 {
                    assert(self@[low_at] == LOW && source@[low_at] == under_low);
                }
            }
            None
        }
    }
}

} // verus!
