//! Unsigned integers of 320 bits.
//!
//! A single-precision number is a 24-bit integer times a power of two
//! between 2^-149 and 2^104. In units of 2^-149 every finite number is thus
//! an integer below 2^278, and the products this crate forms of such numbers
//! with a level stay below 2^288. Five 64-bit limbs hold them exactly.

use vstd::prelude::*;
use vstd::arithmetic::power2::{lemma2_to64, lemma_pow2_adds, pow2};

verus! {

/// 2^64: the weight of the second limb.
pub open spec fn w1() -> int {
    0x1_0000_0000_0000_0000
}

/// 2^128: the weight of the third limb.
pub open spec fn w2() -> int {
    0x1_0000_0000_0000_0000_0000_0000_0000_0000int
}

/// 2^192: the weight of the fourth limb.
pub open spec fn w3() -> int {
    0x1_0000_0000_0000_0000_0000_0000_0000_0000_0000_0000_0000_0000int
}

/// 2^256: the weight of the fifth limb.
pub open spec fn w4() -> int {
    0x1_0000_0000_0000_0000_0000_0000_0000_0000_0000_0000_0000_0000_0000_0000_0000_0000int
}

/// 2^320: one more than the greatest value five limbs hold.
pub open spec fn w5() -> int {
    0x1_0000_0000_0000_0000_0000_0000_0000_0000_0000_0000_0000_0000_0000_0000_0000_0000_0000_0000_0000_0000int
}

/// Five limbs, least significant first.
#[derive(Debug, Clone, Copy, PartialEq, Eq, Structural)]
pub struct Wide {
    a0: u64,
    a1: u64,
    a2: u64,
    a3: u64,
    a4: u64,
}

/// The powers of two that weigh the limbs.
pub proof fn lemma_weights()
    ensures
        pow2(64) == w1(),
        pow2(128) == w2(),
        pow2(192) == w3(),
        pow2(256) == w4(),
        pow2(320) == w5(),
{
    lemma2_to64();
    lemma_pow2_adds(64, 64);
    lemma_pow2_adds(128, 64);
    lemma_pow2_adds(192, 64);
    lemma_pow2_adds(256, 64);
    assert(w1() * w1() == w2()) by (nonlinear_arith);
    assert(w2() * w1() == w3()) by (nonlinear_arith);
    assert(w3() * w1() == w4()) by (nonlinear_arith);
    assert(w4() * w1() == w5()) by (nonlinear_arith);
}

impl Wide {
    /// The integer the limbs stand for.
    pub closed spec fn value(self) -> int {
        self.a0 + self.a1 * w1() + self.a2 * w2() + self.a3 * w3() + self.a4 * w4()
    }

    /// Every value is a natural number below 2^320.
    pub proof fn lemma_range(self)
        ensures
            0 <= self.value() < w5(),
    {
    }

    /// Zero.
    pub fn zero() -> (z: Wide)
        ensures
            z.value() == 0,
    {
        Wide { a0: 0, a1: 0, a2: 0, a3: 0, a4: 0 }
    }

    /// `m` times 2^`shift`.
    pub fn shifted(m: u32, shift: u32) -> (out: Wide)
        requires
            m < 0x100_0000,
            shift <= 254,
        ensures
            out.value() == m * pow2(shift as nat),
    {
        let q: u32 = shift / 64;
        let b: u32 = shift % 64;
        let unit: u64 = 1u64 << b;
        proof {
            lemma2_to64();
            vstd::bits::lemma_u64_pow2_no_overflow(b as nat);
            vstd::bits::lemma_u64_shl_is_mul(1u64, b as u64);
            assert(unit == pow2(b as nat));
            assert(unit <= 0x8000_0000_0000_0000) by {
                vstd::arithmetic::power2::lemma2_to64_rest();
                if b < 63 {
                    vstd::arithmetic::power2::lemma_pow2_strictly_increases(b as nat, 63);
                }
            }
            assert(m * unit <= 0x100_0000 * 0x8000_0000_0000_0000) by (nonlinear_arith)
                requires
                    0 <= m < 0x100_0000,
                    0 <= unit <= 0x8000_0000_0000_0000,
            ;
        }
        let t: u128 = (m as u128) * (unit as u128);
        let lo: u64 = (t % 0x1_0000_0000_0000_0000) as u64;
        let hi: u64 = (t / 0x1_0000_0000_0000_0000) as u64;
        proof {
            lemma_weights();
            lemma_pow2_adds((64 * q) as nat, b as nat);
            assert(shift == 64 * q + b);
            assert(t == lo + hi * w1());
            let p = pow2((64 * q) as nat);
            assert(pow2(shift as nat) == p * unit);
            assert(m * (p * unit) == (m * unit) * p) by (nonlinear_arith);
            assert((lo + hi * w1()) * p == lo * p + hi * (w1() * p)) by (nonlinear_arith);
            assert(pow2(0) == 1);
            assert(w1() * w1() == w2()) by (nonlinear_arith);
            assert(w1() * w2() == w3()) by (nonlinear_arith);
            assert(w1() * w3() == w4()) by (nonlinear_arith);
        }
        if q == 0 {
            Wide { a0: lo, a1: hi, a2: 0, a3: 0, a4: 0 }
        } else if q == 1 {
            Wide { a0: 0, a1: lo, a2: hi, a3: 0, a4: 0 }
        } else if q == 2 {
            Wide { a0: 0, a1: 0, a2: lo, a3: hi, a4: 0 }
        } else {
            Wide { a0: 0, a1: 0, a2: 0, a3: lo, a4: hi }
        }
    }

    /// The sum of two values that together stay below 2^320.
    pub fn plus(self, other: Wide) -> (sum: Wide)
        requires
            self.value() + other.value() < w5(),
        ensures
            sum.value() == self.value() + other.value(),
    {
        let s0: u128 = self.a0 as u128 + other.a0 as u128;
        let s1: u128 = self.a1 as u128 + other.a1 as u128 + s0 / 0x1_0000_0000_0000_0000;
        let s2: u128 = self.a2 as u128 + other.a2 as u128 + s1 / 0x1_0000_0000_0000_0000;
        let s3: u128 = self.a3 as u128 + other.a3 as u128 + s2 / 0x1_0000_0000_0000_0000;
        let s4: u128 = self.a4 as u128 + other.a4 as u128 + s3 / 0x1_0000_0000_0000_0000;
        Wide {
            a0: (s0 % 0x1_0000_0000_0000_0000) as u64,
            a1: (s1 % 0x1_0000_0000_0000_0000) as u64,
            a2: (s2 % 0x1_0000_0000_0000_0000) as u64,
            a3: (s3 % 0x1_0000_0000_0000_0000) as u64,
            a4: s4 as u64,
        }
    }

    /// The difference of two values, the greater one first.
    pub fn minus(self, other: Wide) -> (diff: Wide)
        requires
            other.value() <= self.value(),
        ensures
            diff.value() == self.value() - other.value(),
    {
        let d0: u128 = 0x1_0000_0000_0000_0000 + self.a0 as u128 - other.a0 as u128;
        let d1: u128 = 0xffff_ffff_ffff_ffff + self.a1 as u128 - other.a1 as u128 + d0
            / 0x1_0000_0000_0000_0000;
        let d2: u128 = 0xffff_ffff_ffff_ffff + self.a2 as u128 - other.a2 as u128 + d1
            / 0x1_0000_0000_0000_0000;
        let d3: u128 = 0xffff_ffff_ffff_ffff + self.a3 as u128 - other.a3 as u128 + d2
            / 0x1_0000_0000_0000_0000;
        let d4: u128 = 0xffff_ffff_ffff_ffff + self.a4 as u128 - other.a4 as u128 + d3
            / 0x1_0000_0000_0000_0000;
        Wide {
            a0: (d0 % 0x1_0000_0000_0000_0000) as u64,
            a1: (d1 % 0x1_0000_0000_0000_0000) as u64,
            a2: (d2 % 0x1_0000_0000_0000_0000) as u64,
            a3: (d3 % 0x1_0000_0000_0000_0000) as u64,
            a4: (d4 % 0x1_0000_0000_0000_0000) as u64,
        }
    }

    /// The product with a factor, where it stays below 2^320.
    pub fn times(self, factor: u64) -> (product: Wide)
        requires
            self.value() * factor < w5(),
        ensures
            product.value() == self.value() * factor,
    {
        proof {
            let k = factor as int;
            assert(0 <= self.a0 * k <= 0xffff_ffff_ffff_ffff * 0xffff_ffff_ffff_ffff)
                by (nonlinear_arith)
                requires
                    0 <= self.a0 <= 0xffff_ffff_ffff_ffff,
                    0 <= k <= 0xffff_ffff_ffff_ffff,
            ;
            assert(0 <= self.a1 * k <= 0xffff_ffff_ffff_ffff * 0xffff_ffff_ffff_ffff)
                by (nonlinear_arith)
                requires
                    0 <= self.a1 <= 0xffff_ffff_ffff_ffff,
                    0 <= k <= 0xffff_ffff_ffff_ffff,
            ;
            assert(0 <= self.a2 * k <= 0xffff_ffff_ffff_ffff * 0xffff_ffff_ffff_ffff)
                by (nonlinear_arith)
                requires
                    0 <= self.a2 <= 0xffff_ffff_ffff_ffff,
                    0 <= k <= 0xffff_ffff_ffff_ffff,
            ;
            assert(0 <= self.a3 * k <= 0xffff_ffff_ffff_ffff * 0xffff_ffff_ffff_ffff)
                by (nonlinear_arith)
                requires
                    0 <= self.a3 <= 0xffff_ffff_ffff_ffff,
                    0 <= k <= 0xffff_ffff_ffff_ffff,
            ;
            assert(0 <= self.a4 * k <= 0xffff_ffff_ffff_ffff * 0xffff_ffff_ffff_ffff)
                by (nonlinear_arith)
                requires
                    0 <= self.a4 <= 0xffff_ffff_ffff_ffff,
                    0 <= k <= 0xffff_ffff_ffff_ffff,
            ;
            assert(self.value() * k == self.a0 * k + (self.a1 * k) * w1() + (self.a2 * k) * w2()
                + (self.a3 * k) * w3() + (self.a4 * k) * w4()) by (nonlinear_arith)
                requires
                    self.value() == self.a0 + self.a1 * w1() + self.a2 * w2() + self.a3 * w3()
                        + self.a4 * w4(),
            ;
        }
        let p0: u128 = (self.a0 as u128) * (factor as u128);
        let p1: u128 = (self.a1 as u128) * (factor as u128) + p0 / 0x1_0000_0000_0000_0000;
        let p2: u128 = (self.a2 as u128) * (factor as u128) + p1 / 0x1_0000_0000_0000_0000;
        let p3: u128 = (self.a3 as u128) * (factor as u128) + p2 / 0x1_0000_0000_0000_0000;
        let p4: u128 = (self.a4 as u128) * (factor as u128) + p3 / 0x1_0000_0000_0000_0000;
        Wide {
            a0: (p0 % 0x1_0000_0000_0000_0000) as u64,
            a1: (p1 % 0x1_0000_0000_0000_0000) as u64,
            a2: (p2 % 0x1_0000_0000_0000_0000) as u64,
            a3: (p3 % 0x1_0000_0000_0000_0000) as u64,
            a4: p4 as u64,
        }
    }

    /// Whether this value is below the other.
    pub fn below(self, other: Wide) -> (yes: bool)
        ensures
            yes == (self.value() < other.value()),
    {
        if self.a4 != other.a4 {
            self.a4 < other.a4
        } else if self.a3 != other.a3 {
            self.a3 < other.a3
        } else if self.a2 != other.a2 {
            self.a2 < other.a2
        } else if self.a1 != other.a1 {
            self.a1 < other.a1
        } else {
            self.a0 < other.a0
        }
    }
}

} // verus!
