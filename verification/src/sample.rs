//! Measurements as IEEE-754 binary32 bit patterns.
//!
//! A pattern's top bit is its sign and the low 31 bits are its magnitude.
//! Magnitudes up to that of infinity order exactly as the values they
//! encode; larger magnitudes encode no number (NaN).

use vstd::prelude::*;
use vstd::arithmetic::power2::{lemma_pow2_pos, lemma_pow2_strictly_increases, lemma_pow2_unfold, pow2};

verus! {

/// The sign bit of a pattern.
pub const SIGN_BIT: u32 = 0x8000_0000;

/// The magnitude of the two infinities; every larger magnitude is a NaN.
pub const INFINITY_MAGNITUDE: u32 = 0x7f80_0000;

/// The pattern of positive zero, which stands in for an unreadable field.
pub const ZERO: u32 = 0;

/// The low 31 bits of a pattern.
pub open spec fn magnitude(bits: u32) -> int {
    if bits >= SIGN_BIT {
        bits - SIGN_BIT
    } else {
        bits as int
    }
}

/// Whether a pattern encodes a number (finite or infinite) rather than a NaN.
pub open spec fn is_number(bits: u32) -> bool {
    magnitude(bits) <= INFINITY_MAGNITUDE
}

/// The signed magnitude of a pattern. Among numbers it orders as the encoded
/// values do, and both zeros share rank 0.
pub open spec fn rank(bits: u32) -> int {
    if bits >= SIGN_BIT {
        -magnitude(bits)
    } else {
        magnitude(bits)
    }
}

/// Whether `bits` encodes a number.
pub fn sample_is_number(bits: u32) -> (yes: bool)
    ensures
        yes == is_number(bits),
{
    let low: u32 = if bits >= SIGN_BIT {
        bits - SIGN_BIT
    } else {
        bits
    };
    low <= INFINITY_MAGNITUDE
}

/// The rank of `bits`.
pub fn sample_rank(bits: u32) -> (r: i64)
    ensures
        r == rank(bits),
{
    if bits >= SIGN_BIT {
        -((bits - SIGN_BIT) as i64)
    } else {
        bits as i64
    }
}

/// Whether a pattern encodes a finite number.
pub open spec fn is_finite(bits: u32) -> bool {
    magnitude(bits) < INFINITY_MAGNITUDE
}

/// The size of the number a finite magnitude encodes, in units of 2^-149.
/// The top eight bits are the exponent field `e`, the low 23 bits the
/// fraction `f`: the size is `f` where `e` is zero, and
/// `(2^23 + f) * 2^(e - 1)` elsewhere. The same formula gives the
/// magnitude of infinity the size 2^128 * 2^149.
pub open spec fn size_of(magnitude: int) -> int {
    let e = magnitude / 0x80_0000;
    let f = magnitude % 0x80_0000;
    if e == 0 {
        f
    } else {
        (0x80_0000 + f) * pow2((e - 1) as nat)
    }
}

/// The number that the finite patterns of a rank encode, in units of 2^-149.
pub open spec fn value_at(rank: int) -> int {
    if rank < 0 {
        -size_of(-rank)
    } else {
        size_of(rank)
    }
}

/// The number a finite pattern encodes, in units of 2^-149.
pub open spec fn scaled_value(bits: u32) -> int {
    value_at(rank(bits))
}

/// A greater magnitude encodes a greater size.
pub proof fn lemma_size_grows(small: int, large: int)
    requires
        0 <= small < large,
    ensures
        0 <= size_of(small) < size_of(large),
{
    let es = small / 0x80_0000;
    let fs = small % 0x80_0000;
    let el = large / 0x80_0000;
    let fl = large % 0x80_0000;
    assert(es <= el);
    if es == el {
        if es > 0 {
            let p = pow2((es - 1) as nat);
            lemma_pow2_pos((es - 1) as nat);
            assert((0x80_0000 + fs) * p < (0x80_0000 + fl) * p) by (nonlinear_arith)
                requires
                    0 <= fs < fl,
                    p > 0,
            ;
            assert(0 <= (0x80_0000 + fs) * p) by (nonlinear_arith)
                requires
                    0 <= fs,
                    p > 0,
            ;
        }
    } else {
        let q = pow2((el - 1) as nat);
        lemma_pow2_pos((el - 1) as nat);
        assert(0x80_0000 * q <= (0x80_0000 + fl) * q) by (nonlinear_arith)
            requires
                0 <= fl,
                q > 0,
        ;
        if es == 0 {
            assert(0x80_0000 * 1 <= 0x80_0000 * q) by (nonlinear_arith)
                requires
                    q >= 1,
            ;
        } else {
            let p = pow2((es - 1) as nat);
            lemma_pow2_pos((es - 1) as nat);
            lemma_pow2_unfold(es as nat);
            assert(pow2(es as nat) == 2 * p);
            if es < el - 1 {
                lemma_pow2_strictly_increases(es as nat, (el - 1) as nat);
            }
            assert(2 * p <= q);
            assert((0x80_0000 + fs) * p < 0x80_0000 * (2 * p)) by (nonlinear_arith)
                requires
                    0 <= fs < 0x80_0000,
                    p > 0,
            ;
            assert(0x80_0000 * (2 * p) <= 0x80_0000 * q) by (nonlinear_arith)
                requires
                    2 * p <= q,
            ;
            assert(0 <= (0x80_0000 + fs) * p) by (nonlinear_arith)
                requires
                    0 <= fs,
                    p > 0,
            ;
        }
    }
}

/// A greater rank stands for a greater number.
pub proof fn lemma_value_grows(lower: int, upper: int)
    requires
        lower < upper,
    ensures
        value_at(lower) < value_at(upper),
{
    assert(size_of(0) == 0);
    if lower >= 0 {
        lemma_size_grows(lower, upper);
    } else if upper <= 0 {
        lemma_size_grows(-upper, -lower);
    } else {
        lemma_size_grows(0, -lower);
        lemma_size_grows(0, upper);
    }
}

/// Every size is below 2^278.
pub proof fn lemma_size_bound(magnitude: int)
    requires
        0 <= magnitude < 0x8000_0000,
    ensures
        0 <= size_of(magnitude) < pow2(278),
{
    let e = magnitude / 0x80_0000;
    let f = magnitude % 0x80_0000;
    vstd::arithmetic::power2::lemma2_to64();
    vstd::arithmetic::power2::lemma_pow2_adds(24, 254);
    lemma_pow2_pos(254);
    if e == 0 {
        assert(0x100_0000 * 1 <= 0x100_0000 * pow2(254)) by (nonlinear_arith)
            requires
                pow2(254) >= 1,
        ;
    } else {
        let p = pow2((e - 1) as nat);
        lemma_pow2_pos((e - 1) as nat);
        if e - 1 < 254 {
            lemma_pow2_strictly_increases((e - 1) as nat, 254);
        }
        assert(0 <= (0x80_0000 + f) * p < 0x100_0000 * pow2(254)) by (nonlinear_arith)
            requires
                0 <= f < 0x80_0000,
                0 < p <= pow2(254),
        ;
    }
}

/// Among finite patterns the rank orders as the encoded numbers do, and
/// two patterns share a rank exactly when they encode the same number.
pub proof fn lemma_rank_orders_values(a: u32, b: u32)
    requires
        is_finite(a),
        is_finite(b),
    ensures
        rank(a) <= rank(b) <==> scaled_value(a) <= scaled_value(b),
        rank(a) == rank(b) <==> scaled_value(a) == scaled_value(b),
{
    if rank(a) < rank(b) {
        lemma_value_grows(rank(a), rank(b));
    } else if rank(b) < rank(a) {
        lemma_value_grows(rank(b), rank(a));
    }
}

/// The infinities bound the finite numbers: their ranks lie beyond every
/// finite rank, on either side.
pub proof fn lemma_infinities_bound(bits: u32)
    requires
        is_finite(bits),
    ensures
        -(INFINITY_MAGNITUDE as int) < rank(bits) < INFINITY_MAGNITUDE,
{
}

} // verus!
