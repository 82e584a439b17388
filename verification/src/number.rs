//! Facts about 32-bit floating-point numbers that can be read off their
//! IEEE-754 bit patterns, and the widening of an integer to such a pattern.
//!
//! The evaluator holds every floating-point value as its bit pattern: one
//! sign bit, eight exponent bits, twenty-three fraction bits. Sign tests,
//! negation, equality and ordering are decided here on the pattern alone.
//! Arithmetic on two patterns is asked of the host.

use vstd::prelude::*;
use vstd::arithmetic::power2::*;

verus! {

/// Two to the power 31: the weight of the sign bit.
pub const SIGN_BIT: u32 = 0x8000_0000;

/// The magnitude bits of positive infinity; a larger magnitude is a NaN.
pub const INFINITY_BITS: u32 = 0x7f80_0000;

/// Two to the power 23: the weight of the lowest exponent bit.
pub const FRACTION_RANGE: u32 = 0x80_0000;

/// The pattern with its sign bit cleared.
pub open spec fn float_magnitude(bits: u32) -> int {
    if bits >= SIGN_BIT {
        bits - SIGN_BIT
    } else {
        bits as int
    }
}

/// Whether the sign bit is set.
pub open spec fn float_is_negative(bits: u32) -> bool {
    bits >= SIGN_BIT
}

/// Whether the pattern is a NaN.
pub open spec fn float_is_nan(bits: u32) -> bool {
    float_magnitude(bits) > INFINITY_BITS
}

/// Whether the pattern is a zero of either sign.
pub open spec fn float_is_zero(bits: u32) -> bool {
    float_magnitude(bits) == 0
}

/// An integer that orders the patterns, NaNs apart, as the numbers they stand
/// for: the magnitude, negated where the sign bit is set. Both zeros have
/// the key 0.
pub open spec fn float_key(bits: u32) -> int {
    if float_is_negative(bits) {
        -float_magnitude(bits)
    } else {
        float_magnitude(bits)
    }
}

/// Numeric equality: a NaN equals nothing, the two zeros are equal.
pub open spec fn float_eq(a: u32, b: u32) -> bool {
    !float_is_nan(a) && !float_is_nan(b) && float_key(a) == float_key(b)
}

/// Numeric order: a NaN is neither below nor above anything.
pub open spec fn float_lt(a: u32, b: u32) -> bool {
    !float_is_nan(a) && !float_is_nan(b) && float_key(a) < float_key(b)
}

/// The pattern with its sign bit flipped.
pub open spec fn float_negated(bits: u32) -> u32 {
    if bits >= SIGN_BIT {
        (bits - SIGN_BIT) as u32
    } else {
        (bits + SIGN_BIT) as u32
    }
}

/// The position of the highest set bit of `a`: the `e` with
/// `pow2(e) <= a < pow2(e + 1)`, and 0 for 0.
pub open spec fn log2_floor(a: nat) -> nat
    decreases a,
{
    if a <= 1 {
        0
    } else {
        1 + log2_floor(a / 2)
    }
}

/// The 24-bit significand of the magnitude `a`, whose highest set bit is at
/// position `e`: `a` scaled to 24 bits, and rounded to the nearest value
/// where bits are lost, a tie going to the even one.
pub open spec fn rounded_significand(a: nat, e: nat) -> nat {
    if e <= 23 {
        a * pow2((23 - e) as nat)
    } else {
        let d = pow2((e - 23) as nat);
        let q = a / d;
        let r = a % d;
        if 2 * r > d || (2 * r == d && q % 2 == 1) {
            q + 1
        } else {
            q
        }
    }
}

/// The pattern of the floating-point number nearest to the integer `i`
/// (ties to even), which is what widening an integer gives.
///
/// A significand that rounding carried up to `pow2(24)` runs over into the
/// exponent field, which is the pattern of the next power of two.
pub open spec fn float_from_int(i: i32) -> u32 {
    if i == 0 {
        0
    } else {
        let a = (if i < 0 { -i } else { i as int }) as nat;
        let e = log2_floor(a);
        let sign = if i < 0 { SIGN_BIT as int } else { 0 };
        (sign + (e + 126) * FRACTION_RANGE + rounded_significand(a, e)) as u32
    }
}

/// Whether the pattern is a NaN.
pub fn is_nan(bits: u32) -> (r: bool)
    ensures
        r == float_is_nan(bits),
{
    let mag: u32 = if bits >= SIGN_BIT { bits - SIGN_BIT } else { bits };
    mag > INFINITY_BITS
}

/// Whether the pattern is a zero of either sign.
pub fn is_zero(bits: u32) -> (r: bool)
    ensures
        r == float_is_zero(bits),
{
    bits == 0 || bits == SIGN_BIT
}

/// The pattern of the negated number.
pub fn negated(bits: u32) -> (r: u32)
    ensures
        r == float_negated(bits),
{
    if bits >= SIGN_BIT {
        bits - SIGN_BIT
    } else {
        bits + SIGN_BIT
    }
}

/// The key of a pattern, as `float_key` defines it.
fn key(bits: u32) -> (r: i64)
    ensures
        r == float_key(bits),
{
    if bits >= SIGN_BIT {
        let mag: u32 = bits - SIGN_BIT;
        let m: i64 = mag as i64;
        -m
    } else {
        bits as i64
    }
}

/// Whether the two patterns stand for equal numbers.
pub fn equal(a: u32, b: u32) -> (r: bool)
    ensures
        r == float_eq(a, b),
{
    !is_nan(a) && !is_nan(b) && key(a) == key(b)
}

/// Whether the number of the first pattern is below that of the second.
pub fn less(a: u32, b: u32) -> (r: bool)
    ensures
        r == float_lt(a, b),
{
    !is_nan(a) && !is_nan(b) && key(a) < key(b)
}

/// `log2_floor` is the position of the highest set bit.
proof fn lemma_log2_floor_bounds(a: nat, e: nat)
    requires
        pow2(e) <= a < pow2(e + 1),
    ensures
        log2_floor(a) == e,
    decreases e,
{
    lemma_pow2_unfold(e + 1);
    if e == 0 {
        lemma2_to64();
    } else {
        lemma_pow2_unfold(e);
        lemma_log2_floor_bounds(a / 2, (e - 1) as nat);
    }
}

/// Widens an integer to the nearest floating-point pattern.
pub fn from_int(i: i32) -> (r: u32)
    ensures
        r == float_from_int(i),
{
    if i == 0 {
        return 0;
    }
    let wide: i64 = i as i64;
    let a: u64 = if wide < 0 { (-wide) as u64 } else { wide as u64 };
    let sign: u64 = if i < 0 { 0x8000_0000 } else { 0 };
    let mut e: u64 = 0;
    let mut p: u64 = 1;
    proof {
        lemma2_to64();
    }
    while p * 2 <= a
        invariant
            1 <= a <= 0x8000_0000,
            p == pow2(e as nat),
            1 <= p <= a,
            e <= 31,
        decreases a - p,
    {
        proof {
            lemma2_to64();
            lemma_pow2_unfold((e + 1) as nat);
            if e >= 31 {
                lemma_pow2_strictly_increases(31, (e + 1) as nat);
            }
        }
        p = p * 2;
        e = e + 1;
    }
    proof {
        lemma_pow2_unfold((e + 1) as nat);
        lemma_log2_floor_bounds(a as nat, e as nat);
    }
    let mut m: u64;
    if e <= 23 {
        m = a;
        let mut k: u64 = e;
        proof {
            lemma2_to64();
            if e < 23 {
                lemma_pow2_strictly_increases(e as nat, 23);
            }
            assert(pow2((k - e) as nat) == 1);
            assert(pow2(23) == 0x80_0000);
        }
        while k < 23
            invariant
                e <= k <= 23,
                p == pow2(e as nat),
                p <= a < 2 * p,
                m == a * pow2((k - e) as nat),
                pow2(k as nat) <= m < 2 * pow2(k as nat),
                pow2(k as nat) <= 0x80_0000,
            decreases 23 - k,
        {
            proof {
                lemma2_to64();
                lemma_pow2_unfold((k + 1 - e) as nat);
                lemma_pow2_unfold((k + 1) as nat);
                if k + 1 < 23 {
                    lemma_pow2_strictly_increases((k + 1) as nat, 23);
                }
                assert(a * (2 * pow2((k - e) as nat)) == 2 * (a * pow2((k - e) as nat)))
                    by (nonlinear_arith);
            }
            m = m * 2;
            k = k + 1;
        }
    } else {
        let mut d: u64 = 1;
        let mut k: u64 = 23;
        proof {
            lemma2_to64();
        }
        while k < e
            invariant
                23 <= k <= e <= 31,
                d == pow2((k - 23) as nat),
                d <= 0x100,
            decreases e - k,
        {
            proof {
                lemma2_to64();
                lemma_pow2_unfold((k + 1 - 23) as nat);
                if k + 1 - 23 < 8 {
                    lemma_pow2_strictly_increases((k + 1 - 23) as nat, 8);
                }
            }
            d = d * 2;
            k = k + 1;
        }
        let q: u64 = a / d;
        let r: u64 = a % d;
        if 2 * r > d || (2 * r == d && q % 2 == 1) {
            m = q + 1;
        } else {
            m = q;
        }
        proof {
            lemma2_to64();
            lemma_pow2_adds((e - 23) as nat, 23);
            lemma_pow2_adds((e - 23) as nat, 24);
            assert(pow2(e as nat) == d * 0x80_0000);
            assert(pow2((e + 1) as nat) == d * 0x100_0000);
            assert(0x80_0000 <= q < 0x100_0000) by (nonlinear_arith)
                requires
                    d * 0x80_0000 <= a < d * 0x100_0000,
                    q == a / d,
                    d > 0,
            ;
        }
    }
    assert(m == rounded_significand(a as nat, e as nat));
    assert(0x80_0000 <= m <= 0x100_0000);
    let bits: u64 = sign + (e + 126) * 0x80_0000 + m;
    bits as u32
}

} // verus!
