//! Sign and order of IEEE 754 binary64 values, read off their bit patterns.
//!
//! A pattern is one sign bit, eleven exponent bits and fifty-two fraction
//! bits. Every pattern that is not a NaN stands for a whole multiple of
//! 2^-1074; [`value`] is that multiple, and the order of the numbers is the
//! order of these integers.

use vstd::prelude::*;
use vstd::arithmetic::power2::{pow2, lemma_pow2_pos, lemma_pow2_unfold, lemma_pow2_strictly_increases};

verus! {

/// The bit that holds the sign.
pub const SIGN_BIT: u64 = 0x8000_0000_0000_0000;

/// Every bit but the sign.
pub const MAGNITUDE_MASK: u64 = 0x7fff_ffff_ffff_ffff;

/// Positive infinity: all exponent bits set, no fraction bit set.
pub const INFINITY: u64 = 0x7ff0_0000_0000_0000;

/// Two to the fifty-second: the weight of the lowest exponent bit, and the
/// leading bit that a normal number's significand carries implicitly.
pub const HIDDEN_BIT: u64 = 0x0010_0000_0000_0000;

/// The sign bit is set.
pub open spec fn negative(bits: u64) -> bool {
    bits >= SIGN_BIT
}

/// The pattern with its sign bit cleared.
pub open spec fn magnitude(bits: u64) -> u64 {
    if bits >= SIGN_BIT {
        (bits - SIGN_BIT) as u64
    } else {
        bits
    }
}

/// The pattern is a NaN: all exponent bits set and some fraction bit set.
pub open spec fn nan(bits: u64) -> bool {
    magnitude(bits) > INFINITY
}

/// The biased exponent field.
pub open spec fn exponent(bits: u64) -> nat {
    (magnitude(bits) / HIDDEN_BIT) as nat
}

/// The fraction field.
pub open spec fn fraction(bits: u64) -> nat {
    (magnitude(bits) % HIDDEN_BIT) as nat
}

/// The significand as a whole number: the fraction alone for a subnormal,
/// the fraction under the hidden bit otherwise.
pub open spec fn significand(bits: u64) -> nat {
    if exponent(bits) == 0 {
        fraction(bits)
    } else {
        (HIDDEN_BIT + fraction(bits)) as nat
    }
}

/// The power of two by which the significand is scaled, counted from 2^-1074.
pub open spec fn scale(bits: u64) -> nat {
    if exponent(bits) == 0 {
        0
    } else {
        (exponent(bits) - 1) as nat
    }
}

/// The absolute value in units of 2^-1074. An infinity gets 2^2098, the next
/// such number beyond every finite one.
pub open spec fn size(bits: u64) -> nat {
    significand(bits) * pow2(scale(bits))
}

/// The value in units of 2^-1074. Both zeros have the value 0. For a NaN the
/// number means nothing.
pub open spec fn value(bits: u64) -> int {
    if negative(bits) {
        -(size(bits) as int)
    } else {
        size(bits) as int
    }
}

/// `a < b` as IEEE 754 orders them: false when either is a NaN.
pub open spec fn below(a: u64, b: u64) -> bool {
    !nan(a) && !nan(b) && value(a) < value(b)
}

/// Among patterns of one sign, the larger pattern has the larger size.
pub proof fn lemma_size_strictly_increases(a: u64, b: u64)
    requires
        magnitude(a) < magnitude(b),
    ensures
        size(a) < size(b),
{
    let ea = exponent(a);
    let eb = exponent(b);
    let sa = significand(a) as int;
    let sb = significand(b) as int;
    let pa = pow2(scale(a)) as int;
    let pb = pow2(scale(b)) as int;
    let h = HIDDEN_BIT as int;
    lemma_pow2_pos(scale(a));
    lemma_pow2_pos(scale(b));
    assert(ea <= eb);
    if ea == eb {
        assert(sa * pa < sb * pb) by (nonlinear_arith)
            requires
                sa < sb,
                pa == pb,
                pa > 0,
        ;
    } else {
        assert(sa < 2 * h);
        assert(h <= sb);
        if ea == 0 {
            assert(pow2(0) == 1) by {
                vstd::arithmetic::power2::lemma2_to64();
            }
            assert(sa * pa < sb * pb) by (nonlinear_arith)
                requires
                    0 <= sa < h,
                    h <= sb,
                    pa == 1,
                    pb >= 1,
            ;
        } else {
            lemma_pow2_unfold(ea);
            if ea < scale(b) {
                lemma_pow2_strictly_increases(ea, scale(b));
            }
            assert(sa * pa < sb * pb) by (nonlinear_arith)
                requires
                    0 <= sa < 2 * h,
                    h <= sb,
                    pa > 0,
                    2 * pa <= pb,
            ;
        }
    }
}

/// Only the two zeros have size zero.
pub proof fn lemma_size_zero(a: u64)
    ensures
        size(a) == 0 <==> magnitude(a) == 0,
{
    if magnitude(a) > 0 {
        lemma_size_strictly_increases(0, a);
    }
    assert(size(0) == 0) by (nonlinear_arith)
        requires
            size(0) == 0 * pow2(scale(0)),
    ;
}

/// The value tells the pattern: two patterns that are no NaN and have one
/// value are one pattern, or they are the two zeros.
pub proof fn lemma_value_tells_pattern(a: u64, b: u64)
    requires
        !nan(a),
        !nan(b),
        value(a) == value(b),
    ensures
        a == b || (magnitude(a) == 0 && magnitude(b) == 0),
{
    if magnitude(a) < magnitude(b) {
        lemma_size_strictly_increases(a, b);
    }
    if magnitude(b) < magnitude(a) {
        lemma_size_strictly_increases(b, a);
    }
    lemma_size_zero(a);
}

/// Whether the pattern is a NaN.
pub fn is_nan(bits: u64) -> (r: bool)
    ensures
        r == nan(bits),
{
    abs(bits) > INFINITY
}

/// The pattern of the absolute value: the sign bit cleared, the rest kept.
pub fn abs(bits: u64) -> (r: u64)
    ensures
        r == magnitude(bits),
{
    assert(bits & 0x7fff_ffff_ffff_ffff == if bits >= 0x8000_0000_0000_0000 {
        (bits - 0x8000_0000_0000_0000) as u64
    } else {
        bits
    }) by (bit_vector);
    bits & MAGNITUDE_MASK
}

/// Whether `a < b` as numbers; false when either is a NaN.
pub fn lt(a: u64, b: u64) -> (r: bool)
    ensures
        r == below(a, b),
{
    let ma: u64 = abs(a);
    let mb: u64 = abs(b);
    if ma > INFINITY || mb > INFINITY {
        return false;
    }
    proof {
        if ma < mb {
            lemma_size_strictly_increases(a, b);
        }
        if mb < ma {
            lemma_size_strictly_increases(b, a);
        }
        lemma_size_zero(a);
        lemma_size_zero(b);
    }
    if a >= SIGN_BIT {
        if b >= SIGN_BIT {
            mb < ma
        } else {
            ma != 0 || mb != 0
        }
    } else {
        if b >= SIGN_BIT {
            false
        } else {
            ma < mb
        }
    }
}

} // verus!
