//! Classification and order of IEEE 754 double-precision values, read from
//! their 64-bit encodings.
//!
//! An encoding carries a sign in its top bit and a magnitude in the other 63.
//! Among the encodings that are numbers, magnitudes are ordered as the
//! absolute values they stand for, so the order of two doubles is the order
//! of their signed magnitudes, with both zeros at the same place.

use vstd::prelude::*;

verus! {

/// The encoding whose only set bit is the sign: negative zero.
pub const SIGN: u64 = 0x8000_0000_0000_0000;

/// The encoding of positive infinity. Every larger magnitude is not a number.
pub const INFINITY: u64 = 0x7FF0_0000_0000_0000;

/// The encoding of positive zero.
pub const ZERO: u64 = 0;

/// The encoding without its sign: that of the absolute value.
pub open spec fn magnitude(bits: u64) -> nat {
    if bits >= SIGN {
        (bits - SIGN) as nat
    } else {
        bits as nat
    }
}

/// Whether the sign bit is set.
pub open spec fn negative(bits: u64) -> bool {
    bits >= SIGN
}

/// Whether the encoding is not a number.
pub open spec fn nan(bits: u64) -> bool {
    magnitude(bits) > INFINITY
}

/// Whether the encoding is one of the two zeros.
pub open spec fn zero(bits: u64) -> bool {
    magnitude(bits) == 0
}

/// The place of a number on the line: its magnitude, negated under a sign.
pub open spec fn rank(bits: u64) -> int {
    if negative(bits) {
        -(magnitude(bits) as int)
    } else {
        magnitude(bits) as int
    }
}

/// `a < b` as doubles: false as soon as either is not a number.
pub open spec fn below(a: u64, b: u64) -> bool {
    !nan(a) && !nan(b) && rank(a) < rank(b)
}

/// The encoding of the absolute value.
pub fn abs(bits: u64) -> (r: u64)
    ensures
        r == magnitude(bits),
        !negative(r),
{
    if bits >= SIGN {
        bits - SIGN
    } else {
        bits
    }
}

/// Decides whether the encoding is not a number.
pub fn is_nan(bits: u64) -> (r: bool)
    ensures
        r == nan(bits),
{
    abs(bits) > INFINITY
}

/// Decides whether the encoding is a zero, of either sign.
pub fn is_zero(bits: u64) -> (r: bool)
    ensures
        r == zero(bits),
{
    abs(bits) == 0
}

/// Decides `a < b` as the hardware would on the two doubles.
pub fn less_than(a: u64, b: u64) -> (r: bool)
    ensures
        r == below(a, b),
{
    let ma: u64 = abs(a);
    let mb: u64 = abs(b);
    if ma > INFINITY || mb > INFINITY {
        false
    } else if a >= SIGN {
        if b >= SIGN {
            mb < ma
        } else {
            ma != 0 || mb != 0
        }
    } else {
        b < SIGN && ma < mb
    }
}

} // verus!
