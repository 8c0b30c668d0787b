use vstd::prelude::*;

verus! {

/// The four arithmetic operators of the language.
#[derive(Debug, PartialEq, Eq, Clone, Copy)]
pub enum ArithOp {
    Add,
    Sub,
    Mul,
    Div,
}

/// The sign bit of a binary64 pattern.
pub const SIGN: u64 = 0x8000_0000_0000_0000;

/// Everything but the sign bit: exponent and fraction.
pub const MAGNITUDE: u64 = 0x7fff_ffff_ffff_ffff;

/// The magnitude of an infinity; a larger magnitude is not a number.
pub const INFINITY: u64 = 0x7ff0_0000_0000_0000;

/// Whether the pattern is a NaN.
pub open spec fn is_nan(x: u64) -> bool {
    (x & MAGNITUDE) > INFINITY
}

/// IEEE equality of two binary64 patterns: a NaN equals nothing, the two
/// zeros equal each other, and any other value equals only its own pattern.
pub open spec fn number_equal(a: u64, b: u64) -> bool {
    !is_nan(a) && !is_nan(b) && (a == b || ((a & MAGNITUDE) == 0 && (b & MAGNITUDE) == 0))
}

/// IEEE `<` on two binary64 patterns: false where either is a NaN; otherwise
/// the order of the values, in which the two zeros are equal, a negative
/// value is below a positive one, positive values grow with their magnitude
/// and negative values fall with it.
pub open spec fn number_less(a: u64, b: u64) -> bool {
    !is_nan(a) && !is_nan(b) && if a >= SIGN && b >= SIGN {
        (a & MAGNITUDE) > (b & MAGNITUDE)
    } else if a >= SIGN {
        (a & MAGNITUDE) != 0 || (b & MAGNITUDE) != 0
    } else if b >= SIGN {
        false
    } else {
        (a & MAGNITUDE) < (b & MAGNITUDE)
    }
}

/// Whether the value of `a` equals the value of `b`.
pub fn equal(a: u64, b: u64) -> (r: bool)
    ensures
        r == number_equal(a, b),
{
    let ma: u64 = a & MAGNITUDE;
    let mb: u64 = b & MAGNITUDE;
    if ma > INFINITY || mb > INFINITY {
        false
    } else {
        a == b || (ma == 0 && mb == 0)
    }
}

/// Whether the value of `a` is below the value of `b`.
pub fn less(a: u64, b: u64) -> (r: bool)
    ensures
        r == number_less(a, b),
{
    let ma: u64 = a & MAGNITUDE;
    let mb: u64 = b & MAGNITUDE;
    if ma > INFINITY || mb > INFINITY {
        false
    } else if a >= SIGN && b >= SIGN {
        ma > mb
    } else if a >= SIGN {
        ma != 0 || mb != 0
    } else if b >= SIGN {
        false
    } else {
        ma < mb
    }
}

/// No number is below itself, and a number equals itself unless it is a NaN.
pub proof fn law_number_order(a: u64, b: u64)
    ensures
        !number_less(a, a),
        number_equal(a, a) == !is_nan(a),
        number_equal(a, b) == number_equal(b, a),
        !(number_less(a, b) && number_less(b, a)),
        !(number_less(a, b) && number_equal(a, b)),
{
}

} // verus!
