use vstd::prelude::*;

use crate::value::Num;

verus! {

pub open spec fn pow10(e: nat) -> nat
    decreases e,
{
    if e == 0 {
        1
    } else {
        10 * pow10((e - 1) as nat)
    }
}

/// The value of `mantissa * 10^exponent` with its sign, for a non-negative
/// exponent.
pub open spec fn integer_value(positive: bool, mantissa: u64, exponent: i16) -> int {
    let m = mantissa * pow10(exponent as nat);
    if positive {
        m
    } else {
        -m
    }
}

/// Whether the json crate finds the number with these parts equal to the
/// integer zero.
pub uninterp spec fn json_equals_zero(positive: bool, mantissa: u64, exponent: i16) -> bool;

/// The integer that the json crate reads from the number with these parts
/// (`as_fixed_point_i64` at decimal point 0).
pub uninterp spec fn json_fixed_point(positive: bool, mantissa: u64, exponent: i16) -> i64;

/// Compares `json::number::Number::from_parts(positive, mantissa, exponent)`
/// with `0` through json's `PartialEq<i32> for Number`. What the contract
/// claims, as json's source shows it: a zero mantissa is zero, and a
/// non-zero mantissa is not zero when the number is negative, when the
/// exponent is not positive, or when `mantissa * 10^exponent` fits in 64
/// bits. Left unsaid: json compares with wrapping multiplication, so a
/// product that overflows may compare equal to zero. The `requires` leaves
/// out the exponent `i16::MIN`, on which json's comparison overflows when it
/// negates the difference of the exponents.
#[verifier::external_body]
fn number_equals_zero(positive: bool, mantissa: u64, exponent: i16) -> (r: bool)
    requires
        exponent != i16::MIN,
    ensures
        r == json_equals_zero(positive, mantissa, exponent),
        mantissa == 0 ==> r,
        mantissa != 0 && (!positive || exponent <= 0) ==> !r,
        mantissa != 0 && 0 < exponent < 20 && mantissa * pow10(exponent as nat)
            < 0x1_0000_0000_0000_0000 ==> !r,
{
    json::number::Number::from_parts(positive, mantissa, exponent) == 0
}

/// Calls `as_fixed_point_i64(0)` on
/// `json::number::Number::from_parts(positive, mantissa, exponent)`. The
/// contract claims, as json's source shows it, that the result is the exact
/// integer `±mantissa * 10^exponent` when that fits in an `i64` and the
/// exponent is below 20. Left unsaid: past that range json multiplies with
/// wrapping. The `requires` leaves out the negative number whose mantissa is
/// 2^63, whose negation overflows in json.
#[verifier::external_body]
fn number_fixed_point(positive: bool, mantissa: u64, exponent: i16) -> (r: i64)
    requires
        exponent >= 0,
        positive || mantissa != 0x8000_0000_0000_0000,
    ensures
        r == json_fixed_point(positive, mantissa, exponent),
        exponent < 20 && mantissa * pow10(exponent as nat) <= i64::MAX ==> r == integer_value(
            positive,
            mantissa,
            exponent,
        ),
{
    json::number::Number::from_parts(positive, mantissa, exponent).as_fixed_point_i64(0).unwrap()
}

impl Num {
    /// Whether `mantissa * 10^exponent` is exact in 64 bits, for an exponent
    /// from 1 to 19.
    pub open spec fn spec_product_fits(self) -> bool {
        0 < self.exponent < 20 && self.mantissa * pow10(self.exponent as nat) < 0x1_0000_0000_0000_0000
    }

    /// Whether the number equals zero as json compares it with the integer
    /// 0: never for not-a-number; always for a zero mantissa; never for a
    /// negative number, one whose exponent is not positive, or one whose
    /// `mantissa * 10^exponent` fits in 64 bits; otherwise (the product
    /// wraps) as json's comparison finds.
    pub open spec fn spec_is_zero(self) -> bool {
        &&& !self.nan
        &&& (self.mantissa == 0 || (self.positive && self.exponent > 0 && !self.spec_product_fits()
            && json_equals_zero(self.positive, self.mantissa, self.exponent)))
    }

    /// The numbers on which json's comparison with 0 overflows: positive,
    /// with a non-zero mantissa and the exponent `i16::MIN`.
    pub open spec fn spec_zero_test_overflows(self) -> bool {
        !self.nan && self.positive && self.mantissa != 0 && self.exponent == i16::MIN
    }

    pub fn is_zero(&self) -> (r: bool)
        ensures
            r == self.spec_is_zero(),
            self.nan ==> !r,
            !self.nan && self.mantissa == 0 ==> r,
            !self.nan && self.mantissa != 0 && (!self.positive || self.exponent <= 0) ==> !r,
            !self.nan && self.mantissa != 0 && self.spec_product_fits() ==> !r,
    {
        if self.nan {
            false
        } else if self.mantissa == 0 {
            true
        } else if !self.positive || self.exponent <= 0 {
            false
        } else {
            number_equals_zero(self.positive, self.mantissa, self.exponent)
        }
    }

    /// Whether the number can serve as an index: it is not not-a-number, and
    /// its exponent is not negative.
    pub open spec fn spec_is_integral(self) -> bool {
        !self.nan && self.exponent >= 0
    }

    /// The one number that json cannot turn into an integer without
    /// overflow: the negative one with mantissa 2^63.
    pub open spec fn spec_overflows_index(self) -> bool {
        !self.positive && self.mantissa == 0x8000_0000_0000_0000
    }

    /// Whether `±mantissa * 10^exponent` is exact in an `i64`, for an
    /// exponent below 20.
    pub open spec fn spec_index_fits(self) -> bool {
        self.exponent < 20 && self.mantissa * pow10(self.exponent as nat) <= i64::MAX
    }

    /// The index that an integral number stands for: the exact integer
    /// where it fits in an `i64`; otherwise what json computes with wrapping.
    pub open spec fn spec_index(self) -> i64 {
        if self.spec_index_fits() {
            integer_value(self.positive, self.mantissa, self.exponent) as i64
        } else {
            json_fixed_point(self.positive, self.mantissa, self.exponent)
        }
    }

    /// The integer that an integral number stands for as an index.
    pub fn as_index(&self) -> (r: i64)
        requires
            self.spec_is_integral(),
            !self.spec_overflows_index(),
        ensures
            r == self.spec_index(),
            self.exponent < 20 && self.mantissa * pow10(self.exponent as nat) <= i64::MAX ==> r
                == integer_value(self.positive, self.mantissa, self.exponent),
    {
        number_fixed_point(self.positive, self.mantissa, self.exponent)
    }
}

} // verus!
