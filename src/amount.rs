//! Fixed-precision money amounts.
//!
//! The ledger keeps every amount as a whole number of ten-thousandths, so
//! that sums and comparisons are exact. Records carry decimals of any scale;
//! they are brought to four fractional digits by `rust_decimal`'s rescaling.

use vstd::prelude::*;

verus! {

/// Largest magnitude of a decimal mantissa: 96 bits.
pub const MAX_MANTISSA: i128 = 79228162514264337593543950335;

/// Largest scale of a decimal.
pub const MAX_SCALE: u32 = 28;

/// Number of fractional digits the ledger keeps.
pub const SCALE: u32 = 4;

/// Largest magnitude of an amount, in ten-thousandths: a mantissa of 96 bits
/// read at scale 0.
pub const MAX_UNITS: i128 = 792281625142643375935439503350000;

/// Ten to the power `n`.
pub open spec fn pow10(n: nat) -> int
    decreases n,
{
    if n == 0 {
        1
    } else {
        10 * pow10((n - 1) as nat)
    }
}

/// What `Decimal::rescale` leaves of the decimal `mantissa` × 10^-`scale`
/// when asked for `target` fractional digits, as (mantissa, scale).
pub uninterp spec fn rescaled(mantissa: i128, scale: u32, target: u32) -> (i128, u32);

/// Relies on rust_decimal's `Decimal::from_i128_with_scale` (which panics on a
/// mantissa over 96 bits or a scale over 28) and `Decimal::rescale`: a value
/// with more fractional digits than `target` is rounded to `target` digits; one
/// with fewer keeps its value and gets the largest scale up to `target` that
/// its 96-bit mantissa allows.
#[verifier::external_body]
fn rescale(mantissa: i128, scale: u32, target: u32) -> (r: (i128, u32))
    requires
        -MAX_MANTISSA <= mantissa <= MAX_MANTISSA,
        scale <= MAX_SCALE,
        target <= MAX_SCALE,
    ensures
        r == rescaled(mantissa, scale, target),
        -MAX_MANTISSA <= r.0 <= MAX_MANTISSA,
        r.1 <= target,
        scale >= target ==> r.1 == target,
        scale <= target ==> r.0 * pow10((target - r.1) as nat) == mantissa * pow10(
            (target - scale) as nat,
        ),
{
    let mut d = rust_decimal::Decimal::from_i128_with_scale(mantissa, scale);
    d.rescale(target);
    (d.mantissa(), d.scale())
}

/// A decimal number as a record carries it: `mantissa` × 10^-`scale`, with a
/// mantissa of at most 96 bits and a scale of at most 28.
pub struct RawAmount {
    mantissa: i128,
    scale: u32,
}

/// Whether `mantissa` and `scale` make a decimal.
pub open spec fn valid_decimal(mantissa: int, scale: int) -> bool {
    &&& -MAX_MANTISSA <= mantissa <= MAX_MANTISSA
    &&& 0 <= scale <= MAX_SCALE
}

impl View for RawAmount {
    type V = (i128, u32);

    closed spec fn view(&self) -> (i128, u32) {
        (self.mantissa, self.scale)
    }
}

impl RawAmount {
    #[verifier::type_invariant]
    closed spec fn inv(self) -> bool {
        valid_decimal(self.mantissa as int, self.scale as int)
    }

    /// The decimal `mantissa` × 10^-`scale`; `None` where that is no decimal.
    pub fn new(mantissa: i128, scale: u32) -> (r: Option<RawAmount>)
        ensures
            r is Some <==> valid_decimal(mantissa as int, scale as int),
            r matches Some(d) ==> d@ == (mantissa, scale),
    {
        if -MAX_MANTISSA <= mantissa && mantissa <= MAX_MANTISSA && scale <= MAX_SCALE {
            Some(RawAmount { mantissa, scale })
        } else {
            None
        }
    }

    pub fn mantissa(&self) -> (r: i128)
        ensures
            r == self@.0,
    {
        self.mantissa
    }

    pub fn scale(&self) -> (r: u32)
        ensures
            r == self@.1,
    {
        self.scale
    }
}

/// An amount of money in ten-thousandths.
#[derive(Clone, Copy, Debug, PartialEq, Eq, Structural)]
pub struct Amount {
    pub units: i128,
}

/// The amount, in ten-thousandths, that the decimal `d` stands for once it is
/// rounded to four fractional digits.
pub open spec fn units_of(d: (i128, u32)) -> int {
    let r = rescaled(d.0, d.1, SCALE);
    r.0 * pow10((SCALE - r.1) as nat)
}

impl Amount {
    /// The zero amount.
    pub fn zero() -> (r: Amount)
        ensures
            r.units == 0,
    {
        Amount { units: 0 }
    }

    /// The decimal `d` rounded to four fractional digits.
    pub fn from_decimal(d: &RawAmount) -> (r: Amount)
        ensures
            r.units == units_of(d@),
            -MAX_UNITS <= r.units <= MAX_UNITS,
    {
        proof {
            use_type_invariant(d);
        }
        let (m, s) = rescale(d.mantissa(), d.scale(), SCALE);
        proof {
            reveal_with_fuel(pow10, 5);
        }
        let factor: i128 = if s == 0 {
            10000
        } else if s == 1 {
            1000
        } else if s == 2 {
            100
        } else if s == 3 {
            10
        } else {
            1
        };
        assert(factor == pow10((SCALE - s) as nat));
        assert(-MAX_UNITS <= m * factor <= MAX_UNITS) by (nonlinear_arith)
            requires
                -MAX_MANTISSA <= m <= MAX_MANTISSA,
                1 <= factor <= 10000,
        ;
        Amount { units: m * factor }
    }
}

} // verus!
