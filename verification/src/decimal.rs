use vstd::prelude::*;
use crate::error::HubError;
use crate::ratio::{multiply_ratio, ratio_floor};

verus! {

/// Number of atomic units in one whole: ten to the eighteenth.
pub const DECIMAL_FRACTIONAL: u128 = 1_000_000_000_000_000_000u128;

/// A non-negative fixed-point number with eighteen fractional digits,
/// held as a count of atomic units.
#[derive(Debug, Clone, Copy, PartialEq, Eq, Structural)]
pub struct Decimal {
    pub atomics: u128,
}

impl Decimal {
    /// The number zero.
    pub fn zero() -> (r: Self)
        ensures
            r.atomics == 0,
    {
        Decimal { atomics: 0 }
    }

    /// The number one.
    pub fn one() -> (r: Self)
        ensures
            r.atomics == DECIMAL_FRACTIONAL,
    {
        Decimal { atomics: DECIMAL_FRACTIONAL }
    }

    /// `x` hundredths.
    pub fn percent(x: u64) -> (r: Self)
        ensures
            r.atomics == x * 10_000_000_000_000_000,
    {
        Decimal { atomics: (x as u128) * 10_000_000_000_000_000u128 }
    }

    /// The quotient `numerator / denominator`, rounded down to eighteen
    /// fractional digits.
    ///
    /// Fails with `DivideByZero` on a zero denominator and with `Overflow`
    /// when the quotient has more atomic units than 128 bits hold.
    pub fn from_ratio(numerator: u128, denominator: u128) -> (r: Result<Self, HubError>)
        ensures
            match r {
                Ok(d) => ratio_floor(numerator, DECIMAL_FRACTIONAL, denominator) == Some(d.atomics),
                Err(e) => ratio_floor(numerator, DECIMAL_FRACTIONAL, denominator) is None && e
                    == if denominator == 0 {
                    HubError::DivideByZero
                } else {
                    HubError::Overflow
                },
            },
    {
        match multiply_ratio(numerator, DECIMAL_FRACTIONAL, denominator) {
            Some(atomics) => Ok(Decimal { atomics }),
            None => if denominator == 0 {
                Err(HubError::DivideByZero)
            } else {
                Err(HubError::Overflow)
            },
        }
    }

    /// Whether the number is zero.
    pub fn is_zero(&self) -> (r: bool)
        ensures
            r == (self.atomics == 0),
    {
        self.atomics == 0
    }

    /// Whether `self` is strictly greater than `other`.
    pub fn gt(&self, other: &Decimal) -> (r: bool)
        ensures
            r == (self.atomics > other.atomics),
    {
        self.atomics > other.atomics
    }
}

/// Arithmetic on [`Decimal`] that reports overflow instead of wrapping.
pub trait DecimalCheckedOps: Sized {
    /// The sum of two numbers.
    fn checked_add(self, other: Decimal) -> Result<Decimal, HubError>;

    /// The product of the number and a whole amount, rounded down to a whole
    /// amount.
    fn checked_mul_uint(self, other: u128) -> Result<u128, HubError>;
}

impl DecimalCheckedOps for Decimal {
    /// Fails with `Overflow` exactly when the sum has more atomic units than
    /// 128 bits hold.
    fn checked_add(self, other: Decimal) -> (r: Result<Decimal, HubError>)
        ensures
            match r {
                Ok(d) => d.atomics == self.atomics + other.atomics,
                Err(e) => e == HubError::Overflow && self.atomics + other.atomics > u128::MAX,
            },
    {
        match self.atomics.checked_add(other.atomics) {
            Some(atomics) => Ok(Decimal { atomics }),
            None => Err(HubError::Overflow),
        }
    }

    /// Fails with `Overflow` exactly when the rounded product does not fit
    /// in 128 bits.
    fn checked_mul_uint(self, other: u128) -> (r: Result<u128, HubError>)
        ensures
            match r {
                Ok(p) => p == (other * self.atomics) / (DECIMAL_FRACTIONAL as int),
                Err(e) => e == HubError::Overflow && (other * self.atomics) / (
                DECIMAL_FRACTIONAL as int) > u128::MAX,
            },
    {
        if self.is_zero() || other == 0 {
            assert(other * self.atomics == 0) by (nonlinear_arith)
                requires
                    self.atomics == 0 || other == 0,
            ;
            return Ok(0);
        }
        match multiply_ratio(other, self.atomics, DECIMAL_FRACTIONAL) {
            Some(p) => Ok(p),
            None => Err(HubError::Overflow),
        }
    }
}

/// The highest reward fee that may be configured: ten percent.
pub fn get_reward_fee_cap() -> (r: Decimal)
    ensures
        r.atomics == 100_000_000_000_000_000,
{
    Decimal::percent(10)
}

} // verus!
