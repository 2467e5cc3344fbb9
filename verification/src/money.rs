//! Exact currency amounts, stored as integer minor units (cents).
//!
//! The store keeps money as an integer count of cents; the domain boundary
//! converts to and from decimal currency. Keeping the integer representation
//! end to end makes the conversion lossless for every amount expressible to
//! two decimal places.

use vstd::prelude::*;

verus! {

/// A currency amount as a count of minor units (cents).
#[derive(Clone, Copy, PartialEq, Eq, Structural, Debug)]
pub struct Money {
    pub cents: i64,
}

impl View for Money {
    type V = int;

    open spec fn view(&self) -> int {
        self.cents as int
    }
}

impl Money {
    /// The amount of `c` cents.
    pub fn from_cents(c: i64) -> (m: Money)
        ensures
            m@ == c as int,
    {
        Money { cents: c }
    }

    /// The amount `units.hundredths`, e.g. `from_parts(10, 10)` is 10.10.
    pub fn from_parts(units: i64, hundredths: u8) -> (m: Money)
        requires
            0 <= units,
            hundredths < 100,
            units * 100 + hundredths <= i64::MAX as int,
        ensures
            m@ == units * 100 + hundredths,
    {
        Money { cents: units * 100 + (hundredths as i64) }
    }

    /// The whole-currency part of a non-negative amount.
    pub fn units(&self) -> (u: i64)
        requires
            self@ >= 0,
        ensures
            u == self@ / 100,
    {
        self.cents / 100
    }

    /// The fractional part of a non-negative amount, in cents.
    pub fn hundredths(&self) -> (h: i64)
        requires
            self@ >= 0,
        ensures
            h == self@ % 100,
    {
        self.cents % 100
    }
}

/// Decimal currency round-trips exactly through the cents representation:
/// building an amount from whole units and hundredths and reading the two
/// parts back yields the same parts, with no drift.
pub proof fn lemma_money_parts_round_trip(units: i64, hundredths: u8)
    requires
        0 <= units,
        hundredths < 100,
        units * 100 + hundredths <= i64::MAX as int,
    ensures
        (units * 100 + hundredths) / 100 == units as int,
        (units * 100 + hundredths) % 100 == hundredths as int,
{
    assert((units * 100 + hundredths) / 100 == units as int && (units * 100 + hundredths) % 100
        == hundredths as int) by (nonlinear_arith)
        requires
            0 <= units,
            hundredths < 100,
    ;
}

} // verus!
