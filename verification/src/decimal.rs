//! Exact fixed-point numbers with eight fractional digits.

use vstd::prelude::*;

verus! {

/// How many units make one whole: a unit is `0.00000001`.
pub const UNITS_PER_ONE: i128 = 100_000_000;

/// The largest magnitude, in units, that a `Decimal` holds: `10^22` wholes.
pub const DECIMAL_LIMIT: i128 = 1_000_000_000_000_000_000_000_000_000_000;

/// A reading: a number of units of `0.00000001`, at most `DECIMAL_LIMIT` in
/// magnitude.
#[derive(Clone, Copy, Debug)]
pub struct Decimal {
    units: i128,
}

/// The change between two readings, in the same units. Every difference of
/// two `Decimal`s fits.
#[derive(Clone, Copy, Debug)]
pub struct Difference {
    units: i128,
}

/// Whether `units` is small enough in magnitude for a `Decimal`.
pub open spec fn representable(units: int) -> bool {
    -DECIMAL_LIMIT <= units <= DECIMAL_LIMIT
}

impl View for Decimal {
    type V = int;

    /// The number of units.
    closed spec fn view(&self) -> int {
        self.units as int
    }
}

impl View for Difference {
    type V = int;

    /// The number of units.
    closed spec fn view(&self) -> int {
        self.units as int
    }
}

impl Decimal {
    #[verifier::type_invariant]
    spec fn within_limit(self) -> bool {
        representable(self.units as int)
    }

    /// Zero.
    pub fn zero() -> (result: Decimal)
        ensures
            result@ == 0,
    {
        Decimal { units: 0 }
    }

    /// The reading of `units` units, where it is representable.
    pub fn from_units(units: i128) -> (result: Option<Decimal>)
        ensures
            result is Some <==> representable(units as int),
            result matches Some(value) ==> value@ == units,
    {
        if -DECIMAL_LIMIT <= units && units <= DECIMAL_LIMIT {
            Some(Decimal { units })
        } else {
            None
        }
    }

    /// The reading of `units` units, which the caller knows to be
    /// representable.
    pub(crate) fn from_bounded(units: i128) -> (result: Decimal)
        requires
            representable(units as int),
        ensures
            result@ == units,
    {
        Decimal { units }
    }

    /// The number of units.
    pub fn units(&self) -> (result: i128)
        ensures
            result == self@,
            representable(result as int),
    {
        proof {
            use_type_invariant(self);
        }
        self.units
    }

    /// The exact change from `earlier` to `self`.
    pub fn minus(&self, earlier: &Decimal) -> (result: Difference)
        ensures
            result@ == self@ - earlier@,
    {
        proof {
            use_type_invariant(self);
            use_type_invariant(earlier);
        }
        Difference { units: self.units - earlier.units }
    }
}

impl Difference {
    /// The difference of `units` units.
    pub fn from_units(units: i128) -> (result: Difference)
        ensures
            result@ == units,
    {
        Difference { units }
    }

    /// The number of units.
    pub fn units(&self) -> (result: i128)
        ensures
            result == self@,
    {
        self.units
    }
}

} // verus!
