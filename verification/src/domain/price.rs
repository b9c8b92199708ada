//! Exact price values.
use vstd::prelude::*;

use crate::domain::decimal::{
    parsed_units, parts_units, scaled_text, DecimalParseError, ExactDecimal, MAX_SCALE,
};

verus! {

/// A positive exact price.
#[derive(Clone, Copy, Debug, Eq, Hash, PartialEq, Structural)]
pub struct Price(ExactDecimal);

impl Price {
    /// The coefficient of the normal form.
    pub closed spec fn coefficient_value(self) -> int {
        self.0.coefficient_value()
    }

    /// The scale of the normal form.
    pub closed spec fn scale_value(self) -> nat {
        self.0.scale_value()
    }

    /// The value in units of `10^-18`, by which values compare.
    pub closed spec fn units(self) -> int {
        self.0.units()
    }

    /// Whether the value is in normal form; true of every price that was parsed.
    pub closed spec fn valid(self) -> bool {
        self.0.valid()
    }

    pub fn coefficient(self) -> (coefficient: i128)
        ensures
            coefficient == self.coefficient_value(),
            coefficient > 0,
            self.valid(),
    {
        self.0.coefficient()
    }

    pub fn scale(self) -> (scale: u8)
        ensures
            scale == self.scale_value(),
            scale <= MAX_SCALE,
            self.valid(),
    {
        self.0.scale()
    }

    /// The value in units of `10^-18`.
    pub fn comparison_units(self) -> (units: i128)
        ensures
            units == self.units(),
            units > 0,
            self.valid(),
    {
        self.0.comparison_units()
    }

    /// Parses a positive price.
    pub fn from_str(value: &str) -> (result: Result<Self, DecimalParseError>)
        ensures
            match result {
                Ok(parsed) => parsed.valid() && parsed_units(value@) == Ok::<
                    nat,
                    DecimalParseError,
                >(parsed.units() as nat),
                Err(error) => parsed_units(value@) == Err::<nat, DecimalParseError>(error),
            },
    {
        match ExactDecimal::parse_positive(value) {
            Ok(decimal) => Ok(Price(decimal)),
            Err(error) => Err(error),
        }
    }

    /// The price `coefficient / 10^scale`.
    pub fn from_parts(coefficient: i128, scale: u8) -> (result: Result<Self, DecimalParseError>)
        ensures
            match result {
                Ok(value) => value.valid() && parts_units(coefficient as int, scale as nat)
                    == Ok::<nat, DecimalParseError>(value.units() as nat),
                Err(error) => parts_units(coefficient as int, scale as nat) == Err::<
                    nat,
                    DecimalParseError,
                >(error),
            },
    {
        match ExactDecimal::from_parts(coefficient, scale) {
            Ok(decimal) => Ok(Price(decimal)),
            Err(error) => Err(error),
        }
    }

    /// The decimal rendering.
    pub fn to_text(&self) -> (text: String)
        ensures
            text@ == scaled_text(self.coefficient_value() as nat, self.scale_value()),
    {
        self.0.to_text()
    }
}

impl PartialOrd for Price {
    fn partial_cmp(&self, other: &Self) -> (order: Option<core::cmp::Ordering>) {
        let left: i128 = self.comparison_units();
        let right: i128 = other.comparison_units();
        if left < right {
            Some(core::cmp::Ordering::Less)
        } else if left > right {
            Some(core::cmp::Ordering::Greater)
        } else {
            Some(core::cmp::Ordering::Equal)
        }
    }
}

impl vstd::std_specs::cmp::PartialOrdSpecImpl for Price {
    open spec fn obeys_partial_cmp_spec() -> bool {
        true
    }

    open spec fn partial_cmp_spec(&self, other: &Self) -> Option<core::cmp::Ordering> {
        if self.units() < other.units() {
            Some(core::cmp::Ordering::Less)
        } else if self.units() > other.units() {
            Some(core::cmp::Ordering::Greater)
        } else {
            Some(core::cmp::Ordering::Equal)
        }
    }
}

/// What a price is made of: its units follow from coefficient and scale, it is in
/// normal form, and equal units make equal values.
pub proof fn lemma_price_value(left: Price, right: Price)
    ensures
        left.units() == left.coefficient_value() * crate::domain::decimal::pow10(
            (MAX_SCALE - left.scale_value()) as nat,
        ),
        left.valid() ==> crate::domain::decimal::is_normal(
            left.coefficient_value(),
            left.scale_value(),
        ),
        left.valid() ==> 0 < left.coefficient_value() <= left.units(),
        left.coefficient_value() == right.coefficient_value() && left.scale_value()
            == right.scale_value() ==> left == right,
        left.valid() && right.valid() && left.units() == right.units() ==> left == right,
{
    crate::domain::decimal::lemma_decimal_parts(left.0, right.0);
    if left.valid() {
        let power = crate::domain::decimal::pow10((MAX_SCALE - left.scale_value()) as nat);
        crate::domain::decimal::lemma_pow10_monotone(0, (MAX_SCALE - left.scale_value()) as nat);
        assert(left.coefficient_value() * power >= left.coefficient_value()) by (nonlinear_arith)
            requires
                left.coefficient_value() > 0,
                power >= 1,
        ;
    }
    if left.valid() && right.valid() && left.units() == right.units() {
        crate::domain::decimal::lemma_equal_units_equal(left.0, right.0);
    }
}

/// Every value that is positive and in range is a price.
pub proof fn lemma_price_exists(units: nat) -> (value: Price)
    requires
        0 < units <= i128::MAX,
    ensures
        value.valid(),
        value.units() == units,
{
    let power = crate::domain::decimal::pow10((MAX_SCALE - MAX_SCALE as nat) as nat);
    assert(power == 1) by {
        assert((MAX_SCALE - MAX_SCALE as nat) as nat == 0);
    }
    assert(units * power == units) by (nonlinear_arith)
        requires
            power == 1,
    ;
    Price(crate::domain::decimal::lemma_normal_form_exists(units as int, MAX_SCALE as nat))
}

} // verus!
