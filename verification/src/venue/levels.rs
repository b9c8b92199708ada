//! Price levels as venues deliver them.
use vstd::prelude::*;

use crate::domain::decimal::DecimalParseError;
use crate::text::{decimal, decimal_text};

verus! {

/// A side of a book.
#[derive(Clone, Copy, Debug, Eq, PartialEq, Structural)]
pub enum BookSide {
    Bid,
    Ask,
}

impl BookSide {
    /// The name of the side.
    pub open spec fn label(self) -> Seq<char> {
        match self {
            BookSide::Bid => "bid"@,
            BookSide::Ask => "ask"@,
        }
    }

    pub fn to_text(self) -> (text: &'static str)
        ensures
            text@ == self.label(),
    {
        match self {
            BookSide::Bid => "bid",
            BookSide::Ask => "ask",
        }
    }
}

/// What is said of a part of a level that is not a positive decimal.
pub open spec fn level_error(
    part: Seq<char>,
    side: BookSide,
    level: nat,
    error: DecimalParseError,
) -> Seq<char> {
    "invalid "@ + side.label() + " "@ + part + " at level "@ + decimal(level) + ": "@
        + error.message()
}

pub(crate) fn level_error_text(
    part: &str,
    side: BookSide,
    level: usize,
    error: DecimalParseError,
) -> (text: String)
    ensures
        text@ == level_error(part@, side, level as nat, error),
{
    let mut text: String = "invalid ".to_owned();
    text.append(side.to_text());
    text.append(" ");
    text.append(part);
    text.append(" at level ");
    text.append(decimal_text(level as u128).as_str());
    text.append(": ");
    text.append(error.to_text().as_str());
    text
}

/// What is said of a side with too many levels.
pub open spec fn too_many_levels(side: BookSide, actual: nat, maximum: nat) -> Seq<char> {
    "received "@ + decimal(actual) + " "@ + side.label() + " levels, maximum is "@ + decimal(
        maximum,
    )
}

pub(crate) fn too_many_levels_text(side: BookSide, actual: usize, maximum: usize) -> (text: String)
    ensures
        text@ == too_many_levels(side, actual as nat, maximum as nat),
{
    let mut text: String = "received ".to_owned();
    text.append(decimal_text(actual as u128).as_str());
    text.append(" ");
    text.append(side.to_text());
    text.append(" levels, maximum is ");
    text.append(decimal_text(maximum as u128).as_str());
    text
}

} // verus!
