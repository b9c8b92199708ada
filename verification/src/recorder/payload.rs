//! The byte form of stored events: every field in its order, in the Postcard format.
use vstd::prelude::*;
use vstd::utf8::encode_utf8;

use crate::bytes::lemma_concat_associates;
use crate::recorder::dto::{
    optional_source, PayloadView, SourceIdView, StoredAggressorSideClassificationV1,
    StoredAggressorSideV1, StoredBookLevelV1, StoredDecimalV1, StoredEventV1, StoredEventView,
    StoredExchangeTimeKindV1, StoredExchangeTimeObservationV1, StoredExchangeTimeUnitV1,
    StoredMarketTradeKindV1, StoredMarketTradeReportingKindV1, StoredPayloadV1, StoredSourceIdV1,
    StoredUnavailabilityCategoryV1, StoredVenueV1,
};
use crate::recorder::varint::{
    i128_reading, lemma_i128_round_trip, lemma_text_round_trip, lemma_u32_round_trip,
    lemma_u64_round_trip, push_i128, push_text, push_u64, take_i128, take_text, take_u32, take_u64,
    text_bytes, text_reading, u32_reading, u64_reading, unexpected_end, varint, zigzag,
};

verus! {

/// What is said of an option that is marked neither absent nor present.
pub open spec fn bad_option() -> Seq<char> {
    "Found an Option discriminant that wasn't 0 or 1"@
}

/// What is said of a variant that does not exist.
pub open spec fn unknown_variant() -> Seq<char> {
    "Serde Deserialization Error"@
}

/// A value without texts and lists, in its byte form.
pub trait Plain: Sized {
    /// The byte form.
    spec fn encoding(self) -> Seq<u8>;

    /// The value at the front of `bytes` and what follows it.
    spec fn reading(bytes: Seq<u8>) -> Result<(Self, Seq<u8>), Seq<char>>;

    /// Appends the byte form.
    fn write_to(self, out: &mut Vec<u8>)
        ensures
            final(out)@ == old(out)@ + self.encoding(),
    ;

    /// Reads a value.
    fn read_from<'a>(bytes: &'a [u8]) -> (result: Result<(Self, &'a [u8]), String>)
        ensures
            match result {
                Ok((value, rest)) => Self::reading(bytes@) == Ok::<(Self, Seq<u8>), Seq<char>>(
                    (value, rest@),
                ),
                Err(error) => Self::reading(bytes@) == Err::<(Self, Seq<u8>), Seq<char>>(error@),
            },
    ;

    /// Reading gives back the value that was written.
    proof fn round_trip(self, rest: Seq<u8>)
        ensures
            Self::reading(self.encoding() + rest) == Ok::<(Self, Seq<u8>), Seq<char>>((self, rest)),
    ;
}

impl Plain for u64 {
    open spec fn encoding(self) -> Seq<u8> {
        varint(self as nat)
    }

    open spec fn reading(bytes: Seq<u8>) -> Result<(Self, Seq<u8>), Seq<char>> {
        match u64_reading(bytes) {
            Ok((value, rest)) => Ok((value as u64, rest)),
            Err(error) => Err(error),
        }
    }

    fn write_to(self, out: &mut Vec<u8>) {
        push_u64(out, self);
    }

    fn read_from<'a>(bytes: &'a [u8]) -> (result: Result<(Self, &'a [u8]), String>) {
        take_u64(bytes)
    }

    proof fn round_trip(self, rest: Seq<u8>) {
        lemma_u64_round_trip(self as nat, rest);
    }
}

impl Plain for u32 {
    open spec fn encoding(self) -> Seq<u8> {
        varint(self as nat)
    }

    open spec fn reading(bytes: Seq<u8>) -> Result<(Self, Seq<u8>), Seq<char>> {
        match u32_reading(bytes) {
            Ok((value, rest)) => Ok((value as u32, rest)),
            Err(error) => Err(error),
        }
    }

    fn write_to(self, out: &mut Vec<u8>) {
        push_u64(out, self as u64);
    }

    fn read_from<'a>(bytes: &'a [u8]) -> (result: Result<(Self, &'a [u8]), String>) {
        take_u32(bytes)
    }

    proof fn round_trip(self, rest: Seq<u8>) {
        lemma_u32_round_trip(self as nat, rest);
    }
}

impl Plain for u8 {
    open spec fn encoding(self) -> Seq<u8> {
        seq![self]
    }

    open spec fn reading(bytes: Seq<u8>) -> Result<(Self, Seq<u8>), Seq<char>> {
        if bytes.len() == 0 {
            Err(unexpected_end())
        } else {
            Ok((bytes[0], bytes.skip(1)))
        }
    }

    fn write_to(self, out: &mut Vec<u8>) {
        out.push(self);
        assert(out@ =~= old(out)@ + self.encoding());
    }

    fn read_from<'a>(bytes: &'a [u8]) -> (result: Result<(Self, &'a [u8]), String>) {
        if bytes.len() == 0 {
            return Err("Hit the end of buffer, expected more data".to_owned());
        }
        let rest: &'a [u8] = vstd::slice::slice_subrange(bytes, 1, bytes.len());
        assert(rest@ =~= bytes@.skip(1));
        Ok((bytes[0], rest))
    }

    proof fn round_trip(self, rest: Seq<u8>) {
        assert((self.encoding() + rest).skip(1) =~= rest);
    }
}

impl Plain for i128 {
    open spec fn encoding(self) -> Seq<u8> {
        varint(zigzag(self as int))
    }

    open spec fn reading(bytes: Seq<u8>) -> Result<(Self, Seq<u8>), Seq<char>> {
        match i128_reading(bytes) {
            Ok((value, rest)) => Ok((value as i128, rest)),
            Err(error) => Err(error),
        }
    }

    fn write_to(self, out: &mut Vec<u8>) {
        push_i128(out, self);
    }

    fn read_from<'a>(bytes: &'a [u8]) -> (result: Result<(Self, &'a [u8]), String>) {
        take_i128(bytes)
    }

    proof fn round_trip(self, rest: Seq<u8>) {
        lemma_i128_round_trip(self, rest);
    }
}

impl<T: Plain> Plain for Option<T> {
    open spec fn encoding(self) -> Seq<u8> {
        match self {
            None => seq![0u8],
            Some(value) => seq![1u8] + value.encoding(),
        }
    }

    open spec fn reading(bytes: Seq<u8>) -> Result<(Self, Seq<u8>), Seq<char>> {
        match u8::reading(bytes) {
            Err(error) => Err(error),
            Ok((tag, rest)) => if tag == 0 {
                Ok((None, rest))
            } else if tag == 1 {
                match T::reading(rest) {
                    Ok((value, rest)) => Ok((Some(value), rest)),
                    Err(error) => Err(error),
                }
            } else {
                Err(bad_option())
            },
        }
    }

    fn write_to(self, out: &mut Vec<u8>) {
        broadcast use lemma_concat_associates;

        match self {
            None => {
                0u8.write_to(out);
            },
            Some(value) => {
                1u8.write_to(out);
                value.write_to(out);
            },
        }
    }

    fn read_from<'a>(bytes: &'a [u8]) -> (result: Result<(Self, &'a [u8]), String>) {
        let (tag, rest): (u8, &'a [u8]) = match u8::read_from(bytes) {
            Ok(read) => read,
            Err(error) => return Err(error),
        };
        if tag == 0 {
            Ok((None, rest))
        } else if tag == 1 {
            match T::read_from(rest) {
                Ok((value, rest)) => Ok((Some(value), rest)),
                Err(error) => Err(error),
            }
        } else {
            Err("Found an Option discriminant that wasn't 0 or 1".to_owned())
        }
    }

    proof fn round_trip(self, rest: Seq<u8>) {
        match self {
            None => {
                0u8.round_trip(rest);
            },
            Some(value) => {
                1u8.round_trip(value.encoding() + rest);
                value.round_trip(rest);
                lemma_concat_associates(seq![1u8], value.encoding(), rest);
            },
        }
    }
}

impl Plain for StoredVenueV1 {
    open spec fn encoding(self) -> Seq<u8> {
        match self {
            StoredVenueV1::Aster => varint(0),
            StoredVenueV1::Hyperliquid => varint(1),
            StoredVenueV1::Lighter => varint(2),
            StoredVenueV1::Binance => varint(3),
        }
    }

    open spec fn reading(bytes: Seq<u8>) -> Result<(Self, Seq<u8>), Seq<char>> {
        match u32_reading(bytes) {
            Err(error) => Err(error),
            Ok((index, rest)) => 
            if index == 0 {
                Ok((StoredVenueV1::Aster, rest))
            }
            else if index == 1 {
                Ok((StoredVenueV1::Hyperliquid, rest))
            }
            else if index == 2 {
                Ok((StoredVenueV1::Lighter, rest))
            }
            else if index == 3 {
                Ok((StoredVenueV1::Binance, rest))
            }
            else {
                Err(unknown_variant())
            },
        }
    }

    fn write_to(self, out: &mut Vec<u8>) {
        let index: u64 = match self {
            StoredVenueV1::Aster => 0,
            StoredVenueV1::Hyperliquid => 1,
            StoredVenueV1::Lighter => 2,
            StoredVenueV1::Binance => 3,
        };
        push_u64(out, index);
    }

    fn read_from<'a>(bytes: &'a [u8]) -> (result: Result<(Self, &'a [u8]), String>) {
        let (index, rest): (u32, &'a [u8]) = match take_u32(bytes) {
            Ok(read) => read,
            Err(error) => return Err(error),
        };
        match index {
            0 => Ok((StoredVenueV1::Aster, rest)),
            1 => Ok((StoredVenueV1::Hyperliquid, rest)),
            2 => Ok((StoredVenueV1::Lighter, rest)),
            3 => Ok((StoredVenueV1::Binance, rest)),
            _ => Err("Serde Deserialization Error".to_owned()),
        }
    }

    proof fn round_trip(self, rest: Seq<u8>) {
        lemma_u32_round_trip(0, rest);
        lemma_u32_round_trip(1, rest);
        lemma_u32_round_trip(2, rest);
        lemma_u32_round_trip(3, rest);
    }
}

impl Plain for StoredExchangeTimeKindV1 {
    open spec fn encoding(self) -> Seq<u8> {
        match self {
            StoredExchangeTimeKindV1::EventTime => varint(0),
            StoredExchangeTimeKindV1::TradeTime => varint(1),
            StoredExchangeTimeKindV1::BlockTime => varint(2),
            StoredExchangeTimeKindV1::TransactionTime => varint(3),
            StoredExchangeTimeKindV1::Other => varint(4),
        }
    }

    open spec fn reading(bytes: Seq<u8>) -> Result<(Self, Seq<u8>), Seq<char>> {
        match u32_reading(bytes) {
            Err(error) => Err(error),
            Ok((index, rest)) => 
            if index == 0 {
                Ok((StoredExchangeTimeKindV1::EventTime, rest))
            }
            else if index == 1 {
                Ok((StoredExchangeTimeKindV1::TradeTime, rest))
            }
            else if index == 2 {
                Ok((StoredExchangeTimeKindV1::BlockTime, rest))
            }
            else if index == 3 {
                Ok((StoredExchangeTimeKindV1::TransactionTime, rest))
            }
            else if index == 4 {
                Ok((StoredExchangeTimeKindV1::Other, rest))
            }
            else {
                Err(unknown_variant())
            },
        }
    }

    fn write_to(self, out: &mut Vec<u8>) {
        let index: u64 = match self {
            StoredExchangeTimeKindV1::EventTime => 0,
            StoredExchangeTimeKindV1::TradeTime => 1,
            StoredExchangeTimeKindV1::BlockTime => 2,
            StoredExchangeTimeKindV1::TransactionTime => 3,
            StoredExchangeTimeKindV1::Other => 4,
        };
        push_u64(out, index);
    }

    fn read_from<'a>(bytes: &'a [u8]) -> (result: Result<(Self, &'a [u8]), String>) {
        let (index, rest): (u32, &'a [u8]) = match take_u32(bytes) {
            Ok(read) => read,
            Err(error) => return Err(error),
        };
        match index {
            0 => Ok((StoredExchangeTimeKindV1::EventTime, rest)),
            1 => Ok((StoredExchangeTimeKindV1::TradeTime, rest)),
            2 => Ok((StoredExchangeTimeKindV1::BlockTime, rest)),
            3 => Ok((StoredExchangeTimeKindV1::TransactionTime, rest)),
            4 => Ok((StoredExchangeTimeKindV1::Other, rest)),
            _ => Err("Serde Deserialization Error".to_owned()),
        }
    }

    proof fn round_trip(self, rest: Seq<u8>) {
        lemma_u32_round_trip(0, rest);
        lemma_u32_round_trip(1, rest);
        lemma_u32_round_trip(2, rest);
        lemma_u32_round_trip(3, rest);
        lemma_u32_round_trip(4, rest);
    }
}

impl Plain for StoredExchangeTimeUnitV1 {
    open spec fn encoding(self) -> Seq<u8> {
        match self {
            StoredExchangeTimeUnitV1::Milliseconds => varint(0),
            StoredExchangeTimeUnitV1::Microseconds => varint(1),
            StoredExchangeTimeUnitV1::Nanoseconds => varint(2),
            StoredExchangeTimeUnitV1::Unknown => varint(3),
        }
    }

    open spec fn reading(bytes: Seq<u8>) -> Result<(Self, Seq<u8>), Seq<char>> {
        match u32_reading(bytes) {
            Err(error) => Err(error),
            Ok((index, rest)) => 
            if index == 0 {
                Ok((StoredExchangeTimeUnitV1::Milliseconds, rest))
            }
            else if index == 1 {
                Ok((StoredExchangeTimeUnitV1::Microseconds, rest))
            }
            else if index == 2 {
                Ok((StoredExchangeTimeUnitV1::Nanoseconds, rest))
            }
            else if index == 3 {
                Ok((StoredExchangeTimeUnitV1::Unknown, rest))
            }
            else {
                Err(unknown_variant())
            },
        }
    }

    fn write_to(self, out: &mut Vec<u8>) {
        let index: u64 = match self {
            StoredExchangeTimeUnitV1::Milliseconds => 0,
            StoredExchangeTimeUnitV1::Microseconds => 1,
            StoredExchangeTimeUnitV1::Nanoseconds => 2,
            StoredExchangeTimeUnitV1::Unknown => 3,
        };
        push_u64(out, index);
    }

    fn read_from<'a>(bytes: &'a [u8]) -> (result: Result<(Self, &'a [u8]), String>) {
        let (index, rest): (u32, &'a [u8]) = match take_u32(bytes) {
            Ok(read) => read,
            Err(error) => return Err(error),
        };
        match index {
            0 => Ok((StoredExchangeTimeUnitV1::Milliseconds, rest)),
            1 => Ok((StoredExchangeTimeUnitV1::Microseconds, rest)),
            2 => Ok((StoredExchangeTimeUnitV1::Nanoseconds, rest)),
            3 => Ok((StoredExchangeTimeUnitV1::Unknown, rest)),
            _ => Err("Serde Deserialization Error".to_owned()),
        }
    }

    proof fn round_trip(self, rest: Seq<u8>) {
        lemma_u32_round_trip(0, rest);
        lemma_u32_round_trip(1, rest);
        lemma_u32_round_trip(2, rest);
        lemma_u32_round_trip(3, rest);
    }
}

impl Plain for StoredMarketTradeReportingKindV1 {
    open spec fn encoding(self) -> Seq<u8> {
        match self {
            StoredMarketTradeReportingKindV1::Individual => varint(0),
            StoredMarketTradeReportingKindV1::TakerOrderAggregate => varint(1),
        }
    }

    open spec fn reading(bytes: Seq<u8>) -> Result<(Self, Seq<u8>), Seq<char>> {
        match u32_reading(bytes) {
            Err(error) => Err(error),
            Ok((index, rest)) => 
            if index == 0 {
                Ok((StoredMarketTradeReportingKindV1::Individual, rest))
            }
            else if index == 1 {
                Ok((StoredMarketTradeReportingKindV1::TakerOrderAggregate, rest))
            }
            else {
                Err(unknown_variant())
            },
        }
    }

    fn write_to(self, out: &mut Vec<u8>) {
        let index: u64 = match self {
            StoredMarketTradeReportingKindV1::Individual => 0,
            StoredMarketTradeReportingKindV1::TakerOrderAggregate => 1,
        };
        push_u64(out, index);
    }

    fn read_from<'a>(bytes: &'a [u8]) -> (result: Result<(Self, &'a [u8]), String>) {
        let (index, rest): (u32, &'a [u8]) = match take_u32(bytes) {
            Ok(read) => read,
            Err(error) => return Err(error),
        };
        match index {
            0 => Ok((StoredMarketTradeReportingKindV1::Individual, rest)),
            1 => Ok((StoredMarketTradeReportingKindV1::TakerOrderAggregate, rest)),
            _ => Err("Serde Deserialization Error".to_owned()),
        }
    }

    proof fn round_trip(self, rest: Seq<u8>) {
        lemma_u32_round_trip(0, rest);
        lemma_u32_round_trip(1, rest);
    }
}

impl Plain for StoredMarketTradeKindV1 {
    open spec fn encoding(self) -> Seq<u8> {
        match self {
            StoredMarketTradeKindV1::Regular => varint(0),
            StoredMarketTradeKindV1::Liquidation => varint(1),
            StoredMarketTradeKindV1::Deleverage => varint(2),
            StoredMarketTradeKindV1::MarketSettlement => varint(3),
            StoredMarketTradeKindV1::Other => varint(4),
        }
    }

    open spec fn reading(bytes: Seq<u8>) -> Result<(Self, Seq<u8>), Seq<char>> {
        match u32_reading(bytes) {
            Err(error) => Err(error),
            Ok((index, rest)) => 
            if index == 0 {
                Ok((StoredMarketTradeKindV1::Regular, rest))
            }
            else if index == 1 {
                Ok((StoredMarketTradeKindV1::Liquidation, rest))
            }
            else if index == 2 {
                Ok((StoredMarketTradeKindV1::Deleverage, rest))
            }
            else if index == 3 {
                Ok((StoredMarketTradeKindV1::MarketSettlement, rest))
            }
            else if index == 4 {
                Ok((StoredMarketTradeKindV1::Other, rest))
            }
            else {
                Err(unknown_variant())
            },
        }
    }

    fn write_to(self, out: &mut Vec<u8>) {
        let index: u64 = match self {
            StoredMarketTradeKindV1::Regular => 0,
            StoredMarketTradeKindV1::Liquidation => 1,
            StoredMarketTradeKindV1::Deleverage => 2,
            StoredMarketTradeKindV1::MarketSettlement => 3,
            StoredMarketTradeKindV1::Other => 4,
        };
        push_u64(out, index);
    }

    fn read_from<'a>(bytes: &'a [u8]) -> (result: Result<(Self, &'a [u8]), String>) {
        let (index, rest): (u32, &'a [u8]) = match take_u32(bytes) {
            Ok(read) => read,
            Err(error) => return Err(error),
        };
        match index {
            0 => Ok((StoredMarketTradeKindV1::Regular, rest)),
            1 => Ok((StoredMarketTradeKindV1::Liquidation, rest)),
            2 => Ok((StoredMarketTradeKindV1::Deleverage, rest)),
            3 => Ok((StoredMarketTradeKindV1::MarketSettlement, rest)),
            4 => Ok((StoredMarketTradeKindV1::Other, rest)),
            _ => Err("Serde Deserialization Error".to_owned()),
        }
    }

    proof fn round_trip(self, rest: Seq<u8>) {
        lemma_u32_round_trip(0, rest);
        lemma_u32_round_trip(1, rest);
        lemma_u32_round_trip(2, rest);
        lemma_u32_round_trip(3, rest);
        lemma_u32_round_trip(4, rest);
    }
}

impl Plain for StoredAggressorSideV1 {
    open spec fn encoding(self) -> Seq<u8> {
        match self {
            StoredAggressorSideV1::Buy => varint(0),
            StoredAggressorSideV1::Sell => varint(1),
            StoredAggressorSideV1::Unknown => varint(2),
        }
    }

    open spec fn reading(bytes: Seq<u8>) -> Result<(Self, Seq<u8>), Seq<char>> {
        match u32_reading(bytes) {
            Err(error) => Err(error),
            Ok((index, rest)) => 
            if index == 0 {
                Ok((StoredAggressorSideV1::Buy, rest))
            }
            else if index == 1 {
                Ok((StoredAggressorSideV1::Sell, rest))
            }
            else if index == 2 {
                Ok((StoredAggressorSideV1::Unknown, rest))
            }
            else {
                Err(unknown_variant())
            },
        }
    }

    fn write_to(self, out: &mut Vec<u8>) {
        let index: u64 = match self {
            StoredAggressorSideV1::Buy => 0,
            StoredAggressorSideV1::Sell => 1,
            StoredAggressorSideV1::Unknown => 2,
        };
        push_u64(out, index);
    }

    fn read_from<'a>(bytes: &'a [u8]) -> (result: Result<(Self, &'a [u8]), String>) {
        let (index, rest): (u32, &'a [u8]) = match take_u32(bytes) {
            Ok(read) => read,
            Err(error) => return Err(error),
        };
        match index {
            0 => Ok((StoredAggressorSideV1::Buy, rest)),
            1 => Ok((StoredAggressorSideV1::Sell, rest)),
            2 => Ok((StoredAggressorSideV1::Unknown, rest)),
            _ => Err("Serde Deserialization Error".to_owned()),
        }
    }

    proof fn round_trip(self, rest: Seq<u8>) {
        lemma_u32_round_trip(0, rest);
        lemma_u32_round_trip(1, rest);
        lemma_u32_round_trip(2, rest);
    }
}

impl Plain for StoredAggressorSideClassificationV1 {
    open spec fn encoding(self) -> Seq<u8> {
        match self {
            StoredAggressorSideClassificationV1::VenueProvided => varint(0),
            StoredAggressorSideClassificationV1::DerivedFromMakerSide => varint(1),
            StoredAggressorSideClassificationV1::Unknown => varint(2),
        }
    }

    open spec fn reading(bytes: Seq<u8>) -> Result<(Self, Seq<u8>), Seq<char>> {
        match u32_reading(bytes) {
            Err(error) => Err(error),
            Ok((index, rest)) => 
            if index == 0 {
                Ok((StoredAggressorSideClassificationV1::VenueProvided, rest))
            }
            else if index == 1 {
                Ok((StoredAggressorSideClassificationV1::DerivedFromMakerSide, rest))
            }
            else if index == 2 {
                Ok((StoredAggressorSideClassificationV1::Unknown, rest))
            }
            else {
                Err(unknown_variant())
            },
        }
    }

    fn write_to(self, out: &mut Vec<u8>) {
        let index: u64 = match self {
            StoredAggressorSideClassificationV1::VenueProvided => 0,
            StoredAggressorSideClassificationV1::DerivedFromMakerSide => 1,
            StoredAggressorSideClassificationV1::Unknown => 2,
        };
        push_u64(out, index);
    }

    fn read_from<'a>(bytes: &'a [u8]) -> (result: Result<(Self, &'a [u8]), String>) {
        let (index, rest): (u32, &'a [u8]) = match take_u32(bytes) {
            Ok(read) => read,
            Err(error) => return Err(error),
        };
        match index {
            0 => Ok((StoredAggressorSideClassificationV1::VenueProvided, rest)),
            1 => Ok((StoredAggressorSideClassificationV1::DerivedFromMakerSide, rest)),
            2 => Ok((StoredAggressorSideClassificationV1::Unknown, rest)),
            _ => Err("Serde Deserialization Error".to_owned()),
        }
    }

    proof fn round_trip(self, rest: Seq<u8>) {
        lemma_u32_round_trip(0, rest);
        lemma_u32_round_trip(1, rest);
        lemma_u32_round_trip(2, rest);
    }
}

impl Plain for StoredUnavailabilityCategoryV1 {
    open spec fn encoding(self) -> Seq<u8> {
        match self {
            StoredUnavailabilityCategoryV1::Disconnected => varint(0),
            StoredUnavailabilityCategoryV1::InvalidMarketData => varint(1),
            StoredUnavailabilityCategoryV1::SequenceGap => varint(2),
            StoredUnavailabilityCategoryV1::RecorderShutdown => varint(3),
            StoredUnavailabilityCategoryV1::Other => varint(4),
        }
    }

    open spec fn reading(bytes: Seq<u8>) -> Result<(Self, Seq<u8>), Seq<char>> {
        match u32_reading(bytes) {
            Err(error) => Err(error),
            Ok((index, rest)) => 
            if index == 0 {
                Ok((StoredUnavailabilityCategoryV1::Disconnected, rest))
            }
            else if index == 1 {
                Ok((StoredUnavailabilityCategoryV1::InvalidMarketData, rest))
            }
            else if index == 2 {
                Ok((StoredUnavailabilityCategoryV1::SequenceGap, rest))
            }
            else if index == 3 {
                Ok((StoredUnavailabilityCategoryV1::RecorderShutdown, rest))
            }
            else if index == 4 {
                Ok((StoredUnavailabilityCategoryV1::Other, rest))
            }
            else {
                Err(unknown_variant())
            },
        }
    }

    fn write_to(self, out: &mut Vec<u8>) {
        let index: u64 = match self {
            StoredUnavailabilityCategoryV1::Disconnected => 0,
            StoredUnavailabilityCategoryV1::InvalidMarketData => 1,
            StoredUnavailabilityCategoryV1::SequenceGap => 2,
            StoredUnavailabilityCategoryV1::RecorderShutdown => 3,
            StoredUnavailabilityCategoryV1::Other => 4,
        };
        push_u64(out, index);
    }

    fn read_from<'a>(bytes: &'a [u8]) -> (result: Result<(Self, &'a [u8]), String>) {
        let (index, rest): (u32, &'a [u8]) = match take_u32(bytes) {
            Ok(read) => read,
            Err(error) => return Err(error),
        };
        match index {
            0 => Ok((StoredUnavailabilityCategoryV1::Disconnected, rest)),
            1 => Ok((StoredUnavailabilityCategoryV1::InvalidMarketData, rest)),
            2 => Ok((StoredUnavailabilityCategoryV1::SequenceGap, rest)),
            3 => Ok((StoredUnavailabilityCategoryV1::RecorderShutdown, rest)),
            4 => Ok((StoredUnavailabilityCategoryV1::Other, rest)),
            _ => Err("Serde Deserialization Error".to_owned()),
        }
    }

    proof fn round_trip(self, rest: Seq<u8>) {
        lemma_u32_round_trip(0, rest);
        lemma_u32_round_trip(1, rest);
        lemma_u32_round_trip(2, rest);
        lemma_u32_round_trip(3, rest);
        lemma_u32_round_trip(4, rest);
    }
}

impl Plain for StoredExchangeTimeObservationV1 {
    open spec fn encoding(self) -> Seq<u8> {
        self.kind.encoding() + self.raw_value.encoding() + self.declared_unit.encoding()
    }

    open spec fn reading(bytes: Seq<u8>) -> Result<(Self, Seq<u8>), Seq<char>> {
        match StoredExchangeTimeKindV1::reading(bytes) {
            Err(error) => Err(error),
            Ok((kind, rest)) => 
            match u64::reading(rest) {
                Err(error) => Err(error),
                Ok((raw_value, rest)) => 
                match StoredExchangeTimeUnitV1::reading(rest) {
                    Err(error) => Err(error),
                    Ok((declared_unit, rest)) => 
                    Ok((StoredExchangeTimeObservationV1 { kind, raw_value, declared_unit }, rest)),
                },
            },
        }
    }

    fn write_to(self, out: &mut Vec<u8>) {
        broadcast use lemma_concat_associates;

        self.kind.write_to(out);
        self.raw_value.write_to(out);
        self.declared_unit.write_to(out);
    }

    fn read_from<'a>(bytes: &'a [u8]) -> (result: Result<(Self, &'a [u8]), String>) {
        let (kind, rest): (StoredExchangeTimeKindV1, &'a [u8]) = match StoredExchangeTimeKindV1::read_from(bytes) {
            Ok(read) => read,
            Err(error) => return Err(error),
        };
        let (raw_value, rest): (u64, &'a [u8]) = match u64::read_from(rest) {
            Ok(read) => read,
            Err(error) => return Err(error),
        };
        let (declared_unit, rest): (StoredExchangeTimeUnitV1, &'a [u8]) = match StoredExchangeTimeUnitV1::read_from(rest) {
            Ok(read) => read,
            Err(error) => return Err(error),
        };
        Ok((StoredExchangeTimeObservationV1 { kind, raw_value, declared_unit }, rest))
    }

    proof fn round_trip(self, rest: Seq<u8>) {
        broadcast use lemma_concat_associates;

        self.kind.round_trip(self.raw_value.encoding() + (self.declared_unit.encoding() + rest));
        self.raw_value.round_trip(self.declared_unit.encoding() + rest);
        self.declared_unit.round_trip(rest);
    }
}

impl Plain for StoredDecimalV1 {
    open spec fn encoding(self) -> Seq<u8> {
        self.coefficient.encoding() + self.scale.encoding()
    }

    open spec fn reading(bytes: Seq<u8>) -> Result<(Self, Seq<u8>), Seq<char>> {
        match i128::reading(bytes) {
            Err(error) => Err(error),
            Ok((coefficient, rest)) => 
            match u8::reading(rest) {
                Err(error) => Err(error),
                Ok((scale, rest)) => 
                Ok((StoredDecimalV1 { coefficient, scale }, rest)),
            },
        }
    }

    fn write_to(self, out: &mut Vec<u8>) {
        broadcast use lemma_concat_associates;

        self.coefficient.write_to(out);
        self.scale.write_to(out);
    }

    fn read_from<'a>(bytes: &'a [u8]) -> (result: Result<(Self, &'a [u8]), String>) {
        let (coefficient, rest): (i128, &'a [u8]) = match i128::read_from(bytes) {
            Ok(read) => read,
            Err(error) => return Err(error),
        };
        let (scale, rest): (u8, &'a [u8]) = match u8::read_from(rest) {
            Ok(read) => read,
            Err(error) => return Err(error),
        };
        Ok((StoredDecimalV1 { coefficient, scale }, rest))
    }

    proof fn round_trip(self, rest: Seq<u8>) {
        broadcast use lemma_concat_associates;

        self.coefficient.round_trip(self.scale.encoding() + rest);
        self.scale.round_trip(rest);
    }
}

impl Plain for StoredBookLevelV1 {
    open spec fn encoding(self) -> Seq<u8> {
        self.price.encoding() + self.quantity.encoding() + self.order_count.encoding()
    }

    open spec fn reading(bytes: Seq<u8>) -> Result<(Self, Seq<u8>), Seq<char>> {
        match StoredDecimalV1::reading(bytes) {
            Err(error) => Err(error),
            Ok((price, rest)) => 
            match StoredDecimalV1::reading(rest) {
                Err(error) => Err(error),
                Ok((quantity, rest)) => 
                match Option::<u32>::reading(rest) {
                    Err(error) => Err(error),
                    Ok((order_count, rest)) => 
                    Ok((StoredBookLevelV1 { price, quantity, order_count }, rest)),
                },
            },
        }
    }

    fn write_to(self, out: &mut Vec<u8>) {
        broadcast use lemma_concat_associates;

        self.price.write_to(out);
        self.quantity.write_to(out);
        self.order_count.write_to(out);
    }

    fn read_from<'a>(bytes: &'a [u8]) -> (result: Result<(Self, &'a [u8]), String>) {
        let (price, rest): (StoredDecimalV1, &'a [u8]) = match StoredDecimalV1::read_from(bytes) {
            Ok(read) => read,
            Err(error) => return Err(error),
        };
        let (quantity, rest): (StoredDecimalV1, &'a [u8]) = match StoredDecimalV1::read_from(rest) {
            Ok(read) => read,
            Err(error) => return Err(error),
        };
        let (order_count, rest): (Option<u32>, &'a [u8]) = match Option::<u32>::read_from(rest) {
            Ok(read) => read,
            Err(error) => return Err(error),
        };
        Ok((StoredBookLevelV1 { price, quantity, order_count }, rest))
    }

    proof fn round_trip(self, rest: Seq<u8>) {
        broadcast use lemma_concat_associates;

        self.price.round_trip(self.quantity.encoding() + (self.order_count.encoding() + rest));
        self.quantity.round_trip(self.order_count.encoding() + rest);
        self.order_count.round_trip(rest);
    }
}

impl<A: Plain, B: Plain> Plain for (A, B) {
    open spec fn encoding(self) -> Seq<u8> {
        self.0.encoding() + self.1.encoding()
    }

    open spec fn reading(bytes: Seq<u8>) -> Result<(Self, Seq<u8>), Seq<char>> {
        match A::reading(bytes) {
            Err(error) => Err(error),
            Ok((first, rest)) => match B::reading(rest) {
                Err(error) => Err(error),
                Ok((second, rest)) => Ok(((first, second), rest)),
            },
        }
    }

    fn write_to(self, out: &mut Vec<u8>) {
        broadcast use lemma_concat_associates;

        self.0.write_to(out);
        self.1.write_to(out);
    }

    fn read_from<'a>(bytes: &'a [u8]) -> (result: Result<(Self, &'a [u8]), String>) {
        let (first, rest): (A, &'a [u8]) = match A::read_from(bytes) {
            Ok(read) => read,
            Err(error) => return Err(error),
        };
        let (second, rest): (B, &'a [u8]) = match B::read_from(rest) {
            Ok(read) => read,
            Err(error) => return Err(error),
        };
        Ok(((first, second), rest))
    }

    proof fn round_trip(self, rest: Seq<u8>) {
        broadcast use lemma_concat_associates;

        self.0.round_trip(self.1.encoding() + rest);
        self.1.round_trip(rest);
    }
}

/// Three numbers that identify an aggregate and the trades it stands for.
pub type AggregateIds = (u64, (u64, u64));

/// The terms of a trade, in their stored order.
pub type TradeTerms = (
    (StoredDecimalV1, StoredDecimalV1),
    (
        (StoredMarketTradeReportingKindV1, StoredMarketTradeKindV1),
        (StoredAggressorSideV1, StoredAggressorSideClassificationV1),
    ),
);

/// Values one behind the other.
pub open spec fn items_encoding<T: Plain>(items: Seq<T>) -> Seq<u8>
    decreases items.len(),
{
    if items.len() == 0 {
        Seq::empty()
    } else {
        items[0].encoding() + items_encoding(items.skip(1))
    }
}

/// The first `count` values of `bytes` and what follows them.
pub open spec fn items_reading<T: Plain>(bytes: Seq<u8>, count: nat) -> Result<
    (Seq<T>, Seq<u8>),
    Seq<char>,
>
    decreases count,
{
    if count == 0 {
        Ok((Seq::empty(), bytes))
    } else {
        match T::reading(bytes) {
            Err(error) => Err(error),
            Ok((item, rest)) => match items_reading::<T>(rest, (count - 1) as nat) {
                Err(error) => Err(error),
                Ok((items, rest)) => Ok((seq![item] + items, rest)),
            },
        }
    }
}

/// A list: how many values it has, then the values.
pub open spec fn list_encoding<T: Plain>(items: Seq<T>) -> Seq<u8> {
    varint(items.len()) + items_encoding(items)
}

/// The list at the front of `bytes` and what follows it.
pub open spec fn list_reading<T: Plain>(bytes: Seq<u8>) -> Result<(Seq<T>, Seq<u8>), Seq<char>> {
    match u64_reading(bytes) {
        Err(error) => Err(error),
        Ok((count, rest)) => items_reading::<T>(rest, count),
    }
}

fn write_list<T: Plain + Copy>(items: &Vec<T>, out: &mut Vec<u8>)
    ensures
        final(out)@ == old(out)@ + list_encoding(items@),
{
    broadcast use lemma_concat_associates;

    push_u64(out, items.len() as u64);
    let ghost start = out@;
    let mut i: usize = 0;
    assert(items@.skip(0) =~= items@);
    while i < items.len()
        invariant
            i <= items.len(),
            out@ + items_encoding(items@.skip(i as int)) == start + items_encoding(items@),
        decreases items.len() - i,
    {
        let ghost before = out@;
        items[i].write_to(out);
        proof {
            assert(items@.skip(i as int).skip(1) =~= items@.skip(i + 1));
            assert(items@.skip(i as int)[0] == items@[i as int]);
            lemma_concat_associates(
                before,
                items@[i as int].encoding(),
                items_encoding(items@.skip(i + 1)),
            );
        }
        i = i + 1;
    }
    assert(items_encoding(items@.skip(i as int)) =~= Seq::<u8>::empty());
    assert(out@ + Seq::<u8>::empty() =~= out@);
}

fn read_list<'a, T: Plain>(bytes: &'a [u8]) -> (result: Result<(Vec<T>, &'a [u8]), String>)
    ensures
        match result {
            Ok((items, rest)) => list_reading::<T>(bytes@) == Ok::<(Seq<T>, Seq<u8>), Seq<char>>(
                (items@, rest@),
            ),
            Err(error) => list_reading::<T>(bytes@) == Err::<(Seq<T>, Seq<u8>), Seq<char>>(error@),
        },
{
    let (count, first): (u64, &'a [u8]) = match take_u64(bytes) {
        Ok(read) => read,
        Err(error) => return Err(error),
    };
    let mut items: Vec<T> = Vec::new();
    let mut rest: &'a [u8] = first;
    let mut left: u64 = count;
    proof {
        if let Ok((all, end)) = items_reading::<T>(first@, count as nat) {
            assert(Seq::<T>::empty() + all =~= all);
        }
    }
    while left > 0
        invariant
            items_reading::<T>(first@, count as nat) == match items_reading::<T>(
                rest@,
                left as nat,
            ) {
                Ok((more, end)) => Ok((items@ + more, end)),
                Err(error) => Err(error),
            },
            list_reading::<T>(bytes@) == items_reading::<T>(first@, count as nat),
        decreases left,
    {
        let ghost before = items@;
        let ghost from = rest@;
        let (item, next): (T, &'a [u8]) = match T::read_from(rest) {
            Ok(read) => read,
            Err(error) => return Err(error),
        };
        items.push(item);
        rest = next;
        left = left - 1;
        proof {
            if let Ok((more, end)) = items_reading::<T>(rest@, left as nat) {
                assert(before + (seq![item] + more) =~= items@ + more);
            }
        }
    }
    assert(items@ + Seq::<T>::empty() =~= items@);
    Ok((items, rest))
}

proof fn lemma_items_round_trip<T: Plain>(items: Seq<T>, rest: Seq<u8>)
    ensures
        items_reading::<T>(items_encoding(items) + rest, items.len()) == Ok::<
            (Seq<T>, Seq<u8>),
            Seq<char>,
        >((items, rest)),
    decreases items.len(),
{
    if items.len() == 0 {
        assert(items =~= Seq::empty());
        assert(items_encoding(items) + rest =~= rest);
    } else {
        let more = items_encoding(items.skip(1));
        lemma_concat_associates(items[0].encoding(), more, rest);
        items[0].round_trip(more + rest);
        lemma_items_round_trip(items.skip(1), rest);
        assert(seq![items[0]] + items.skip(1) =~= items);
    }
}

proof fn lemma_list_round_trip<T: Plain>(items: Seq<T>, rest: Seq<u8>)
    requires
        items.len() <= u64::MAX,
    ensures
        list_reading::<T>(list_encoding(items) + rest) == Ok::<(Seq<T>, Seq<u8>), Seq<char>>(
            (items, rest),
        ),
{
    lemma_concat_associates(varint(items.len()), items_encoding(items), rest);
    lemma_u64_round_trip(items.len(), items_encoding(items) + rest);
    lemma_items_round_trip(items, rest);
}

/// The byte form of a source identity.
pub open spec fn source_encoding(source_id: SourceIdView) -> Seq<u8> {
    match source_id {
        SourceIdView::OrderBookSequence(sequence) => varint(0) + sequence.encoding(),
        SourceIdView::AsterTrade { aggregate_trade_id, first_trade_id, last_trade_id } => varint(1)
            + (aggregate_trade_id, (first_trade_id, last_trade_id)).encoding(),
        SourceIdView::HyperliquidTrade { block_time, trade_id, transaction_hash } => varint(2) + (
        block_time, trade_id).encoding() + text_bytes(transaction_hash),
        SourceIdView::LighterTrade { market_id, trade_id_string, message_nonce } => varint(3)
            + market_id.encoding() + text_bytes(trade_id_string) + message_nonce.encoding(),
        SourceIdView::BinanceTrade { aggregate_trade_id, first_trade_id, last_trade_id } => varint(
            4,
        ) + (aggregate_trade_id, (first_trade_id, last_trade_id)).encoding(),
    }
}

/// The source identity at the front of `bytes` and what follows it.
pub open spec fn source_reading(bytes: Seq<u8>) -> Result<(SourceIdView, Seq<u8>), Seq<char>> {
    match u32_reading(bytes) {
        Err(error) => Err(error),
        Ok((index, rest)) => if index == 0 {
            match u64::reading(rest) {
                Err(error) => Err(error),
                Ok((sequence, rest)) => Ok((SourceIdView::OrderBookSequence(sequence), rest)),
            }
        } else if index == 1 || index == 4 {
            match AggregateIds::reading(rest) {
                Err(error) => Err(error),
                Ok((ids, rest)) => Ok((aggregate_source(index == 1, ids), rest)),
            }
        } else if index == 2 {
            match <(u64, u64)>::reading(rest) {
                Err(error) => Err(error),
                Ok((ids, rest)) => match text_reading(rest) {
                    Err(error) => Err(error),
                    Ok((transaction_hash, rest)) => Ok(
                        (
                            SourceIdView::HyperliquidTrade {
                                block_time: ids.0,
                                trade_id: ids.1,
                                transaction_hash,
                            },
                            rest,
                        ),
                    ),
                },
            }
        } else if index == 3 {
            match u32::reading(rest) {
                Err(error) => Err(error),
                Ok((market_id, rest)) => match text_reading(rest) {
                    Err(error) => Err(error),
                    Ok((trade_id_string, rest)) => match Option::<u64>::reading(rest) {
                        Err(error) => Err(error),
                        Ok((message_nonce, rest)) => Ok(
                            (
                                SourceIdView::LighterTrade {
                                    market_id,
                                    trade_id_string,
                                    message_nonce,
                                },
                                rest,
                            ),
                        ),
                    },
                },
            }
        } else {
            Err(unknown_variant())
        },
    }
}

/// The source identity of an aggregate trade.
pub open spec fn aggregate_source(aster: bool, ids: AggregateIds) -> SourceIdView {
    if aster {
        SourceIdView::AsterTrade {
            aggregate_trade_id: ids.0,
            first_trade_id: ids.1.0,
            last_trade_id: ids.1.1,
        }
    } else {
        SourceIdView::BinanceTrade {
            aggregate_trade_id: ids.0,
            first_trade_id: ids.1.0,
            last_trade_id: ids.1.1,
        }
    }
}

fn write_source(source_id: &StoredSourceIdV1, out: &mut Vec<u8>)
    ensures
        final(out)@ == old(out)@ + source_encoding(source_id@),
        source_encodable(source_id@),
{
    broadcast use lemma_concat_associates;

    match source_id {
        StoredSourceIdV1::OrderBookSequence(sequence) => {
            push_u64(out, 0);
            (*sequence).write_to(out);
        },
        StoredSourceIdV1::AsterTrade { aggregate_trade_id, first_trade_id, last_trade_id } => {
            push_u64(out, 1);
            (*aggregate_trade_id, (*first_trade_id, *last_trade_id)).write_to(out);
        },
        StoredSourceIdV1::HyperliquidTrade { block_time, trade_id, transaction_hash } => {
            push_u64(out, 2);
            (*block_time, *trade_id).write_to(out);
            push_text(out, transaction_hash.as_str());
        },
        StoredSourceIdV1::LighterTrade { market_id, trade_id_string, message_nonce } => {
            push_u64(out, 3);
            (*market_id).write_to(out);
            push_text(out, trade_id_string.as_str());
            (*message_nonce).write_to(out);
        },
        StoredSourceIdV1::BinanceTrade { aggregate_trade_id, first_trade_id, last_trade_id } => {
            push_u64(out, 4);
            (*aggregate_trade_id, (*first_trade_id, *last_trade_id)).write_to(out);
        },
    }
}

fn read_source<'a>(bytes: &'a [u8]) -> (result: Result<(StoredSourceIdV1, &'a [u8]), String>)
    ensures
        match result {
            Ok((source_id, rest)) => source_reading(bytes@) == Ok::<
                (SourceIdView, Seq<u8>),
                Seq<char>,
            >((source_id@, rest@)),
            Err(error) => source_reading(bytes@) == Err::<(SourceIdView, Seq<u8>), Seq<char>>(
                error@,
            ),
        },
{
    let (index, rest): (u32, &'a [u8]) = match take_u32(bytes) {
        Ok(read) => read,
        Err(error) => return Err(error),
    };
    match index {
        0 => match u64::read_from(rest) {
            Ok((sequence, rest)) => Ok((StoredSourceIdV1::OrderBookSequence(sequence), rest)),
            Err(error) => Err(error),
        },
        1 => match AggregateIds::read_from(rest) {
            Ok((ids, rest)) => Ok(
                (
                    StoredSourceIdV1::AsterTrade {
                        aggregate_trade_id: ids.0,
                        first_trade_id: ids.1.0,
                        last_trade_id: ids.1.1,
                    },
                    rest,
                ),
            ),
            Err(error) => Err(error),
        },
        2 => {
            let (ids, rest): ((u64, u64), &'a [u8]) = match <(u64, u64)>::read_from(rest) {
                Ok(read) => read,
                Err(error) => return Err(error),
            };
            let (transaction_hash, rest): (String, &'a [u8]) = match take_text(rest) {
                Ok(read) => read,
                Err(error) => return Err(error),
            };
            Ok(
                (
                    StoredSourceIdV1::HyperliquidTrade {
                        block_time: ids.0,
                        trade_id: ids.1,
                        transaction_hash,
                    },
                    rest,
                ),
            )
        },
        3 => {
            let (market_id, rest): (u32, &'a [u8]) = match u32::read_from(rest) {
                Ok(read) => read,
                Err(error) => return Err(error),
            };
            let (trade_id_string, rest): (String, &'a [u8]) = match take_text(rest) {
                Ok(read) => read,
                Err(error) => return Err(error),
            };
            let (message_nonce, rest): (Option<u64>, &'a [u8]) = match Option::<u64>::read_from(
                rest,
            ) {
                Ok(read) => read,
                Err(error) => return Err(error),
            };
            Ok((StoredSourceIdV1::LighterTrade { market_id, trade_id_string, message_nonce }, rest))
        },
        4 => match AggregateIds::read_from(rest) {
            Ok((ids, rest)) => Ok(
                (
                    StoredSourceIdV1::BinanceTrade {
                        aggregate_trade_id: ids.0,
                        first_trade_id: ids.1.0,
                        last_trade_id: ids.1.1,
                    },
                    rest,
                ),
            ),
            Err(error) => Err(error),
        },
        _ => Err("Serde Deserialization Error".to_owned()),
    }
}

/// Whether the texts of a source identity are short enough to be stored.
pub open spec fn source_encodable(source_id: SourceIdView) -> bool {
    match source_id {
        SourceIdView::HyperliquidTrade { transaction_hash, .. } => encode_utf8(
            transaction_hash,
        ).len() <= usize::MAX,
        SourceIdView::LighterTrade { trade_id_string, .. } => encode_utf8(trade_id_string).len()
            <= usize::MAX,
        _ => true,
    }
}

proof fn lemma_lighter_round_trip(
    market_id: u32,
    trade_id_string: Seq<char>,
    message_nonce: Option<u64>,
    rest: Seq<u8>,
)
    requires
        encode_utf8(trade_id_string).len() <= usize::MAX,
    ensures
        ({
            let source_id = SourceIdView::LighterTrade {
                market_id,
                trade_id_string,
                message_nonce,
            };
            source_reading(source_encoding(source_id) + rest) == Ok::<
                (SourceIdView, Seq<u8>),
                Seq<char>,
            >((source_id, rest))
        }),
{
    let source_id = SourceIdView::LighterTrade { market_id, trade_id_string, message_nonce };
    let market = market_id.encoding();
    let text = text_bytes(trade_id_string);
    let nonce = message_nonce.encoding();
    lemma_concat_associates(varint(3) + market + text, nonce, rest);
    lemma_concat_associates(varint(3) + market, text, nonce + rest);
    lemma_concat_associates(varint(3), market, text + (nonce + rest));
    assert(source_encoding(source_id) + rest == varint(3) + (market + (text + (nonce + rest))));
    lemma_u32_round_trip(3, market + (text + (nonce + rest)));
    market_id.round_trip(text + (nonce + rest));
    lemma_text_round_trip(trade_id_string, nonce + rest);
    message_nonce.round_trip(rest);
}

proof fn lemma_source_round_trip(source_id: SourceIdView, rest: Seq<u8>)
    requires
        source_encodable(source_id),
    ensures
        source_reading(source_encoding(source_id) + rest) == Ok::<
            (SourceIdView, Seq<u8>),
            Seq<char>,
        >((source_id, rest)),
{
    broadcast use lemma_concat_associates;

    match source_id {
        SourceIdView::OrderBookSequence(sequence) => {
            lemma_u32_round_trip(0, sequence.encoding() + rest);
            sequence.round_trip(rest);
        },
        SourceIdView::AsterTrade { aggregate_trade_id, first_trade_id, last_trade_id } => {
            let ids: AggregateIds = (aggregate_trade_id, (first_trade_id, last_trade_id));
            lemma_u32_round_trip(1, ids.encoding() + rest);
            ids.round_trip(rest);
        },
        SourceIdView::HyperliquidTrade { block_time, trade_id, transaction_hash } => {
            let ids: (u64, u64) = (block_time, trade_id);
            lemma_u32_round_trip(2, ids.encoding() + (text_bytes(transaction_hash) + rest));
            ids.round_trip(text_bytes(transaction_hash) + rest);
            lemma_text_round_trip(transaction_hash, rest);
        },
        SourceIdView::LighterTrade { market_id, trade_id_string, message_nonce } => {
            lemma_lighter_round_trip(market_id, trade_id_string, message_nonce, rest);
        },
        SourceIdView::BinanceTrade { aggregate_trade_id, first_trade_id, last_trade_id } => {
            let ids: AggregateIds = (aggregate_trade_id, (first_trade_id, last_trade_id));
            lemma_u32_round_trip(4, ids.encoding() + rest);
            ids.round_trip(rest);
        },
    }
}

/// The byte form of an optional source identity.
#[verifier::opaque]
pub open spec fn optional_source_encoding(source_id: Option<SourceIdView>) -> Seq<u8> {
    match source_id {
        None => seq![0u8],
        Some(source_id) => seq![1u8] + source_encoding(source_id),
    }
}

/// The optional source identity at the front of `bytes` and what follows it.
#[verifier::opaque]
pub open spec fn optional_source_reading(bytes: Seq<u8>) -> Result<
    (Option<SourceIdView>, Seq<u8>),
    Seq<char>,
> {
    match u8::reading(bytes) {
        Err(error) => Err(error),
        Ok((tag, rest)) => if tag == 0 {
            Ok((None, rest))
        } else if tag == 1 {
            match source_reading(rest) {
                Ok((source_id, rest)) => Ok((Some(source_id), rest)),
                Err(error) => Err(error),
            }
        } else {
            Err(bad_option())
        },
    }
}

fn read_optional_source<'a>(bytes: &'a [u8]) -> (result: Result<
    (Option<StoredSourceIdV1>, &'a [u8]),
    String,
>)
    ensures
        match result {
            Ok((source_id, rest)) => optional_source_reading(bytes@) == Ok::<
                (Option<SourceIdView>, Seq<u8>),
                Seq<char>,
            >((optional_source(source_id), rest@)),
            Err(error) => optional_source_reading(bytes@) == Err::<
                (Option<SourceIdView>, Seq<u8>),
                Seq<char>,
            >(error@),
        },
{
    proof {
        reveal(optional_source_reading);
    }
    let (tag, rest): (u8, &'a [u8]) = match u8::read_from(bytes) {
        Ok(read) => read,
        Err(error) => return Err(error),
    };
    if tag == 0 {
        Ok((None, rest))
    } else if tag == 1 {
        match read_source(rest) {
            Ok((source_id, rest)) => Ok((Some(source_id), rest)),
            Err(error) => Err(error),
        }
    } else {
        Err("Found an Option discriminant that wasn't 0 or 1".to_owned())
    }
}

/// The byte form of a payload.
#[verifier::opaque]
pub open spec fn payload_encoding(payload: PayloadView) -> Seq<u8> {
    match payload {
        PayloadView::OrderBookSnapshot { bids, asks } => varint(0) + list_encoding(bids)
            + list_encoding(asks),
        PayloadView::OrderBookUnavailable { category, diagnostic } => varint(1)
            + category.encoding() + text_bytes(diagnostic),
        PayloadView::MarketTrade {
            price,
            quantity,
            reporting_kind,
            trade_kind,
            aggressor_side,
            aggressor_side_classification,
        } => varint(2) + (
            (price, quantity),
            ((reporting_kind, trade_kind), (aggressor_side, aggressor_side_classification)),
        ).encoding(),
        PayloadView::TradeStreamUnavailable { category, diagnostic } => varint(3)
            + category.encoding() + text_bytes(diagnostic),
        PayloadView::TradeStreamResumed => varint(4),
        PayloadView::BestBidOfferUpdated { bid, ask } => varint(5) + (bid, ask).encoding(),
    }
}

/// The payload at the front of `bytes` and what follows it.
#[verifier::opaque]
pub open spec fn payload_reading(bytes: Seq<u8>) -> Result<(PayloadView, Seq<u8>), Seq<char>> {
    match u32_reading(bytes) {
        Err(error) => Err(error),
        Ok((index, rest)) => if index == 0 {
            match list_reading::<StoredBookLevelV1>(rest) {
                Err(error) => Err(error),
                Ok((bids, rest)) => match list_reading::<StoredBookLevelV1>(rest) {
                    Err(error) => Err(error),
                    Ok((asks, rest)) => Ok((PayloadView::OrderBookSnapshot { bids, asks }, rest)),
                },
            }
        } else if index == 1 || index == 3 {
            match StoredUnavailabilityCategoryV1::reading(rest) {
                Err(error) => Err(error),
                Ok((category, rest)) => match text_reading(rest) {
                    Err(error) => Err(error),
                    Ok((diagnostic, rest)) => Ok(
                        (
                            if index == 1 {
                                PayloadView::OrderBookUnavailable { category, diagnostic }
                            } else {
                                PayloadView::TradeStreamUnavailable { category, diagnostic }
                            },
                            rest,
                        ),
                    ),
                },
            }
        } else if index == 2 {
            match TradeTerms::reading(rest) {
                Err(error) => Err(error),
                Ok((terms, rest)) => Ok(
                    (
                        PayloadView::MarketTrade {
                            price: terms.0.0,
                            quantity: terms.0.1,
                            reporting_kind: terms.1.0.0,
                            trade_kind: terms.1.0.1,
                            aggressor_side: terms.1.1.0,
                            aggressor_side_classification: terms.1.1.1,
                        },
                        rest,
                    ),
                ),
            }
        } else if index == 4 {
            Ok((PayloadView::TradeStreamResumed, rest))
        } else if index == 5 {
            match <(Option<StoredBookLevelV1>, Option<StoredBookLevelV1>)>::reading(rest) {
                Err(error) => Err(error),
                Ok((sides, rest)) => Ok(
                    (PayloadView::BestBidOfferUpdated { bid: sides.0, ask: sides.1 }, rest),
                ),
            }
        } else {
            Err(unknown_variant())
        },
    }
}

/// Whether the texts and lists of a payload are short enough to be stored.
pub open spec fn payload_encodable(payload: PayloadView) -> bool {
    match payload {
        PayloadView::OrderBookSnapshot { bids, asks } => bids.len() <= u64::MAX && asks.len()
            <= u64::MAX,
        PayloadView::OrderBookUnavailable { diagnostic, .. } => encode_utf8(diagnostic).len()
            <= usize::MAX,
        PayloadView::TradeStreamUnavailable { diagnostic, .. } => encode_utf8(diagnostic).len()
            <= usize::MAX,
        _ => true,
    }
}

fn write_payload(payload: &StoredPayloadV1, out: &mut Vec<u8>)
    ensures
        final(out)@ == old(out)@ + payload_encoding(payload@),
        payload_encodable(payload@),
{
    proof {
        reveal(payload_encoding);
    }
    broadcast use lemma_concat_associates;

    match payload {
        StoredPayloadV1::OrderBookSnapshot { bids, asks } => {
            let _ = (bids.len(), asks.len());
            push_u64(out, 0);
            write_list(bids, out);
            write_list(asks, out);
        },
        StoredPayloadV1::OrderBookUnavailable { category, diagnostic } => {
            push_u64(out, 1);
            (*category).write_to(out);
            push_text(out, diagnostic.as_str());
        },
        StoredPayloadV1::MarketTrade {
            price,
            quantity,
            reporting_kind,
            trade_kind,
            aggressor_side,
            aggressor_side_classification,
        } => {
            push_u64(out, 2);
            (
                (*price, *quantity),
                ((*reporting_kind, *trade_kind), (*aggressor_side, *aggressor_side_classification)),
            ).write_to(out);
        },
        StoredPayloadV1::TradeStreamUnavailable { category, diagnostic } => {
            push_u64(out, 3);
            (*category).write_to(out);
            push_text(out, diagnostic.as_str());
        },
        StoredPayloadV1::TradeStreamResumed => {
            push_u64(out, 4);
        },
        StoredPayloadV1::BestBidOfferUpdated { bid, ask } => {
            push_u64(out, 5);
            (*bid, *ask).write_to(out);
        },
    }
}

fn read_unavailability<'a>(bytes: &'a [u8]) -> (result: Result<
    ((StoredUnavailabilityCategoryV1, String), &'a [u8]),
    String,
>)
    ensures
        match result {
            Ok((unavailability, rest)) => exists|middle: Seq<u8>|
                {
                    &&& #[trigger] text_reading(middle) == Ok::<(Seq<char>, Seq<u8>), Seq<char>>(
                        (unavailability.1@, rest@),
                    )
                    &&& StoredUnavailabilityCategoryV1::reading(bytes@) == Ok::<
                        (StoredUnavailabilityCategoryV1, Seq<u8>),
                        Seq<char>,
                    >((unavailability.0, middle))
                },
            Err(error) => match StoredUnavailabilityCategoryV1::reading(bytes@) {
                Err(first) => first == error@,
                Ok((_, middle)) => text_reading(middle) == Err::<(Seq<char>, Seq<u8>), Seq<char>>(
                    error@,
                ),
            },
        },
{
    let (category, rest): (StoredUnavailabilityCategoryV1, &'a [u8]) =
        match StoredUnavailabilityCategoryV1::read_from(bytes) {
        Ok(read) => read,
        Err(error) => return Err(error),
    };
    match take_text(rest) {
        Ok((diagnostic, rest)) => Ok(((category, diagnostic), rest)),
        Err(error) => Err(error),
    }
}

fn read_payload<'a>(bytes: &'a [u8]) -> (result: Result<(StoredPayloadV1, &'a [u8]), String>)
    ensures
        match result {
            Ok((payload, rest)) => payload_reading(bytes@) == Ok::<
                (PayloadView, Seq<u8>),
                Seq<char>,
            >((payload@, rest@)),
            Err(error) => payload_reading(bytes@) == Err::<(PayloadView, Seq<u8>), Seq<char>>(
                error@,
            ),
        },
{
    proof {
        reveal(payload_reading);
    }
    let (index, rest): (u32, &'a [u8]) = match take_u32(bytes) {
        Ok(read) => read,
        Err(error) => return Err(error),
    };
    match index {
        0 => {
            let (bids, rest): (Vec<StoredBookLevelV1>, &'a [u8]) = match read_list(rest) {
                Ok(read) => read,
                Err(error) => return Err(error),
            };
            let (asks, rest): (Vec<StoredBookLevelV1>, &'a [u8]) = match read_list(rest) {
                Ok(read) => read,
                Err(error) => return Err(error),
            };
            Ok((StoredPayloadV1::OrderBookSnapshot { bids, asks }, rest))
        },
        1 => match read_unavailability(rest) {
            Ok(((category, diagnostic), rest)) => Ok(
                (StoredPayloadV1::OrderBookUnavailable { category, diagnostic }, rest),
            ),
            Err(error) => Err(error),
        },
        2 => match TradeTerms::read_from(rest) {
            Ok((terms, rest)) => Ok(
                (
                    StoredPayloadV1::MarketTrade {
                        price: terms.0.0,
                        quantity: terms.0.1,
                        reporting_kind: terms.1.0.0,
                        trade_kind: terms.1.0.1,
                        aggressor_side: terms.1.1.0,
                        aggressor_side_classification: terms.1.1.1,
                    },
                    rest,
                ),
            ),
            Err(error) => Err(error),
        },
        3 => match read_unavailability(rest) {
            Ok(((category, diagnostic), rest)) => Ok(
                (StoredPayloadV1::TradeStreamUnavailable { category, diagnostic }, rest),
            ),
            Err(error) => Err(error),
        },
        4 => Ok((StoredPayloadV1::TradeStreamResumed, rest)),
        5 => match <(Option<StoredBookLevelV1>, Option<StoredBookLevelV1>)>::read_from(rest) {
            Ok((sides, rest)) => Ok(
                (StoredPayloadV1::BestBidOfferUpdated { bid: sides.0, ask: sides.1 }, rest),
            ),
            Err(error) => Err(error),
        },
        _ => Err("Serde Deserialization Error".to_owned()),
    }
}

#[verifier::spinoff_prover]
#[verifier::rlimit(40)]
proof fn lemma_payload_round_trip(payload: PayloadView, rest: Seq<u8>)
    requires
        payload_encodable(payload),
    ensures
        payload_reading(payload_encoding(payload) + rest) == Ok::<
            (PayloadView, Seq<u8>),
            Seq<char>,
        >((payload, rest)),
{
    reveal(payload_encoding);
    reveal(payload_reading);
    broadcast use lemma_concat_associates;

    match payload {
        PayloadView::OrderBookSnapshot { bids, asks } => {
            let end = list_encoding(asks) + rest;
            lemma_u32_round_trip(0, list_encoding(bids) + end);
            lemma_list_round_trip(bids, end);
            lemma_list_round_trip(asks, rest);
        },
        PayloadView::OrderBookUnavailable { category, diagnostic } => {
            let end = text_bytes(diagnostic) + rest;
            lemma_u32_round_trip(1, category.encoding() + end);
            category.round_trip(end);
            lemma_text_round_trip(diagnostic, rest);
        },
        PayloadView::MarketTrade {
            price,
            quantity,
            reporting_kind,
            trade_kind,
            aggressor_side,
            aggressor_side_classification,
        } => {
            let terms: TradeTerms = (
                (price, quantity),
                ((reporting_kind, trade_kind), (aggressor_side, aggressor_side_classification)),
            );
            lemma_u32_round_trip(2, terms.encoding() + rest);
            terms.round_trip(rest);
        },
        PayloadView::TradeStreamUnavailable { category, diagnostic } => {
            let end = text_bytes(diagnostic) + rest;
            lemma_u32_round_trip(3, category.encoding() + end);
            category.round_trip(end);
            lemma_text_round_trip(diagnostic, rest);
        },
        PayloadView::TradeStreamResumed => {
            lemma_u32_round_trip(4, rest);
        },
        PayloadView::BestBidOfferUpdated { bid, ask } => {
            let sides: (Option<StoredBookLevelV1>, Option<StoredBookLevelV1>) = (bid, ask);
            lemma_u32_round_trip(5, sides.encoding() + rest);
            sides.round_trip(rest);
        },
    }
}

/// The byte form of a stored event.
#[verifier::opaque]
pub open spec fn event_encoding(event: StoredEventView) -> Seq<u8> {
    (event.capture_sequence, event.venue).encoding() + text_bytes(event.market_coin) + (
    event.local_receive_time, event.processing_completion_time).encoding() + list_encoding(
        event.exchange_times,
    ) + optional_source_encoding(event.source_id) + payload_encoding(event.payload)
}

/// The stored event at the front of `bytes` and what follows it.
pub open spec fn event_reading(bytes: Seq<u8>) -> Result<(StoredEventView, Seq<u8>), Seq<char>> {
    match <(u64, StoredVenueV1)>::reading(bytes) {
        Err(error) => Err(error),
        Ok((head, rest)) => match text_reading(rest) {
            Err(error) => Err(error),
            Ok((market_coin, rest)) => match <(u64, u64)>::reading(rest) {
                Err(error) => Err(error),
                Ok((times, rest)) => match list_reading::<StoredExchangeTimeObservationV1>(rest) {
                    Err(error) => Err(error),
                    Ok((exchange_times, rest)) => match optional_source_reading(rest) {
                        Err(error) => Err(error),
                        Ok((source_id, rest)) => match payload_reading(rest) {
                            Err(error) => Err(error),
                            Ok((payload, rest)) => Ok(
                                (
                                    StoredEventView {
                                        capture_sequence: head.0,
                                        venue: head.1,
                                        market_coin,
                                        local_receive_time: times.0,
                                        processing_completion_time: times.1,
                                        exchange_times,
                                        source_id,
                                        payload,
                                    },
                                    rest,
                                ),
                            ),
                        },
                    },
                },
            },
        },
    }
}

/// Whether the texts and lists of an event are short enough to be stored; true of
/// every event that fits in memory.
pub open spec fn encodable(event: StoredEventView) -> bool {
    &&& encode_utf8(event.market_coin).len() <= usize::MAX
    &&& event.exchange_times.len() <= u64::MAX
    &&& event.source_id matches Some(source_id) ==> source_encodable(source_id)
    &&& payload_encodable(event.payload)
}

/// What a stored event that was read is, without the bytes behind it.
#[verifier::opaque]
pub open spec fn decoded(bytes: Seq<u8>) -> Result<StoredEventView, Seq<char>> {
    match event_reading(bytes) {
        Ok((event, _)) => Ok(event),
        Err(error) => Err(error),
    }
}

/// The byte form of a stored event.
pub fn encode_event(event: &StoredEventV1) -> (bytes: Vec<u8>)
    ensures
        bytes@ == event_encoding(event@),
        encodable(event@),
{
    broadcast use lemma_concat_associates;

    let mut out: Vec<u8> = Vec::new();
    reveal(event_encoding);
    reveal(optional_source_encoding);
    assert(out@ + (event.capture_sequence, event.venue).encoding() =~= (
        event.capture_sequence,
        event.venue,
    ).encoding());
    (event.capture_sequence, event.venue).write_to(&mut out);
    push_text(&mut out, event.market_coin.as_str());
    (event.local_receive_time, event.processing_completion_time).write_to(&mut out);
    let _ = event.exchange_times.len();
    write_list(&event.exchange_times, &mut out);
    match &event.source_id {
        None => {
            0u8.write_to(&mut out);
        },
        Some(source_id) => {
            1u8.write_to(&mut out);
            write_source(source_id, &mut out);
        },
    }
    write_payload(&event.payload, &mut out);
    out
}

/// The stored event at the front of `bytes`, or why there is none. Bytes behind it are
/// not looked at.
pub fn decode_event(bytes: &[u8]) -> (result: Result<StoredEventV1, String>)
    ensures
        match result {
            Ok(event) => decoded(bytes@) == Ok::<StoredEventView, Seq<char>>(event@),
            Err(error) => decoded(bytes@) == Err::<StoredEventView, Seq<char>>(error@),
        },
{
    proof {
        reveal(decoded);
    }
    let (head, rest): ((u64, StoredVenueV1), &[u8]) = match <(u64, StoredVenueV1)>::read_from(
        bytes,
    ) {
        Ok(read) => read,
        Err(error) => return Err(error),
    };
    let (market_coin, rest): (String, &[u8]) = match take_text(rest) {
        Ok(read) => read,
        Err(error) => return Err(error),
    };
    let (times, rest): ((u64, u64), &[u8]) = match <(u64, u64)>::read_from(rest) {
        Ok(read) => read,
        Err(error) => return Err(error),
    };
    let (exchange_times, rest): (Vec<StoredExchangeTimeObservationV1>, &[u8]) = match read_list(
        rest,
    ) {
        Ok(read) => read,
        Err(error) => return Err(error),
    };
    let (source_id, rest): (Option<StoredSourceIdV1>, &[u8]) = match read_optional_source(rest) {
        Ok(read) => read,
        Err(error) => return Err(error),
    };
    match read_payload(rest) {
        Ok((payload, _)) => Ok(
            StoredEventV1 {
                capture_sequence: head.0,
                venue: head.1,
                market_coin,
                local_receive_time: times.0,
                processing_completion_time: times.1,
                exchange_times,
                source_id,
                payload,
            },
        ),
        Err(error) => Err(error),
    }
}

/// Decoding gives back the stored event that was encoded.
pub proof fn lemma_event_round_trip(event: StoredEventView, rest: Seq<u8>)
    requires
        encodable(event),
    ensures
        event_reading(event_encoding(event) + rest) == Ok::<(StoredEventView, Seq<u8>), Seq<char>>(
            (event, rest),
        ),
        decoded(event_encoding(event)) == Ok::<StoredEventView, Seq<char>>(event),
{
    reveal(decoded);
    lemma_event_reads_back(event, rest);
    lemma_event_reads_back(event, Seq::empty());
    assert(event_encoding(event) + Seq::<u8>::empty() =~= event_encoding(event));
}

/// Six concatenated parts, regrouped from the right.
proof fn lemma_regroup(
    a: Seq<u8>,
    b: Seq<u8>,
    c: Seq<u8>,
    d: Seq<u8>,
    e: Seq<u8>,
    f: Seq<u8>,
    rest: Seq<u8>,
)
    ensures
        a + b + c + d + e + f + rest == a + (b + (c + (d + (e + (f + rest))))),
{
    lemma_concat_associates(a + b + c + d + e, f, rest);
    lemma_concat_associates(a + b + c + d, e, f + rest);
    lemma_concat_associates(a + b + c, d, e + (f + rest));
    lemma_concat_associates(a + b, c, d + (e + (f + rest)));
    lemma_concat_associates(a, b, c + (d + (e + (f + rest))));
}

proof fn lemma_optional_source_round_trip(source_id: Option<SourceIdView>, rest: Seq<u8>)
    requires
        source_id matches Some(source_id) ==> source_encodable(source_id),
    ensures
        optional_source_reading(optional_source_encoding(source_id) + rest) == Ok::<
            (Option<SourceIdView>, Seq<u8>),
            Seq<char>,
        >((source_id, rest)),
{
    reveal(optional_source_encoding);
    reveal(optional_source_reading);
    match source_id {
        None => {
            0u8.round_trip(rest);
        },
        Some(source_id) => {
            lemma_concat_associates(seq![1u8], source_encoding(source_id), rest);
            1u8.round_trip(source_encoding(source_id) + rest);
            lemma_source_round_trip(source_id, rest);
        },
    }
}

proof fn lemma_event_reads_back(event: StoredEventView, rest: Seq<u8>)
    requires
        encodable(event),
    ensures
        event_reading(event_encoding(event) + rest) == Ok::<(StoredEventView, Seq<u8>), Seq<char>>(
            (event, rest),
        ),
{
    reveal(event_encoding);
    let head = (event.capture_sequence, event.venue);
    let times = (event.local_receive_time, event.processing_completion_time);
    let coin = text_bytes(event.market_coin);
    let list = list_encoding(event.exchange_times);
    let source = optional_source_encoding(event.source_id);
    let payload = payload_encoding(event.payload);
    lemma_regroup(head.encoding(), coin, times.encoding(), list, source, payload, rest);
    let from_payload = payload + rest;
    let from_source = source + from_payload;
    let from_list = list + from_source;
    let from_times = times.encoding() + from_list;
    let from_coin = coin + from_times;
    let bytes = event_encoding(event) + rest;
    assert(bytes == head.encoding() + from_coin);
    head.round_trip(from_coin);
    assert(<(u64, StoredVenueV1)>::reading(bytes) == Ok::<
        ((u64, StoredVenueV1), Seq<u8>),
        Seq<char>,
    >((head, from_coin)));
    lemma_text_round_trip(event.market_coin, from_times);
    times.round_trip(from_list);
    lemma_list_round_trip(event.exchange_times, from_source);
    lemma_optional_source_round_trip(event.source_id, from_payload);
    lemma_payload_round_trip(event.payload, rest);
}

} // verus!
