//! The versioned storage form of normalized events.
use vstd::prelude::*;
use vstd::std_specs::convert::FromSpec;
use vstd::utf8::encode_utf8;

use crate::domain::decimal::{parts_units, DecimalParseError};
use crate::domain::price::lemma_price_value;
use crate::domain::quantity::lemma_quantity_value;
use crate::domain::symbol::market_coin_error;
use crate::domain::{MarketCoin, Price, Quantity, Symbol, Venue};
use crate::market_data::event::{
    EventView, IdentityView, ResumedView, TimestampsView, UnavailableView,
};
use crate::market_data::order_book::{
    lemma_order_count, lemma_outcome_unique, lemma_snapshot_unique, lemma_valid_snapshot_accepted,
    levels_valid, snapshot_outcome, SnapshotView,
};
use crate::market_data::{
    AggressorSide, AggressorSideClassification, BestBidOffer, BookLevel, EventTimestamps,
    ExchangeTimeKind, ExchangeTimeObservation, ExchangeTimeUnit, LocalObservationTime,
    MarketDataUnavailable, MarketTrade, MarketTradeIdentity, MarketTradeKind,
    MarketTradeReportingKind, NormalizedMarketEvent, OrderBookSnapshot, OrderCount,
    TradeStreamResumed, UnavailabilityCategory,
};

verus! {

/// How many levels per side of a full-depth book are stored.
pub const STORED_DEPTH: usize = 10;

/// The stored form of `Venue`. The order of the variants is part of the format.
#[derive(Clone, Copy, Debug, Eq, PartialEq, Structural)]
pub enum StoredVenueV1 {
    Aster,
    Hyperliquid,
    Lighter,
    Binance,
}

impl vstd::std_specs::convert::FromSpecImpl<Venue> for StoredVenueV1 {
    open spec fn obeys_from_spec() -> bool {
        true
    }

    open spec fn from_spec(value: Venue) -> Self {
        match value {
            Venue::Aster => StoredVenueV1::Aster,
            Venue::Hyperliquid => StoredVenueV1::Hyperliquid,
            Venue::Lighter => StoredVenueV1::Lighter,
            Venue::Binance => StoredVenueV1::Binance,
        }
    }
}

impl From<Venue> for StoredVenueV1 {
    fn from(value: Venue) -> (stored: Self) {
        match value {
            Venue::Aster => StoredVenueV1::Aster,
            Venue::Hyperliquid => StoredVenueV1::Hyperliquid,
            Venue::Lighter => StoredVenueV1::Lighter,
            Venue::Binance => StoredVenueV1::Binance,
        }
    }
}

impl vstd::std_specs::convert::FromSpecImpl<StoredVenueV1> for Venue {
    open spec fn obeys_from_spec() -> bool {
        true
    }

    open spec fn from_spec(value: StoredVenueV1) -> Self {
        match value {
            StoredVenueV1::Aster => Venue::Aster,
            StoredVenueV1::Hyperliquid => Venue::Hyperliquid,
            StoredVenueV1::Lighter => Venue::Lighter,
            StoredVenueV1::Binance => Venue::Binance,
        }
    }
}

impl From<StoredVenueV1> for Venue {
    fn from(value: StoredVenueV1) -> (stored: Self) {
        match value {
            StoredVenueV1::Aster => Venue::Aster,
            StoredVenueV1::Hyperliquid => Venue::Hyperliquid,
            StoredVenueV1::Lighter => Venue::Lighter,
            StoredVenueV1::Binance => Venue::Binance,
        }
    }
}

/// The stored form of `ExchangeTimeKind`. The order of the variants is part of the format.
#[derive(Clone, Copy, Debug, Eq, PartialEq, Structural)]
pub enum StoredExchangeTimeKindV1 {
    EventTime,
    TradeTime,
    BlockTime,
    TransactionTime,
    Other,
}

impl vstd::std_specs::convert::FromSpecImpl<ExchangeTimeKind> for StoredExchangeTimeKindV1 {
    open spec fn obeys_from_spec() -> bool {
        true
    }

    open spec fn from_spec(value: ExchangeTimeKind) -> Self {
        match value {
            ExchangeTimeKind::EventTime => StoredExchangeTimeKindV1::EventTime,
            ExchangeTimeKind::TradeTime => StoredExchangeTimeKindV1::TradeTime,
            ExchangeTimeKind::BlockTime => StoredExchangeTimeKindV1::BlockTime,
            ExchangeTimeKind::TransactionTime => StoredExchangeTimeKindV1::TransactionTime,
            ExchangeTimeKind::Other => StoredExchangeTimeKindV1::Other,
        }
    }
}

impl From<ExchangeTimeKind> for StoredExchangeTimeKindV1 {
    fn from(value: ExchangeTimeKind) -> (stored: Self) {
        match value {
            ExchangeTimeKind::EventTime => StoredExchangeTimeKindV1::EventTime,
            ExchangeTimeKind::TradeTime => StoredExchangeTimeKindV1::TradeTime,
            ExchangeTimeKind::BlockTime => StoredExchangeTimeKindV1::BlockTime,
            ExchangeTimeKind::TransactionTime => StoredExchangeTimeKindV1::TransactionTime,
            ExchangeTimeKind::Other => StoredExchangeTimeKindV1::Other,
        }
    }
}

impl vstd::std_specs::convert::FromSpecImpl<StoredExchangeTimeKindV1> for ExchangeTimeKind {
    open spec fn obeys_from_spec() -> bool {
        true
    }

    open spec fn from_spec(value: StoredExchangeTimeKindV1) -> Self {
        match value {
            StoredExchangeTimeKindV1::EventTime => ExchangeTimeKind::EventTime,
            StoredExchangeTimeKindV1::TradeTime => ExchangeTimeKind::TradeTime,
            StoredExchangeTimeKindV1::BlockTime => ExchangeTimeKind::BlockTime,
            StoredExchangeTimeKindV1::TransactionTime => ExchangeTimeKind::TransactionTime,
            StoredExchangeTimeKindV1::Other => ExchangeTimeKind::Other,
        }
    }
}

impl From<StoredExchangeTimeKindV1> for ExchangeTimeKind {
    fn from(value: StoredExchangeTimeKindV1) -> (stored: Self) {
        match value {
            StoredExchangeTimeKindV1::EventTime => ExchangeTimeKind::EventTime,
            StoredExchangeTimeKindV1::TradeTime => ExchangeTimeKind::TradeTime,
            StoredExchangeTimeKindV1::BlockTime => ExchangeTimeKind::BlockTime,
            StoredExchangeTimeKindV1::TransactionTime => ExchangeTimeKind::TransactionTime,
            StoredExchangeTimeKindV1::Other => ExchangeTimeKind::Other,
        }
    }
}

/// The stored form of `ExchangeTimeUnit`. The order of the variants is part of the format.
#[derive(Clone, Copy, Debug, Eq, PartialEq, Structural)]
pub enum StoredExchangeTimeUnitV1 {
    Milliseconds,
    Microseconds,
    Nanoseconds,
    Unknown,
}

impl vstd::std_specs::convert::FromSpecImpl<ExchangeTimeUnit> for StoredExchangeTimeUnitV1 {
    open spec fn obeys_from_spec() -> bool {
        true
    }

    open spec fn from_spec(value: ExchangeTimeUnit) -> Self {
        match value {
            ExchangeTimeUnit::Milliseconds => StoredExchangeTimeUnitV1::Milliseconds,
            ExchangeTimeUnit::Microseconds => StoredExchangeTimeUnitV1::Microseconds,
            ExchangeTimeUnit::Nanoseconds => StoredExchangeTimeUnitV1::Nanoseconds,
            ExchangeTimeUnit::Unknown => StoredExchangeTimeUnitV1::Unknown,
        }
    }
}

impl From<ExchangeTimeUnit> for StoredExchangeTimeUnitV1 {
    fn from(value: ExchangeTimeUnit) -> (stored: Self) {
        match value {
            ExchangeTimeUnit::Milliseconds => StoredExchangeTimeUnitV1::Milliseconds,
            ExchangeTimeUnit::Microseconds => StoredExchangeTimeUnitV1::Microseconds,
            ExchangeTimeUnit::Nanoseconds => StoredExchangeTimeUnitV1::Nanoseconds,
            ExchangeTimeUnit::Unknown => StoredExchangeTimeUnitV1::Unknown,
        }
    }
}

impl vstd::std_specs::convert::FromSpecImpl<StoredExchangeTimeUnitV1> for ExchangeTimeUnit {
    open spec fn obeys_from_spec() -> bool {
        true
    }

    open spec fn from_spec(value: StoredExchangeTimeUnitV1) -> Self {
        match value {
            StoredExchangeTimeUnitV1::Milliseconds => ExchangeTimeUnit::Milliseconds,
            StoredExchangeTimeUnitV1::Microseconds => ExchangeTimeUnit::Microseconds,
            StoredExchangeTimeUnitV1::Nanoseconds => ExchangeTimeUnit::Nanoseconds,
            StoredExchangeTimeUnitV1::Unknown => ExchangeTimeUnit::Unknown,
        }
    }
}

impl From<StoredExchangeTimeUnitV1> for ExchangeTimeUnit {
    fn from(value: StoredExchangeTimeUnitV1) -> (stored: Self) {
        match value {
            StoredExchangeTimeUnitV1::Milliseconds => ExchangeTimeUnit::Milliseconds,
            StoredExchangeTimeUnitV1::Microseconds => ExchangeTimeUnit::Microseconds,
            StoredExchangeTimeUnitV1::Nanoseconds => ExchangeTimeUnit::Nanoseconds,
            StoredExchangeTimeUnitV1::Unknown => ExchangeTimeUnit::Unknown,
        }
    }
}

/// The stored form of `MarketTradeReportingKind`. The order of the variants is part of the format.
#[derive(Clone, Copy, Debug, Eq, PartialEq, Structural)]
pub enum StoredMarketTradeReportingKindV1 {
    Individual,
    TakerOrderAggregate,
}

impl vstd::std_specs::convert::FromSpecImpl<MarketTradeReportingKind> for StoredMarketTradeReportingKindV1 {
    open spec fn obeys_from_spec() -> bool {
        true
    }

    open spec fn from_spec(value: MarketTradeReportingKind) -> Self {
        match value {
            MarketTradeReportingKind::Individual => StoredMarketTradeReportingKindV1::Individual,
            MarketTradeReportingKind::TakerOrderAggregate => StoredMarketTradeReportingKindV1::TakerOrderAggregate,
        }
    }
}

impl From<MarketTradeReportingKind> for StoredMarketTradeReportingKindV1 {
    fn from(value: MarketTradeReportingKind) -> (stored: Self) {
        match value {
            MarketTradeReportingKind::Individual => StoredMarketTradeReportingKindV1::Individual,
            MarketTradeReportingKind::TakerOrderAggregate => StoredMarketTradeReportingKindV1::TakerOrderAggregate,
        }
    }
}

impl vstd::std_specs::convert::FromSpecImpl<StoredMarketTradeReportingKindV1> for MarketTradeReportingKind {
    open spec fn obeys_from_spec() -> bool {
        true
    }

    open spec fn from_spec(value: StoredMarketTradeReportingKindV1) -> Self {
        match value {
            StoredMarketTradeReportingKindV1::Individual => MarketTradeReportingKind::Individual,
            StoredMarketTradeReportingKindV1::TakerOrderAggregate => MarketTradeReportingKind::TakerOrderAggregate,
        }
    }
}

impl From<StoredMarketTradeReportingKindV1> for MarketTradeReportingKind {
    fn from(value: StoredMarketTradeReportingKindV1) -> (stored: Self) {
        match value {
            StoredMarketTradeReportingKindV1::Individual => MarketTradeReportingKind::Individual,
            StoredMarketTradeReportingKindV1::TakerOrderAggregate => MarketTradeReportingKind::TakerOrderAggregate,
        }
    }
}

/// The stored form of `MarketTradeKind`. The order of the variants is part of the format.
#[derive(Clone, Copy, Debug, Eq, PartialEq, Structural)]
pub enum StoredMarketTradeKindV1 {
    Regular,
    Liquidation,
    Deleverage,
    MarketSettlement,
    Other,
}

impl vstd::std_specs::convert::FromSpecImpl<MarketTradeKind> for StoredMarketTradeKindV1 {
    open spec fn obeys_from_spec() -> bool {
        true
    }

    open spec fn from_spec(value: MarketTradeKind) -> Self {
        match value {
            MarketTradeKind::Regular => StoredMarketTradeKindV1::Regular,
            MarketTradeKind::Liquidation => StoredMarketTradeKindV1::Liquidation,
            MarketTradeKind::Deleverage => StoredMarketTradeKindV1::Deleverage,
            MarketTradeKind::MarketSettlement => StoredMarketTradeKindV1::MarketSettlement,
            MarketTradeKind::Other => StoredMarketTradeKindV1::Other,
        }
    }
}

impl From<MarketTradeKind> for StoredMarketTradeKindV1 {
    fn from(value: MarketTradeKind) -> (stored: Self) {
        match value {
            MarketTradeKind::Regular => StoredMarketTradeKindV1::Regular,
            MarketTradeKind::Liquidation => StoredMarketTradeKindV1::Liquidation,
            MarketTradeKind::Deleverage => StoredMarketTradeKindV1::Deleverage,
            MarketTradeKind::MarketSettlement => StoredMarketTradeKindV1::MarketSettlement,
            MarketTradeKind::Other => StoredMarketTradeKindV1::Other,
        }
    }
}

impl vstd::std_specs::convert::FromSpecImpl<StoredMarketTradeKindV1> for MarketTradeKind {
    open spec fn obeys_from_spec() -> bool {
        true
    }

    open spec fn from_spec(value: StoredMarketTradeKindV1) -> Self {
        match value {
            StoredMarketTradeKindV1::Regular => MarketTradeKind::Regular,
            StoredMarketTradeKindV1::Liquidation => MarketTradeKind::Liquidation,
            StoredMarketTradeKindV1::Deleverage => MarketTradeKind::Deleverage,
            StoredMarketTradeKindV1::MarketSettlement => MarketTradeKind::MarketSettlement,
            StoredMarketTradeKindV1::Other => MarketTradeKind::Other,
        }
    }
}

impl From<StoredMarketTradeKindV1> for MarketTradeKind {
    fn from(value: StoredMarketTradeKindV1) -> (stored: Self) {
        match value {
            StoredMarketTradeKindV1::Regular => MarketTradeKind::Regular,
            StoredMarketTradeKindV1::Liquidation => MarketTradeKind::Liquidation,
            StoredMarketTradeKindV1::Deleverage => MarketTradeKind::Deleverage,
            StoredMarketTradeKindV1::MarketSettlement => MarketTradeKind::MarketSettlement,
            StoredMarketTradeKindV1::Other => MarketTradeKind::Other,
        }
    }
}

/// The stored form of `AggressorSide`. The order of the variants is part of the format.
#[derive(Clone, Copy, Debug, Eq, PartialEq, Structural)]
pub enum StoredAggressorSideV1 {
    Buy,
    Sell,
    Unknown,
}

impl vstd::std_specs::convert::FromSpecImpl<AggressorSide> for StoredAggressorSideV1 {
    open spec fn obeys_from_spec() -> bool {
        true
    }

    open spec fn from_spec(value: AggressorSide) -> Self {
        match value {
            AggressorSide::Buy => StoredAggressorSideV1::Buy,
            AggressorSide::Sell => StoredAggressorSideV1::Sell,
            AggressorSide::Unknown => StoredAggressorSideV1::Unknown,
        }
    }
}

impl From<AggressorSide> for StoredAggressorSideV1 {
    fn from(value: AggressorSide) -> (stored: Self) {
        match value {
            AggressorSide::Buy => StoredAggressorSideV1::Buy,
            AggressorSide::Sell => StoredAggressorSideV1::Sell,
            AggressorSide::Unknown => StoredAggressorSideV1::Unknown,
        }
    }
}

impl vstd::std_specs::convert::FromSpecImpl<StoredAggressorSideV1> for AggressorSide {
    open spec fn obeys_from_spec() -> bool {
        true
    }

    open spec fn from_spec(value: StoredAggressorSideV1) -> Self {
        match value {
            StoredAggressorSideV1::Buy => AggressorSide::Buy,
            StoredAggressorSideV1::Sell => AggressorSide::Sell,
            StoredAggressorSideV1::Unknown => AggressorSide::Unknown,
        }
    }
}

impl From<StoredAggressorSideV1> for AggressorSide {
    fn from(value: StoredAggressorSideV1) -> (stored: Self) {
        match value {
            StoredAggressorSideV1::Buy => AggressorSide::Buy,
            StoredAggressorSideV1::Sell => AggressorSide::Sell,
            StoredAggressorSideV1::Unknown => AggressorSide::Unknown,
        }
    }
}

/// The stored form of `AggressorSideClassification`. The order of the variants is part of the format.
#[derive(Clone, Copy, Debug, Eq, PartialEq, Structural)]
pub enum StoredAggressorSideClassificationV1 {
    VenueProvided,
    DerivedFromMakerSide,
    Unknown,
}

impl vstd::std_specs::convert::FromSpecImpl<AggressorSideClassification> for StoredAggressorSideClassificationV1 {
    open spec fn obeys_from_spec() -> bool {
        true
    }

    open spec fn from_spec(value: AggressorSideClassification) -> Self {
        match value {
            AggressorSideClassification::VenueProvided => StoredAggressorSideClassificationV1::VenueProvided,
            AggressorSideClassification::DerivedFromMakerSide => StoredAggressorSideClassificationV1::DerivedFromMakerSide,
            AggressorSideClassification::Unknown => StoredAggressorSideClassificationV1::Unknown,
        }
    }
}

impl From<AggressorSideClassification> for StoredAggressorSideClassificationV1 {
    fn from(value: AggressorSideClassification) -> (stored: Self) {
        match value {
            AggressorSideClassification::VenueProvided => StoredAggressorSideClassificationV1::VenueProvided,
            AggressorSideClassification::DerivedFromMakerSide => StoredAggressorSideClassificationV1::DerivedFromMakerSide,
            AggressorSideClassification::Unknown => StoredAggressorSideClassificationV1::Unknown,
        }
    }
}

impl vstd::std_specs::convert::FromSpecImpl<StoredAggressorSideClassificationV1> for AggressorSideClassification {
    open spec fn obeys_from_spec() -> bool {
        true
    }

    open spec fn from_spec(value: StoredAggressorSideClassificationV1) -> Self {
        match value {
            StoredAggressorSideClassificationV1::VenueProvided => AggressorSideClassification::VenueProvided,
            StoredAggressorSideClassificationV1::DerivedFromMakerSide => AggressorSideClassification::DerivedFromMakerSide,
            StoredAggressorSideClassificationV1::Unknown => AggressorSideClassification::Unknown,
        }
    }
}

impl From<StoredAggressorSideClassificationV1> for AggressorSideClassification {
    fn from(value: StoredAggressorSideClassificationV1) -> (stored: Self) {
        match value {
            StoredAggressorSideClassificationV1::VenueProvided => AggressorSideClassification::VenueProvided,
            StoredAggressorSideClassificationV1::DerivedFromMakerSide => AggressorSideClassification::DerivedFromMakerSide,
            StoredAggressorSideClassificationV1::Unknown => AggressorSideClassification::Unknown,
        }
    }
}

/// The stored form of `UnavailabilityCategory`. The order of the variants is part of the format.
#[derive(Clone, Copy, Debug, Eq, PartialEq, Structural)]
pub enum StoredUnavailabilityCategoryV1 {
    Disconnected,
    InvalidMarketData,
    SequenceGap,
    RecorderShutdown,
    Other,
}

impl vstd::std_specs::convert::FromSpecImpl<UnavailabilityCategory> for StoredUnavailabilityCategoryV1 {
    open spec fn obeys_from_spec() -> bool {
        true
    }

    open spec fn from_spec(value: UnavailabilityCategory) -> Self {
        match value {
            UnavailabilityCategory::Disconnected => StoredUnavailabilityCategoryV1::Disconnected,
            UnavailabilityCategory::InvalidMarketData => StoredUnavailabilityCategoryV1::InvalidMarketData,
            UnavailabilityCategory::SequenceGap => StoredUnavailabilityCategoryV1::SequenceGap,
            UnavailabilityCategory::RecorderShutdown => StoredUnavailabilityCategoryV1::RecorderShutdown,
            UnavailabilityCategory::Other => StoredUnavailabilityCategoryV1::Other,
        }
    }
}

impl From<UnavailabilityCategory> for StoredUnavailabilityCategoryV1 {
    fn from(value: UnavailabilityCategory) -> (stored: Self) {
        match value {
            UnavailabilityCategory::Disconnected => StoredUnavailabilityCategoryV1::Disconnected,
            UnavailabilityCategory::InvalidMarketData => StoredUnavailabilityCategoryV1::InvalidMarketData,
            UnavailabilityCategory::SequenceGap => StoredUnavailabilityCategoryV1::SequenceGap,
            UnavailabilityCategory::RecorderShutdown => StoredUnavailabilityCategoryV1::RecorderShutdown,
            UnavailabilityCategory::Other => StoredUnavailabilityCategoryV1::Other,
        }
    }
}

impl vstd::std_specs::convert::FromSpecImpl<StoredUnavailabilityCategoryV1> for UnavailabilityCategory {
    open spec fn obeys_from_spec() -> bool {
        true
    }

    open spec fn from_spec(value: StoredUnavailabilityCategoryV1) -> Self {
        match value {
            StoredUnavailabilityCategoryV1::Disconnected => UnavailabilityCategory::Disconnected,
            StoredUnavailabilityCategoryV1::InvalidMarketData => UnavailabilityCategory::InvalidMarketData,
            StoredUnavailabilityCategoryV1::SequenceGap => UnavailabilityCategory::SequenceGap,
            StoredUnavailabilityCategoryV1::RecorderShutdown => UnavailabilityCategory::RecorderShutdown,
            StoredUnavailabilityCategoryV1::Other => UnavailabilityCategory::Other,
        }
    }
}

impl From<StoredUnavailabilityCategoryV1> for UnavailabilityCategory {
    fn from(value: StoredUnavailabilityCategoryV1) -> (stored: Self) {
        match value {
            StoredUnavailabilityCategoryV1::Disconnected => UnavailabilityCategory::Disconnected,
            StoredUnavailabilityCategoryV1::InvalidMarketData => UnavailabilityCategory::InvalidMarketData,
            StoredUnavailabilityCategoryV1::SequenceGap => UnavailabilityCategory::SequenceGap,
            StoredUnavailabilityCategoryV1::RecorderShutdown => UnavailabilityCategory::RecorderShutdown,
            StoredUnavailabilityCategoryV1::Other => UnavailabilityCategory::Other,
        }
    }
}

/// The stored form of an exchange time observation.
#[derive(Clone, Copy, Debug, Eq, PartialEq, Structural)]
pub struct StoredExchangeTimeObservationV1 {
    pub kind: StoredExchangeTimeKindV1,
    pub raw_value: u64,
    pub declared_unit: StoredExchangeTimeUnitV1,
}

impl vstd::std_specs::convert::FromSpecImpl<ExchangeTimeObservation> for StoredExchangeTimeObservationV1 {
    open spec fn obeys_from_spec() -> bool {
        true
    }

    open spec fn from_spec(value: ExchangeTimeObservation) -> Self {
        StoredExchangeTimeObservationV1 {
            kind: <StoredExchangeTimeKindV1 as FromSpec<ExchangeTimeKind>>::from_spec(value.kind),
            raw_value: value.raw_value,
            declared_unit: <StoredExchangeTimeUnitV1 as FromSpec<ExchangeTimeUnit>>::from_spec(value.declared_unit),
        }
    }
}

impl From<ExchangeTimeObservation> for StoredExchangeTimeObservationV1 {
    fn from(value: ExchangeTimeObservation) -> (stored: Self) {
        StoredExchangeTimeObservationV1 {
            kind: StoredExchangeTimeKindV1::from(value.kind),
            raw_value: value.raw_value,
            declared_unit: StoredExchangeTimeUnitV1::from(value.declared_unit),
        }
    }
}

impl vstd::std_specs::convert::FromSpecImpl<StoredExchangeTimeObservationV1> for ExchangeTimeObservation {
    open spec fn obeys_from_spec() -> bool {
        true
    }

    open spec fn from_spec(value: StoredExchangeTimeObservationV1) -> Self {
        ExchangeTimeObservation {
            kind: <ExchangeTimeKind as FromSpec<StoredExchangeTimeKindV1>>::from_spec(value.kind),
            raw_value: value.raw_value,
            declared_unit: <ExchangeTimeUnit as FromSpec<StoredExchangeTimeUnitV1>>::from_spec(value.declared_unit),
        }
    }
}

impl From<StoredExchangeTimeObservationV1> for ExchangeTimeObservation {
    fn from(value: StoredExchangeTimeObservationV1) -> (restored: Self) {
        ExchangeTimeObservation {
            kind: ExchangeTimeKind::from(value.kind),
            raw_value: value.raw_value,
            declared_unit: ExchangeTimeUnit::from(value.declared_unit),
        }
    }
}

/// The stored form of a decimal: `coefficient / 10^scale`.
#[derive(Clone, Copy, Debug, Eq, PartialEq, Structural)]
pub struct StoredDecimalV1 {
    pub coefficient: i128,
    pub scale: u8,
}

/// The stored form of a level.
#[derive(Clone, Copy, Debug, Eq, PartialEq, Structural)]
pub struct StoredBookLevelV1 {
    pub price: StoredDecimalV1,
    pub quantity: StoredDecimalV1,
    pub order_count: Option<u32>,
}

/// What is stored of a level.
pub open spec fn stored_level(level: BookLevel) -> StoredBookLevelV1 {
    StoredBookLevelV1 {
        price: stored_price_value(level.price),
        quantity: stored_quantity_value(level.quantity),
        order_count: match level.order_count {
            Some(count) => Some(count.count()),
            None => None,
        },
    }
}

/// What is stored of a price.
pub open spec fn stored_price_value(price: Price) -> StoredDecimalV1 {
    StoredDecimalV1 {
        coefficient: price.coefficient_value() as i128,
        scale: price.scale_value() as u8,
    }
}

/// What is stored of a quantity.
pub open spec fn stored_quantity_value(quantity: Quantity) -> StoredDecimalV1 {
    StoredDecimalV1 {
        coefficient: quantity.coefficient_value() as i128,
        scale: quantity.scale_value() as u8,
    }
}

impl vstd::std_specs::convert::FromSpecImpl<BookLevel> for StoredBookLevelV1 {
    open spec fn obeys_from_spec() -> bool {
        true
    }

    open spec fn from_spec(value: BookLevel) -> Self {
        stored_level(value)
    }
}

impl From<BookLevel> for StoredBookLevelV1 {
    fn from(value: BookLevel) -> (stored: Self) {
        StoredBookLevelV1 {
            price: StoredDecimalV1 {
                coefficient: value.price.coefficient(),
                scale: value.price.scale(),
            },
            quantity: StoredDecimalV1 {
                coefficient: value.quantity.coefficient(),
                scale: value.quantity.scale(),
            },
            order_count: match value.order_count {
                Some(count) => Some(count.get()),
                None => None,
            },
        }
    }
}

/// The stored source identity of an event.
#[derive(Debug, Eq, PartialEq)]
pub enum StoredSourceIdV1 {
    OrderBookSequence(u64),
    AsterTrade { aggregate_trade_id: u64, first_trade_id: u64, last_trade_id: u64 },
    HyperliquidTrade { block_time: u64, trade_id: u64, transaction_hash: String },
    LighterTrade { market_id: u32, trade_id_string: String, message_nonce: Option<u64> },
    BinanceTrade { aggregate_trade_id: u64, first_trade_id: u64, last_trade_id: u64 },
}

/// The model of `StoredSourceIdV1`.
pub enum SourceIdView {
    OrderBookSequence(u64),
    AsterTrade { aggregate_trade_id: u64, first_trade_id: u64, last_trade_id: u64 },
    HyperliquidTrade { block_time: u64, trade_id: u64, transaction_hash: Seq<char> },
    LighterTrade { market_id: u32, trade_id_string: Seq<char>, message_nonce: Option<u64> },
    BinanceTrade { aggregate_trade_id: u64, first_trade_id: u64, last_trade_id: u64 },
}

impl View for StoredSourceIdV1 {
    type V = SourceIdView;

    open spec fn view(&self) -> SourceIdView {
        match *self {
            StoredSourceIdV1::OrderBookSequence(sequence) => SourceIdView::OrderBookSequence(
                sequence,
            ),
            StoredSourceIdV1::AsterTrade { aggregate_trade_id, first_trade_id, last_trade_id } =>
                SourceIdView::AsterTrade { aggregate_trade_id, first_trade_id, last_trade_id },
            StoredSourceIdV1::HyperliquidTrade { block_time, trade_id, transaction_hash } =>
                SourceIdView::HyperliquidTrade {
                    block_time,
                    trade_id,
                    transaction_hash: transaction_hash@,
                },
            StoredSourceIdV1::LighterTrade { market_id, trade_id_string, message_nonce } =>
                SourceIdView::LighterTrade {
                    market_id,
                    trade_id_string: trade_id_string@,
                    message_nonce,
                },
            StoredSourceIdV1::BinanceTrade { aggregate_trade_id, first_trade_id, last_trade_id } =>
                SourceIdView::BinanceTrade { aggregate_trade_id, first_trade_id, last_trade_id },
        }
    }
}

impl Clone for StoredSourceIdV1 {
    fn clone(&self) -> (copy: Self)
        ensures
            copy@ == self@,
    {
        match self {
            StoredSourceIdV1::OrderBookSequence(sequence) => StoredSourceIdV1::OrderBookSequence(
                *sequence,
            ),
            StoredSourceIdV1::AsterTrade { aggregate_trade_id, first_trade_id, last_trade_id } =>
                StoredSourceIdV1::AsterTrade {
                    aggregate_trade_id: *aggregate_trade_id,
                    first_trade_id: *first_trade_id,
                    last_trade_id: *last_trade_id,
                },
            StoredSourceIdV1::HyperliquidTrade { block_time, trade_id, transaction_hash } =>
                StoredSourceIdV1::HyperliquidTrade {
                    block_time: *block_time,
                    trade_id: *trade_id,
                    transaction_hash: transaction_hash.clone(),
                },
            StoredSourceIdV1::LighterTrade { market_id, trade_id_string, message_nonce } =>
                StoredSourceIdV1::LighterTrade {
                    market_id: *market_id,
                    trade_id_string: trade_id_string.clone(),
                    message_nonce: *message_nonce,
                },
            StoredSourceIdV1::BinanceTrade { aggregate_trade_id, first_trade_id, last_trade_id } =>
                StoredSourceIdV1::BinanceTrade {
                    aggregate_trade_id: *aggregate_trade_id,
                    first_trade_id: *first_trade_id,
                    last_trade_id: *last_trade_id,
                },
        }
    }
}

/// The stored payload of an event.
#[derive(Debug, Eq, PartialEq)]
pub enum StoredPayloadV1 {
    OrderBookSnapshot { bids: Vec<StoredBookLevelV1>, asks: Vec<StoredBookLevelV1> },
    OrderBookUnavailable { category: StoredUnavailabilityCategoryV1, diagnostic: String },
    MarketTrade {
        price: StoredDecimalV1,
        quantity: StoredDecimalV1,
        reporting_kind: StoredMarketTradeReportingKindV1,
        trade_kind: StoredMarketTradeKindV1,
        aggressor_side: StoredAggressorSideV1,
        aggressor_side_classification: StoredAggressorSideClassificationV1,
    },
    TradeStreamUnavailable { category: StoredUnavailabilityCategoryV1, diagnostic: String },
    TradeStreamResumed,
    BestBidOfferUpdated { bid: Option<StoredBookLevelV1>, ask: Option<StoredBookLevelV1> },
}

/// The model of `StoredPayloadV1`.
pub enum PayloadView {
    OrderBookSnapshot { bids: Seq<StoredBookLevelV1>, asks: Seq<StoredBookLevelV1> },
    OrderBookUnavailable { category: StoredUnavailabilityCategoryV1, diagnostic: Seq<char> },
    MarketTrade {
        price: StoredDecimalV1,
        quantity: StoredDecimalV1,
        reporting_kind: StoredMarketTradeReportingKindV1,
        trade_kind: StoredMarketTradeKindV1,
        aggressor_side: StoredAggressorSideV1,
        aggressor_side_classification: StoredAggressorSideClassificationV1,
    },
    TradeStreamUnavailable { category: StoredUnavailabilityCategoryV1, diagnostic: Seq<char> },
    TradeStreamResumed,
    BestBidOfferUpdated { bid: Option<StoredBookLevelV1>, ask: Option<StoredBookLevelV1> },
}

impl View for StoredPayloadV1 {
    type V = PayloadView;

    open spec fn view(&self) -> PayloadView {
        match *self {
            StoredPayloadV1::OrderBookSnapshot { bids, asks } => PayloadView::OrderBookSnapshot {
                bids: bids@,
                asks: asks@,
            },
            StoredPayloadV1::OrderBookUnavailable { category, diagnostic } =>
                PayloadView::OrderBookUnavailable { category, diagnostic: diagnostic@ },
            StoredPayloadV1::MarketTrade {
                price,
                quantity,
                reporting_kind,
                trade_kind,
                aggressor_side,
                aggressor_side_classification,
            } => PayloadView::MarketTrade {
                price,
                quantity,
                reporting_kind,
                trade_kind,
                aggressor_side,
                aggressor_side_classification,
            },
            StoredPayloadV1::TradeStreamUnavailable { category, diagnostic } =>
                PayloadView::TradeStreamUnavailable { category, diagnostic: diagnostic@ },
            StoredPayloadV1::TradeStreamResumed => PayloadView::TradeStreamResumed,
            StoredPayloadV1::BestBidOfferUpdated { bid, ask } => PayloadView::BestBidOfferUpdated {
                bid,
                ask,
            },
        }
    }
}

impl Clone for StoredPayloadV1 {
    fn clone(&self) -> (copy: Self)
        ensures
            copy@ == self@,
    {
        match self {
            StoredPayloadV1::OrderBookSnapshot { bids, asks } =>
                StoredPayloadV1::OrderBookSnapshot {
                    bids: vstd::slice::slice_to_vec(bids.as_slice()),
                    asks: vstd::slice::slice_to_vec(asks.as_slice()),
                },
            StoredPayloadV1::OrderBookUnavailable { category, diagnostic } =>
                StoredPayloadV1::OrderBookUnavailable {
                    category: *category,
                    diagnostic: diagnostic.clone(),
                },
            StoredPayloadV1::MarketTrade {
                price,
                quantity,
                reporting_kind,
                trade_kind,
                aggressor_side,
                aggressor_side_classification,
            } => StoredPayloadV1::MarketTrade {
                price: *price,
                quantity: *quantity,
                reporting_kind: *reporting_kind,
                trade_kind: *trade_kind,
                aggressor_side: *aggressor_side,
                aggressor_side_classification: *aggressor_side_classification,
            },
            StoredPayloadV1::TradeStreamUnavailable { category, diagnostic } =>
                StoredPayloadV1::TradeStreamUnavailable {
                    category: *category,
                    diagnostic: diagnostic.clone(),
                },
            StoredPayloadV1::TradeStreamResumed => StoredPayloadV1::TradeStreamResumed,
            StoredPayloadV1::BestBidOfferUpdated { bid, ask } =>
                StoredPayloadV1::BestBidOfferUpdated { bid: *bid, ask: *ask },
        }
    }
}

/// One recorded event.
#[derive(Debug, Eq, PartialEq)]
pub struct StoredEventV1 {
    pub capture_sequence: u64,
    pub venue: StoredVenueV1,
    pub market_coin: String,
    pub local_receive_time: u64,
    pub processing_completion_time: u64,
    pub exchange_times: Vec<StoredExchangeTimeObservationV1>,
    pub source_id: Option<StoredSourceIdV1>,
    pub payload: StoredPayloadV1,
}

/// The model of `StoredEventV1`.
pub struct StoredEventView {
    pub capture_sequence: u64,
    pub venue: StoredVenueV1,
    pub market_coin: Seq<char>,
    pub local_receive_time: u64,
    pub processing_completion_time: u64,
    pub exchange_times: Seq<StoredExchangeTimeObservationV1>,
    pub source_id: Option<SourceIdView>,
    pub payload: PayloadView,
}

/// The model of an optional source identity.
pub open spec fn optional_source(source_id: Option<StoredSourceIdV1>) -> Option<SourceIdView> {
    match source_id {
        Some(source_id) => Some(source_id@),
        None => None,
    }
}

impl View for StoredEventV1 {
    type V = StoredEventView;

    open spec fn view(&self) -> StoredEventView {
        StoredEventView {
            capture_sequence: self.capture_sequence,
            venue: self.venue,
            market_coin: self.market_coin@,
            local_receive_time: self.local_receive_time,
            processing_completion_time: self.processing_completion_time,
            exchange_times: self.exchange_times@,
            source_id: optional_source(self.source_id),
            payload: self.payload@,
        }
    }
}

impl Clone for StoredEventV1 {
    fn clone(&self) -> (copy: Self)
        ensures
            copy@ == self@,
    {
        StoredEventV1 {
            capture_sequence: self.capture_sequence,
            venue: self.venue,
            market_coin: self.market_coin.clone(),
            local_receive_time: self.local_receive_time,
            processing_completion_time: self.processing_completion_time,
            exchange_times: vstd::slice::slice_to_vec(self.exchange_times.as_slice()),
            source_id: match &self.source_id {
                Some(source_id) => Some(source_id.clone()),
                None => None,
            },
            payload: self.payload.clone(),
        }
    }
}

/// Why an event has no storage form, or a stored event no normalized form.
#[derive(Clone, Copy, Debug, Eq, PartialEq, Structural)]
pub enum StorageConversionError {
    ZeroCaptureSequence,
    TradeIdentityVenueMismatch,
    InvalidMarketCoin,
    InvalidPrice,
    InvalidQuantity,
    InvalidOrderCount,
    InvalidOrderBook,
    MissingOrderBookSequence,
    MissingTradeIdentity,
}

/// The levels of a side that are stored: all of them, but only the best ten of
/// the full depth that Lighter delivers.
pub open spec fn stored_depth(venue: Venue, levels: Seq<BookLevel>) -> Seq<BookLevel> {
    if venue == Venue::Lighter && levels.len() > STORED_DEPTH {
        levels.take(STORED_DEPTH as int)
    } else {
        levels
    }
}

/// The stored forms of levels.
pub open spec fn stored_levels(levels: Seq<BookLevel>) -> Seq<StoredBookLevelV1> {
    Seq::new(levels.len(), |i: int| stored_level(levels[i]))
}

/// The stored forms of exchange time observations.
pub open spec fn stored_times(times: Seq<ExchangeTimeObservation>) -> Seq<
    StoredExchangeTimeObservationV1,
> {
    Seq::new(
        times.len(),
        |i: int|
            StoredExchangeTimeObservationV1::from_spec(times[i]),
    )
}

/// The stored form of a venue.
pub open spec fn stored_venue(venue: Venue) -> StoredVenueV1 {
    StoredVenueV1::from_spec(venue)
}

/// The stored form of a trade identity.
pub open spec fn stored_identity(identity: IdentityView) -> SourceIdView {
    match identity {
        IdentityView::Aster { aggregate_trade_id, first_trade_id, last_trade_id } =>
            SourceIdView::AsterTrade { aggregate_trade_id, first_trade_id, last_trade_id },
        IdentityView::Binance { aggregate_trade_id, first_trade_id, last_trade_id } =>
            SourceIdView::BinanceTrade { aggregate_trade_id, first_trade_id, last_trade_id },
        IdentityView::Hyperliquid { block_time, trade_id, transaction_hash } =>
            SourceIdView::HyperliquidTrade { block_time, trade_id, transaction_hash },
        IdentityView::Lighter { market_id, trade_id, message_nonce } => SourceIdView::LighterTrade {
            market_id,
            trade_id_string: trade_id,
            message_nonce,
        },
    }
}

/// The stored form of an optional level.
pub open spec fn stored_optional_level(level: Option<BookLevel>) -> Option<StoredBookLevelV1> {
    match level {
        Some(level) => Some(stored_level(level)),
        None => None,
    }
}

/// The stored form of an unavailability category.
pub open spec fn stored_category(category: UnavailabilityCategory) -> StoredUnavailabilityCategoryV1 {
    StoredUnavailabilityCategoryV1::from_spec(category)
}

/// The storage form of an event, or why it has none.
pub open spec fn stored_form(sequence: u64, event: EventView) -> Result<
    StoredEventView,
    StorageConversionError,
> {
    if sequence == 0 {
        Err(StorageConversionError::ZeroCaptureSequence)
    } else {
        match event {
            EventView::OrderBookSnapshot(snapshot) => Ok(
                StoredEventView {
                    capture_sequence: sequence,
                    venue: stored_venue(snapshot.venue),
                    market_coin: snapshot.coin,
                    local_receive_time: snapshot.timestamps.local_receive.0,
                    processing_completion_time: snapshot.timestamps.processing_completed.0,
                    exchange_times: stored_times(snapshot.timestamps.exchange_times),
                    source_id: match snapshot.source_sequence {
                        Some(sequence) => Some(SourceIdView::OrderBookSequence(sequence)),
                        None => None,
                    },
                    payload: PayloadView::OrderBookSnapshot {
                        bids: stored_levels(stored_depth(snapshot.venue, snapshot.bids)),
                        asks: stored_levels(stored_depth(snapshot.venue, snapshot.asks)),
                    },
                },
            ),
            EventView::BestBidOfferUpdated(bbo) => Ok(
                StoredEventView {
                    capture_sequence: sequence,
                    venue: stored_venue(bbo.venue),
                    market_coin: bbo.coin,
                    local_receive_time: bbo.timestamps.local_receive.0,
                    processing_completion_time: bbo.timestamps.processing_completed.0,
                    exchange_times: stored_times(bbo.timestamps.exchange_times),
                    source_id: None,
                    payload: PayloadView::BestBidOfferUpdated {
                        bid: stored_optional_level(bbo.bid),
                        ask: stored_optional_level(bbo.ask),
                    },
                },
            ),
            EventView::OrderBookUnavailable(event) => Ok(
                stored_transition(
                    sequence,
                    event.venue,
                    event.coin,
                    event.observed_at,
                    PayloadView::OrderBookUnavailable {
                        category: stored_category(event.category),
                        diagnostic: event.diagnostic,
                    },
                ),
            ),
            EventView::MarketTrade(trade) => if trade.identity.venue() != trade.venue {
                Err(StorageConversionError::TradeIdentityVenueMismatch)
            } else {
                Ok(
                    StoredEventView {
                        capture_sequence: sequence,
                        venue: stored_venue(trade.venue),
                        market_coin: trade.coin,
                        local_receive_time: trade.timestamps.local_receive.0,
                        processing_completion_time: trade.timestamps.processing_completed.0,
                        exchange_times: stored_times(trade.timestamps.exchange_times),
                        source_id: Some(stored_identity(trade.identity)),
                        payload: PayloadView::MarketTrade {
                            price: stored_price_value(trade.price),
                            quantity: stored_quantity_value(trade.quantity),
                            reporting_kind:
                                StoredMarketTradeReportingKindV1::from_spec(trade.reporting_kind),
                            trade_kind:
                                StoredMarketTradeKindV1::from_spec(trade.trade_kind),
                            aggressor_side:
                                StoredAggressorSideV1::from_spec(trade.aggressor_side),
                            aggressor_side_classification:
                                StoredAggressorSideClassificationV1::from_spec(trade.aggressor_side_classification),
                        },
                    },
                )
            },
            EventView::TradeStreamUnavailable(event) => Ok(
                stored_transition(
                    sequence,
                    event.venue,
                    event.coin,
                    event.observed_at,
                    PayloadView::TradeStreamUnavailable {
                        category: stored_category(event.category),
                        diagnostic: event.diagnostic,
                    },
                ),
            ),
            EventView::TradeStreamResumed(event) => Ok(
                stored_transition(
                    sequence,
                    event.venue,
                    event.coin,
                    event.observed_at,
                    PayloadView::TradeStreamResumed,
                ),
            ),
        }
    }
}

/// The storage form of an availability transition.
pub open spec fn stored_transition(
    sequence: u64,
    venue: Venue,
    coin: Seq<char>,
    observed_at: LocalObservationTime,
    payload: PayloadView,
) -> StoredEventView {
    StoredEventView {
        capture_sequence: sequence,
        venue: stored_venue(venue),
        market_coin: coin,
        local_receive_time: observed_at.0,
        processing_completion_time: observed_at.0,
        exchange_times: Seq::empty(),
        source_id: None,
        payload,
    }
}

/// Why a stored level cannot be restored, if it cannot.
pub open spec fn level_error(stored: StoredBookLevelV1) -> Option<StorageConversionError> {
    if stored.order_count == Some(0u32) {
        Some(StorageConversionError::InvalidOrderCount)
    } else if stored_units(stored.price) is Err {
        Some(StorageConversionError::InvalidPrice)
    } else if stored_units(stored.quantity) is Err {
        Some(StorageConversionError::InvalidQuantity)
    } else {
        None
    }
}

/// The value of a stored decimal, if it is a positive exact decimal.
pub open spec fn stored_units(stored: StoredDecimalV1) -> Result<nat, DecimalParseError> {
    parts_units(stored.coefficient as int, stored.scale as nat)
}

/// Whether `price` is the price that was stored.
pub open spec fn restores_price(stored: StoredDecimalV1, price: Price) -> bool {
    price.valid() && stored_units(stored) == Ok::<nat, DecimalParseError>(price.units() as nat)
}

/// Whether `quantity` is the quantity that was stored.
pub open spec fn restores_quantity(stored: StoredDecimalV1, quantity: Quantity) -> bool {
    quantity.valid() && stored_units(stored) == Ok::<nat, DecimalParseError>(
        quantity.units() as nat,
    )
}

/// Whether `level` is the level that was stored.
pub open spec fn restores_level(stored: StoredBookLevelV1, level: BookLevel) -> bool {
    &&& restores_price(stored.price, level.price)
    &&& restores_quantity(stored.quantity, level.quantity)
    &&& match (stored.order_count, level.order_count) {
        (Some(stored_count), Some(count)) => stored_count > 0 && count.count() == stored_count,
        (None, None) => true,
        _ => false,
    }
}

/// What stands in the way of restoring the first level that cannot be restored.
pub open spec fn levels_error(stored: Seq<StoredBookLevelV1>) -> Option<StorageConversionError>
    decreases stored.len(),
{
    if stored.len() == 0 {
        None
    } else {
        match levels_error(stored.drop_last()) {
            Some(error) => Some(error),
            None => level_error(stored.last()),
        }
    }
}

/// Whether `levels` are the levels that were stored, in their order.
pub open spec fn restores_levels(stored: Seq<StoredBookLevelV1>, levels: Seq<BookLevel>) -> bool {
    &&& levels.len() == stored.len()
    &&& forall|i: int|
        0 <= i < levels.len() ==> restores_level(stored[i], #[trigger] levels[i])
}

/// What stands in the way of restoring an optional level.
pub open spec fn optional_level_error(stored: Option<StoredBookLevelV1>) -> Option<
    StorageConversionError,
> {
    match stored {
        Some(level) => level_error(level),
        None => None,
    }
}

/// Whether `level` is the optional level that was stored.
pub open spec fn restores_optional_level(
    stored: Option<StoredBookLevelV1>,
    level: Option<BookLevel>,
) -> bool {
    match (stored, level) {
        (Some(stored), Some(level)) => restores_level(stored, level),
        (None, None) => true,
        _ => false,
    }
}

/// The exchange time observations that were stored.
pub open spec fn restored_times(stored: Seq<StoredExchangeTimeObservationV1>) -> Seq<
    ExchangeTimeObservation,
> {
    Seq::new(
        stored.len(),
        |i: int|
            ExchangeTimeObservation::from_spec(stored[i]),
    )
}

/// The venue that was stored.
pub open spec fn restored_venue(stored: StoredVenueV1) -> Venue {
    Venue::from_spec(stored)
}

/// The unavailability category that was stored.
pub open spec fn restored_category(
    stored: StoredUnavailabilityCategoryV1,
) -> UnavailabilityCategory {
    UnavailabilityCategory::from_spec(stored)
}

/// The identity of a trade that was stored, or why there is none.
pub open spec fn restored_identity(venue: Venue, source_id: Option<SourceIdView>) -> Result<
    IdentityView,
    StorageConversionError,
> {
    match source_id {
        None => Err(StorageConversionError::MissingTradeIdentity),
        Some(SourceIdView::AsterTrade { aggregate_trade_id, first_trade_id, last_trade_id }) if venue
            == Venue::Aster => Ok(
            IdentityView::Aster { aggregate_trade_id, first_trade_id, last_trade_id },
        ),
        Some(SourceIdView::BinanceTrade { aggregate_trade_id, first_trade_id, last_trade_id }) if venue
            == Venue::Binance => Ok(
            IdentityView::Binance { aggregate_trade_id, first_trade_id, last_trade_id },
        ),
        Some(SourceIdView::HyperliquidTrade { block_time, trade_id, transaction_hash }) if venue
            == Venue::Hyperliquid => Ok(
            IdentityView::Hyperliquid { block_time, trade_id, transaction_hash },
        ),
        Some(SourceIdView::LighterTrade { market_id, trade_id_string, message_nonce }) if venue
            == Venue::Lighter => Ok(
            IdentityView::Lighter { market_id, trade_id: trade_id_string, message_nonce },
        ),
        Some(_) => Err(StorageConversionError::TradeIdentityVenueMismatch),
    }
}

/// The timestamps that were stored.
pub open spec fn restored_timestamps(stored: StoredEventView) -> TimestampsView {
    TimestampsView {
        exchange_times: restored_times(stored.exchange_times),
        local_receive: LocalObservationTime(stored.local_receive_time),
        processing_completed: LocalObservationTime(stored.processing_completion_time),
    }
}

/// Whether `result` is what a stored snapshot restores to.
pub open spec fn restores_snapshot(
    stored: StoredEventView,
    bids: Seq<StoredBookLevelV1>,
    asks: Seq<StoredBookLevelV1>,
    result: Result<EventView, StorageConversionError>,
) -> bool {
    let source_sequence = match stored.source_id {
        Some(SourceIdView::OrderBookSequence(sequence)) => Some(sequence),
        _ => None,
    };
    if stored.source_id is Some && !(stored.source_id->Some_0 is OrderBookSequence) {
        result == Err::<EventView, StorageConversionError>(
            StorageConversionError::MissingOrderBookSequence,
        )
    } else if levels_error(bids) is Some {
        result == Err::<EventView, StorageConversionError>(levels_error(bids)->Some_0)
    } else if levels_error(asks) is Some {
        result == Err::<EventView, StorageConversionError>(levels_error(asks)->Some_0)
    } else {
        exists|bid_levels: Seq<BookLevel>, ask_levels: Seq<BookLevel>|
            #![trigger restores_levels(bids, bid_levels), restores_levels(asks, ask_levels)]
            {
                &&& restores_levels(bids, bid_levels)
                &&& restores_levels(asks, ask_levels)
                &&& restores_book(stored, source_sequence, bid_levels, ask_levels, result)
            }
    }
}

/// Whether `result` is what the restored levels of a stored snapshot amount to.
pub open spec fn restores_book(
    stored: StoredEventView,
    source_sequence: Option<u64>,
    bids: Seq<BookLevel>,
    asks: Seq<BookLevel>,
    result: Result<EventView, StorageConversionError>,
) -> bool {
    match result {
        Ok(EventView::OrderBookSnapshot(snapshot)) => snapshot_outcome(
            restored_venue(stored.venue),
            stored.market_coin,
            source_sequence,
            restored_timestamps(stored),
            bids,
            asks,
            Ok(snapshot),
        ),
        Err(StorageConversionError::InvalidOrderBook) => exists|error|
            snapshot_outcome(
                restored_venue(stored.venue),
                stored.market_coin,
                source_sequence,
                restored_timestamps(stored),
                bids,
                asks,
                Err(error),
            ),
        _ => false,
    }
}

/// Whether `result` is what a stored event restores to.
pub open spec fn restores(
    stored: StoredEventView,
    result: Result<EventView, StorageConversionError>,
) -> bool {
    let venue = restored_venue(stored.venue);
    if market_coin_error(stored.market_coin) is Some {
        result == Err::<EventView, StorageConversionError>(
            StorageConversionError::InvalidMarketCoin,
        )
    } else {
        match stored.payload {
            PayloadView::OrderBookSnapshot { bids, asks } => restores_snapshot(
                stored,
                bids,
                asks,
                result,
            ),
            PayloadView::BestBidOfferUpdated { bid, ask } => if optional_level_error(
                bid,
            ) is Some {
                result == Err::<EventView, StorageConversionError>(
                    optional_level_error(bid)->Some_0,
                )
            } else if optional_level_error(ask) is Some {
                result == Err::<EventView, StorageConversionError>(
                    optional_level_error(ask)->Some_0,
                )
            } else {
                &&& result matches Ok(EventView::BestBidOfferUpdated(bbo))
                &&& restores_optional_level(bid, bbo.bid)
                &&& restores_optional_level(ask, bbo.ask)
                &&& bbo.venue == venue
                &&& bbo.coin == stored.market_coin
                &&& bbo.timestamps == restored_timestamps(stored)
            },
            PayloadView::OrderBookUnavailable { category, diagnostic } => result == Ok::<
                EventView,
                StorageConversionError,
            >(
                EventView::OrderBookUnavailable(
                    UnavailableView {
                        venue,
                        coin: stored.market_coin,
                        observed_at: LocalObservationTime(stored.local_receive_time),
                        category: restored_category(category),
                        diagnostic,
                    },
                ),
            ),
            PayloadView::MarketTrade {
                price,
                quantity,
                reporting_kind,
                trade_kind,
                aggressor_side,
                aggressor_side_classification,
            } => if stored_units(price) is Err {
                result == Err::<EventView, StorageConversionError>(
                    StorageConversionError::InvalidPrice,
                )
            } else if stored_units(quantity) is Err {
                result == Err::<EventView, StorageConversionError>(
                    StorageConversionError::InvalidQuantity,
                )
            } else if restored_identity(venue, stored.source_id) is Err {
                result == Err::<EventView, StorageConversionError>(
                    restored_identity(venue, stored.source_id)->Err_0,
                )
            } else {
                &&& result matches Ok(EventView::MarketTrade(trade))
                &&& restores_price(price, trade.price)
                &&& restores_quantity(quantity, trade.quantity)
                &&& trade.venue == venue
                &&& trade.coin == stored.market_coin
                &&& trade.timestamps == restored_timestamps(stored)
                &&& trade.reporting_kind
                    == MarketTradeReportingKind::from_spec(reporting_kind)
                &&& trade.trade_kind == MarketTradeKind::from_spec(trade_kind)
                &&& trade.aggressor_side == AggressorSide::from_spec(aggressor_side)
                &&& trade.aggressor_side_classification
                    == AggressorSideClassification::from_spec(aggressor_side_classification)
                &&& trade.identity == restored_identity(venue, stored.source_id)->Ok_0
            },
            PayloadView::TradeStreamUnavailable { category, diagnostic } => result == Ok::<
                EventView,
                StorageConversionError,
            >(
                EventView::TradeStreamUnavailable(
                    UnavailableView {
                        venue,
                        coin: stored.market_coin,
                        observed_at: LocalObservationTime(stored.local_receive_time),
                        category: restored_category(category),
                        diagnostic,
                    },
                ),
            ),
            PayloadView::TradeStreamResumed => result == Ok::<EventView, StorageConversionError>(
                EventView::TradeStreamResumed(
                    ResumedView {
                        venue,
                        coin: stored.market_coin,
                        observed_at: LocalObservationTime(stored.local_receive_time),
                    },
                ),
            ),
        }
    }
}

/// The bytes that the contents of a stored event occupy, without what is allocated
/// beyond them.
pub open spec fn least_owned_bytes(stored: StoredEventView) -> nat {
    let fixed = vstd::layout::size_of::<StoredEventV1>() + encode_utf8(stored.market_coin).len()
        + stored.exchange_times.len() * vstd::layout::size_of::<StoredExchangeTimeObservationV1>();
    let source = match stored.source_id {
        Some(SourceIdView::HyperliquidTrade { transaction_hash, .. }) => encode_utf8(
            transaction_hash,
        ).len(),
        Some(SourceIdView::LighterTrade { trade_id_string, .. }) => encode_utf8(
            trade_id_string,
        ).len(),
        _ => 0,
    };
    let payload = match stored.payload {
        PayloadView::OrderBookSnapshot { bids, asks } => (bids.len() + asks.len())
            * vstd::layout::size_of::<StoredBookLevelV1>(),
        PayloadView::OrderBookUnavailable { diagnostic, .. } => encode_utf8(diagnostic).len(),
        PayloadView::TradeStreamUnavailable { diagnostic, .. } => encode_utf8(diagnostic).len(),
        _ => 0,
    };
    fixed + source + payload
}

/// The number, or the end of the range of `usize` where it lies beyond.
pub open spec fn saturated(number: nat) -> usize {
    if number <= usize::MAX {
        number as usize
    } else {
        usize::MAX
    }
}

/// How much the allocations of a stored event can hold: bytes of its texts, elements of its
/// lists. What the event does not have counts for nothing.
#[derive(Clone, Copy, Debug, Eq, PartialEq, Structural)]
pub struct HeldCapacities {
    pub market_coin: usize,
    pub exchange_times: usize,
    /// The text of a trade's identity.
    pub source: usize,
    /// The levels of both sides of a book together, or a diagnostic.
    pub payload: usize,
}

/// The bytes that a stored event occupies with allocations of the given capacities.
pub open spec fn owned_bytes(stored: StoredEventView, held: HeldCapacities) -> nat {
    let fixed = vstd::layout::size_of::<StoredEventV1>() + held.market_coin as nat
        + held.exchange_times as nat * vstd::layout::size_of::<StoredExchangeTimeObservationV1>();
    let source = match stored.source_id {
        Some(SourceIdView::HyperliquidTrade { .. }) => held.source as nat,
        Some(SourceIdView::LighterTrade { .. }) => held.source as nat,
        _ => 0,
    };
    let payload = match stored.payload {
        PayloadView::OrderBookSnapshot { .. } => held.payload as nat
            * vstd::layout::size_of::<StoredBookLevelV1>(),
        PayloadView::OrderBookUnavailable { .. } => held.payload as nat,
        PayloadView::TradeStreamUnavailable { .. } => held.payload as nat,
        _ => 0,
    };
    fixed + source + payload
}

/// Whether a capacity for a text is at least what it holds, and no more than one allocation
/// can have.
pub open spec fn covers_text(text: Seq<char>, capacity: usize) -> bool {
    encode_utf8(text).len() <= capacity <= isize::MAX
}

/// Whether a capacity for elements of the given size is at least what it holds, and takes no
/// more bytes than so many allocations can have.
pub open spec fn covers_list(length: nat, capacity: usize, size: nat, allocations: nat) -> bool {
    &&& saturated(length) <= capacity
    &&& size > 0 ==> capacity as nat * size <= allocations * isize::MAX as nat
}

/// Whether capacities are possible for what a stored event holds.
pub open spec fn covers(stored: StoredEventView, held: HeldCapacities) -> bool {
    &&& covers_text(stored.market_coin, held.market_coin)
    &&& covers_list(
        stored.exchange_times.len(),
        held.exchange_times,
        vstd::layout::size_of::<StoredExchangeTimeObservationV1>(),
        1,
    )
    &&& match stored.source_id {
        Some(SourceIdView::HyperliquidTrade { transaction_hash, .. }) => covers_text(
            transaction_hash,
            held.source,
        ),
        Some(SourceIdView::LighterTrade { trade_id_string, .. }) => covers_text(
            trade_id_string,
            held.source,
        ),
        _ => true,
    }
    &&& match stored.payload {
        PayloadView::OrderBookSnapshot { bids, asks } => covers_list(
            bids.len() + asks.len(),
            held.payload,
            vstd::layout::size_of::<StoredBookLevelV1>(),
            2,
        ),
        PayloadView::OrderBookUnavailable { diagnostic, .. } => covers_text(
            diagnostic,
            held.payload,
        ),
        PayloadView::TradeStreamUnavailable { diagnostic, .. } => covers_text(
            diagnostic,
            held.payload,
        ),
        _ => true,
    }
}

/// Whether a stored event may be counted with a number of bytes: the sum for capacities that
/// are possible for what it holds.
pub open spec fn counts_as(stored: StoredEventView, bytes: usize) -> bool {
    exists|held: HeldCapacities|
        covers(stored, held) && bytes == saturated(#[trigger] owned_bytes(stored, held))
}

/// `String::capacity` of std: the bytes that the string can hold without allocating
/// again, which are at least those that it holds, and no more than the `isize::MAX` bytes
/// that an allocation can have.
pub assume_specification[ String::capacity ](text: &String) -> (capacity: usize)
    ensures
        encode_utf8(text@).len() <= capacity <= isize::MAX,
;

/// `Vec::capacity` of std: the elements that the vector can hold without allocating
/// again, which are at least those that it holds, and which take no more than the
/// `isize::MAX` bytes that an allocation can have, unless they take no room at all.
#[verifier::external_body]
fn vector_capacity<T>(vector: &Vec<T>) -> (capacity: usize)
    ensures
        capacity >= vector@.len(),
        vstd::layout::size_of::<T>() > 0 ==> capacity as nat * vstd::layout::size_of::<T>()
            <= isize::MAX,
{
    vector.capacity()
}

proof fn lemma_product_grows(small: int, large: int, factor: int)
    requires
        0 <= small,
        0 <= factor,
    ensures
        small <= large ==> small * factor <= large * factor,
        small * factor >= 0,
        factor == 0 ==> small * factor == 0,
        factor >= 1 && small >= 1 ==> small * factor >= small && small * factor >= factor,
{
    assert(small <= large ==> small * factor <= large * factor) by (nonlinear_arith)
        requires
            0 <= factor,
    ;
    assert(small * factor >= 0) by (nonlinear_arith)
        requires
            0 <= small,
            0 <= factor,
    ;
    assert(factor >= 1 && small >= 1 ==> small * factor >= small && small * factor >= factor)
        by (nonlinear_arith);
}

proof fn lemma_both_sides(left: usize, right: usize, size: nat)
    requires
        size > 0 ==> left as nat * size <= isize::MAX,
        size > 0 ==> right as nat * size <= isize::MAX,
    ensures
        size > 0 ==> left + right <= usize::MAX,
        size > 0 ==> (left + right) * size <= 2 * isize::MAX,
{
    if size > 0 {
        lemma_product_grows(left as int, left as int, size as int);
        lemma_product_grows(right as int, right as int, size as int);
        assert((left + right) * size == left * size + right * size) by (nonlinear_arith);
    }
}

proof fn lemma_least_owned(stored: StoredEventView, held: HeldCapacities)
    requires
        covers(stored, held),
    ensures
        saturated(owned_bytes(stored, held)) >= least_owned_bytes(stored) || saturated(
            owned_bytes(stored, held),
        ) == usize::MAX,
{
    let time_size = vstd::layout::size_of::<StoredExchangeTimeObservationV1>() as int;
    let level_size = vstd::layout::size_of::<StoredBookLevelV1>() as int;
    lemma_list_grows(stored.exchange_times.len(), held.exchange_times, time_size);
    if let PayloadView::OrderBookSnapshot { bids, asks } = stored.payload {
        lemma_list_grows((bids.len() + asks.len()) as nat, held.payload, level_size);
    }
}

proof fn lemma_list_grows(length: nat, capacity: usize, size: int)
    requires
        saturated(length) <= capacity,
        size >= 0,
    ensures
        length * size <= capacity * size || capacity * size >= usize::MAX,
{
    lemma_product_grows(length as int, capacity as int, size);
    lemma_product_grows(capacity as int, capacity as int, size);
    if length > capacity && size == 0 {
        lemma_product_grows(length as int, length as int, size);
    }
}

/// The product, or the end of the range of `usize` where it lies beyond.
fn saturating_product(count: usize, size: usize) -> (product: usize)
    ensures
        product == saturated((count * size) as nat),
{
    proof {
        lemma_product_grows(count as int, count as int, size as int);
    }
    match count.checked_mul(size) {
        Some(product) => product,
        None => usize::MAX,
    }
}

fn stored_book_levels(venue: Venue, levels: &[BookLevel]) -> (stored: Vec<StoredBookLevelV1>)
    ensures
        stored@ == stored_levels(stored_depth(venue, levels@)),
{
    let mut stored: Vec<StoredBookLevelV1> = Vec::new();
    let kept: usize = if venue == Venue::Lighter && levels.len() > STORED_DEPTH {
        STORED_DEPTH
    } else {
        levels.len()
    };
    let mut i: usize = 0;
    while i < kept
        invariant
            i <= kept <= levels.len(),
            stored@ == stored_levels(levels@.take(i as int)),
        decreases kept - i,
    {
        stored.push(StoredBookLevelV1::from(levels[i]));
        i = i + 1;
        assert(stored@ =~= stored_levels(levels@.take(i as int)));
    }
    assert(levels@.take(kept as int) =~= stored_depth(venue, levels@));
    stored
}

fn stored_book_level(level: &StoredBookLevelV1) -> (result: Result<
    BookLevel,
    StorageConversionError,
>)
    ensures
        match result {
            Ok(restored) => level_error(*level) is None && restores_level(*level, restored),
            Err(error) => level_error(*level) == Some(error),
        },
{
    let order_count: Option<OrderCount> = match level.order_count {
        Some(count) => match OrderCount::new(count) {
            Some(count) => Some(count),
            None => return Err(StorageConversionError::InvalidOrderCount),
        },
        None => None,
    };
    let price: Price = match stored_price(level.price) {
        Ok(price) => price,
        Err(error) => return Err(error),
    };
    let quantity: Quantity = match stored_quantity(level.quantity) {
        Ok(quantity) => quantity,
        Err(error) => return Err(error),
    };
    Ok(BookLevel::new(price, quantity, order_count))
}

fn stored_optional_book_level(level: &Option<StoredBookLevelV1>) -> (result: Result<
    Option<BookLevel>,
    StorageConversionError,
>)
    ensures
        match result {
            Ok(restored) => optional_level_error(*level) is None && restores_optional_level(
                *level,
                restored,
            ),
            Err(error) => optional_level_error(*level) == Some(error),
        },
{
    match level {
        Some(level) => match stored_book_level(level) {
            Ok(level) => Ok(Some(level)),
            Err(error) => Err(error),
        },
        None => Ok(None),
    }
}

/// An error among the first levels is the error of all of them.
proof fn lemma_levels_error_prefix(stored: Seq<StoredBookLevelV1>, length: int)
    requires
        0 <= length <= stored.len(),
        levels_error(stored.take(length)) is Some,
    ensures
        levels_error(stored) == levels_error(stored.take(length)),
    decreases stored.len(),
{
    if length == stored.len() {
        assert(stored.take(length) =~= stored);
    } else {
        assert(stored.drop_last().take(length) =~= stored.take(length));
        lemma_levels_error_prefix(stored.drop_last(), length);
    }
}

fn restored_book_levels(stored: &Vec<StoredBookLevelV1>) -> (result: Result<
    Vec<BookLevel>,
    StorageConversionError,
>)
    ensures
        match result {
            Ok(levels) => levels_error(stored@) is None && restores_levels(stored@, levels@),
            Err(error) => levels_error(stored@) == Some(error),
        },
{
    let mut levels: Vec<BookLevel> = Vec::new();
    let mut i: usize = 0;
    while i < stored.len()
        invariant
            i <= stored.len(),
            levels_error(stored@.take(i as int)) is None,
            restores_levels(stored@.take(i as int), levels@),
        decreases stored.len() - i,
    {
        assert(stored@.take(i + 1).drop_last() =~= stored@.take(i as int));
        match stored_book_level(&stored[i]) {
            Ok(level) => {
                levels.push(level);
            },
            Err(error) => {
                proof {
                    lemma_levels_error_prefix(stored@, i + 1);
                }
                return Err(error);
            },
        }
        i = i + 1;
        assert forall|j: int| 0 <= j < levels@.len() implies restores_level(
            stored@.take(i as int)[j],
            #[trigger] levels@[j],
        ) by {
            if j < i - 1 {
                assert(restores_level(stored@.take(i - 1)[j], levels@[j]));
            }
        }
    }
    assert(stored@.take(stored@.len() as int) =~= stored@);
    Ok(levels)
}

fn stored_price(value: StoredDecimalV1) -> (result: Result<Price, StorageConversionError>)
    ensures
        match result {
            Ok(price) => restores_price(value, price),
            Err(error) => stored_units(value) is Err && error
                == StorageConversionError::InvalidPrice,
        },
{
    match Price::from_parts(value.coefficient, value.scale) {
        Ok(price) => Ok(price),
        Err(_) => Err(StorageConversionError::InvalidPrice),
    }
}

fn stored_quantity(value: StoredDecimalV1) -> (result: Result<Quantity, StorageConversionError>)
    ensures
        match result {
            Ok(quantity) => restores_quantity(value, quantity),
            Err(error) => stored_units(value) is Err && error
                == StorageConversionError::InvalidQuantity,
        },
{
    match Quantity::from_parts(value.coefficient, value.scale) {
        Ok(quantity) => Ok(quantity),
        Err(_) => Err(StorageConversionError::InvalidQuantity),
    }
}

fn stored_trade_identity(venue: Venue, identity: &Option<StoredSourceIdV1>) -> (result: Result<
    MarketTradeIdentity,
    StorageConversionError,
>)
    ensures
        match result {
            Ok(restored) => restored_identity(venue, optional_source(*identity)) == Ok::<
                IdentityView,
                StorageConversionError,
            >(restored@),
            Err(error) => restored_identity(venue, optional_source(*identity)) == Err::<
                IdentityView,
                StorageConversionError,
            >(error),
        },
{
    let identity: &StoredSourceIdV1 = match identity {
        Some(identity) => identity,
        None => return Err(StorageConversionError::MissingTradeIdentity),
    };
    match (venue, identity) {
        (
            Venue::Aster,
            StoredSourceIdV1::AsterTrade { aggregate_trade_id, first_trade_id, last_trade_id },
        ) => Ok(
            MarketTradeIdentity::Aster {
                aggregate_trade_id: *aggregate_trade_id,
                first_trade_id: *first_trade_id,
                last_trade_id: *last_trade_id,
            },
        ),
        (
            Venue::Hyperliquid,
            StoredSourceIdV1::HyperliquidTrade { block_time, trade_id, transaction_hash },
        ) => Ok(
            MarketTradeIdentity::Hyperliquid {
                block_time: *block_time,
                trade_id: *trade_id,
                transaction_hash: transaction_hash.clone(),
            },
        ),
        (
            Venue::Binance,
            StoredSourceIdV1::BinanceTrade { aggregate_trade_id, first_trade_id, last_trade_id },
        ) => Ok(
            MarketTradeIdentity::Binance {
                aggregate_trade_id: *aggregate_trade_id,
                first_trade_id: *first_trade_id,
                last_trade_id: *last_trade_id,
            },
        ),
        (
            Venue::Lighter,
            StoredSourceIdV1::LighterTrade { market_id, trade_id_string, message_nonce },
        ) => Ok(
            MarketTradeIdentity::Lighter {
                market_id: *market_id,
                trade_id: trade_id_string.clone(),
                message_nonce: *message_nonce,
            },
        ),
        _ => Err(StorageConversionError::TradeIdentityVenueMismatch),
    }
}

fn stored_source_identity(identity: &MarketTradeIdentity, venue: Venue) -> (result: Result<
    StoredSourceIdV1,
    StorageConversionError,
>)
    ensures
        match result {
            Ok(stored) => identity@.venue() == venue && stored@ == stored_identity(identity@),
            Err(error) => identity@.venue() != venue && error
                == StorageConversionError::TradeIdentityVenueMismatch,
        },
{
    match identity {
        MarketTradeIdentity::Aster { aggregate_trade_id, first_trade_id, last_trade_id } if venue
            == Venue::Aster => Ok(
            StoredSourceIdV1::AsterTrade {
                aggregate_trade_id: *aggregate_trade_id,
                first_trade_id: *first_trade_id,
                last_trade_id: *last_trade_id,
            },
        ),
        MarketTradeIdentity::Hyperliquid { block_time, trade_id, transaction_hash } if venue
            == Venue::Hyperliquid => Ok(
            StoredSourceIdV1::HyperliquidTrade {
                block_time: *block_time,
                trade_id: *trade_id,
                transaction_hash: transaction_hash.clone(),
            },
        ),
        MarketTradeIdentity::Binance { aggregate_trade_id, first_trade_id, last_trade_id } if venue
            == Venue::Binance => Ok(
            StoredSourceIdV1::BinanceTrade {
                aggregate_trade_id: *aggregate_trade_id,
                first_trade_id: *first_trade_id,
                last_trade_id: *last_trade_id,
            },
        ),
        MarketTradeIdentity::Lighter { market_id, trade_id, message_nonce } if venue
            == Venue::Lighter => Ok(
            StoredSourceIdV1::LighterTrade {
                market_id: *market_id,
                trade_id_string: trade_id.clone(),
                message_nonce: *message_nonce,
            },
        ),
        _ => Err(StorageConversionError::TradeIdentityVenueMismatch),
    }
}

fn stored_exchange_times(timestamps: &EventTimestamps) -> (stored: Vec<
    StoredExchangeTimeObservationV1,
>)
    ensures
        stored@ == stored_times(timestamps@.exchange_times),
{
    let times: &[ExchangeTimeObservation] = timestamps.exchange_times();
    let mut stored: Vec<StoredExchangeTimeObservationV1> = Vec::new();
    let mut i: usize = 0;
    while i < times.len()
        invariant
            i <= times.len(),
            stored@ == stored_times(times@.take(i as int)),
        decreases times.len() - i,
    {
        stored.push(StoredExchangeTimeObservationV1::from(times[i]));
        i = i + 1;
        assert(stored@ =~= stored_times(times@.take(i as int)));
    }
    assert(times@.take(times@.len() as int) =~= times@);
    stored
}

fn restored_exchange_times(stored: &Vec<StoredExchangeTimeObservationV1>) -> (times: Vec<
    ExchangeTimeObservation,
>)
    ensures
        times@ == restored_times(stored@),
{
    let mut times: Vec<ExchangeTimeObservation> = Vec::new();
    let mut i: usize = 0;
    while i < stored.len()
        invariant
            i <= stored.len(),
            times@ == restored_times(stored@.take(i as int)),
        decreases stored.len() - i,
    {
        times.push(ExchangeTimeObservation::from(stored[i]));
        i = i + 1;
        assert(times@ =~= restored_times(stored@.take(i as int)));
    }
    assert(stored@.take(stored@.len() as int) =~= stored@);
    times
}

fn stored_trade(
    capture_sequence: u64,
    venue: StoredVenueV1,
    market_coin: String,
    trade: &MarketTrade,
) -> (result: Result<StoredEventV1, StorageConversionError>)
    requires
        capture_sequence > 0,
        venue == stored_venue(trade@.venue),
        market_coin@ == trade@.coin,
    ensures
        match result {
            Ok(stored) => stored_form(capture_sequence, EventView::MarketTrade(trade@)) == Ok::<
                StoredEventView,
                StorageConversionError,
            >(stored@),
            Err(error) => stored_form(capture_sequence, EventView::MarketTrade(trade@)) == Err::<
                StoredEventView,
                StorageConversionError,
            >(error),
        },
{
    let source_id: StoredSourceIdV1 = match stored_source_identity(trade.identity(), trade.venue()) {
        Ok(source_id) => source_id,
        Err(error) => return Err(error),
    };
    let timestamps: &EventTimestamps = trade.timestamps();
    Ok(
        StoredEventV1 {
            capture_sequence,
            venue,
            market_coin,
            local_receive_time: timestamps.local_receive().nanos_since_start(),
            processing_completion_time: timestamps.processing_completed().nanos_since_start(),
            exchange_times: stored_exchange_times(timestamps),
            source_id: Some(source_id),
            payload: StoredPayloadV1::MarketTrade {
                price: StoredDecimalV1 {
                    coefficient: trade.price().coefficient(),
                    scale: trade.price().scale(),
                },
                quantity: StoredDecimalV1 {
                    coefficient: trade.quantity().coefficient(),
                    scale: trade.quantity().scale(),
                },
                reporting_kind: StoredMarketTradeReportingKindV1::from(trade.reporting_kind()),
                trade_kind: StoredMarketTradeKindV1::from(trade.trade_kind()),
                aggressor_side: StoredAggressorSideV1::from(trade.aggressor_side()),
                aggressor_side_classification: StoredAggressorSideClassificationV1::from(
                    trade.aggressor_side_classification(),
                ),
            },
        },
    )
}

fn stored_unavailable(unavailable: &MarketDataUnavailable) -> (payload: (
    StoredUnavailabilityCategoryV1,
    String,
))
    ensures
        payload.0 == stored_category(unavailable@.category),
        payload.1@ == unavailable@.diagnostic,
{
    (
        StoredUnavailabilityCategoryV1::from(unavailable.category()),
        unavailable.diagnostic().to_owned(),
    )
}

impl StoredEventV1 {
    pub fn capture_sequence(&self) -> (sequence: u64)
        ensures
            sequence == self@.capture_sequence,
    {
        self.capture_sequence
    }

    pub fn venue(&self) -> (venue: StoredVenueV1)
        ensures
            venue == self@.venue,
    {
        self.venue
    }

    pub fn market_coin(&self) -> (coin: &str)
        ensures
            coin@ == self@.market_coin,
    {
        self.market_coin.as_str()
    }

    pub fn local_receive_time(&self) -> (time: u64)
        ensures
            time == self@.local_receive_time,
    {
        self.local_receive_time
    }

    pub fn processing_completion_time(&self) -> (time: u64)
        ensures
            time == self@.processing_completion_time,
    {
        self.processing_completion_time
    }

    pub fn exchange_times(&self) -> (times: &[StoredExchangeTimeObservationV1])
        ensures
            times@ == self@.exchange_times,
    {
        self.exchange_times.as_slice()
    }

    pub fn source_id(&self) -> (source_id: Option<&StoredSourceIdV1>)
        ensures
            match source_id {
                Some(source_id) => self@.source_id == Some(source_id@),
                None => self@.source_id is None,
            },
    {
        match &self.source_id {
            Some(source_id) => Some(source_id),
            None => None,
        }
    }

    pub fn payload(&self) -> (payload: &StoredPayloadV1)
        ensures
            payload@ == self@.payload,
    {
        &self.payload
    }

    /// The bytes that the event occupies with allocations of the given capacities; a sum
    /// beyond the range of `usize` stays at its end.
    pub fn owned_bytes_with(&self, held: HeldCapacities) -> (bytes: usize)
        ensures
            bytes == saturated(owned_bytes(self@, held)),
    {
        let time_size: usize = std::mem::size_of::<StoredExchangeTimeObservationV1>();
        let level_size: usize = std::mem::size_of::<StoredBookLevelV1>();
        proof {
            lemma_product_grows(
                held.exchange_times as int,
                held.exchange_times as int,
                time_size as int,
            );
            lemma_product_grows(held.payload as int, held.payload as int, level_size as int);
        }
        let fixed: usize = std::mem::size_of::<StoredEventV1>().saturating_add(
            held.market_coin,
        ).saturating_add(saturating_product(held.exchange_times, time_size));
        let source: usize = match &self.source_id {
            Some(StoredSourceIdV1::HyperliquidTrade { .. }) => held.source,
            Some(StoredSourceIdV1::LighterTrade { .. }) => held.source,
            _ => 0,
        };
        let payload: usize = match &self.payload {
            StoredPayloadV1::OrderBookSnapshot { .. } => saturating_product(
                held.payload,
                level_size,
            ),
            StoredPayloadV1::BestBidOfferUpdated { .. } => 0,
            StoredPayloadV1::OrderBookUnavailable { .. } => held.payload,
            StoredPayloadV1::TradeStreamUnavailable { .. } => held.payload,
            StoredPayloadV1::MarketTrade { .. } => 0,
            StoredPayloadV1::TradeStreamResumed => 0,
        };
        fixed.saturating_add(source).saturating_add(payload)
    }

    /// How much the allocations of the event can hold.
    fn held_capacities(&self) -> (held: HeldCapacities)
        ensures
            covers(self@, held),
    {
        let exchange_times: usize = vector_capacity(&self.exchange_times);
        let source: usize = match &self.source_id {
            Some(StoredSourceIdV1::HyperliquidTrade { transaction_hash, .. }) =>
                transaction_hash.capacity(),
            Some(StoredSourceIdV1::LighterTrade { trade_id_string, .. }) =>
                trade_id_string.capacity(),
            _ => 0,
        };
        let payload: usize = match &self.payload {
            StoredPayloadV1::OrderBookSnapshot { bids, asks } => {
                let bid_levels: usize = vector_capacity(bids);
                let ask_levels: usize = vector_capacity(asks);
                let levels: usize = bid_levels.saturating_add(ask_levels);
                proof {
                    lemma_both_sides(
                        bid_levels,
                        ask_levels,
                        vstd::layout::size_of::<StoredBookLevelV1>(),
                    );
                }
                levels
            },
            StoredPayloadV1::BestBidOfferUpdated { .. } => 0,
            StoredPayloadV1::OrderBookUnavailable { diagnostic, .. } => diagnostic.capacity(),
            StoredPayloadV1::TradeStreamUnavailable { diagnostic, .. } => diagnostic.capacity(),
            StoredPayloadV1::MarketTrade { .. } => 0,
            StoredPayloadV1::TradeStreamResumed => 0,
        };
        HeldCapacities {
            market_coin: self.market_coin.capacity(),
            exchange_times,
            source,
            payload,
        }
    }

    /// Roughly how many bytes the event occupies in memory. What an allocator grants
    /// beyond the contents counts too, so the sum is known for capacities that are possible,
    /// and never less than the contents take; a sum beyond the range of `usize` stays at its
    /// end.
    pub fn approximate_owned_bytes(&self) -> (bytes: usize)
        ensures
            counts_as(self@, bytes),
            bytes >= least_owned_bytes(self@) || bytes == usize::MAX,
    {
        let held: HeldCapacities = self.held_capacities();
        proof {
            lemma_least_owned(self@, held);
        }
        self.owned_bytes_with(held)
    }

    /// The storage form of an event under its sequence number.
    pub fn from_normalized(capture_sequence: u64, event: &NormalizedMarketEvent) -> (result: Result<
        Self,
        StorageConversionError,
    >)
        ensures
            match result {
                Ok(stored) => stored_form(capture_sequence, event@) == Ok::<
                    StoredEventView,
                    StorageConversionError,
                >(stored@),
                Err(error) => stored_form(capture_sequence, event@) == Err::<
                    StoredEventView,
                    StorageConversionError,
                >(error),
            },
    {
        if capture_sequence == 0 {
            return Err(StorageConversionError::ZeroCaptureSequence);
        }
        let venue: StoredVenueV1 = StoredVenueV1::from(event.venue());
        let market_coin: String = event.market_coin().as_str().to_owned();
        match event {
            NormalizedMarketEvent::OrderBookSnapshot(snapshot) => {
                let timestamps: &EventTimestamps = snapshot.timestamps();
                Ok(
                    StoredEventV1 {
                        capture_sequence,
                        venue,
                        market_coin,
                        local_receive_time: timestamps.local_receive().nanos_since_start(),
                        processing_completion_time: timestamps.processing_completed().nanos_since_start(),
                        exchange_times: stored_exchange_times(timestamps),
                        source_id: match snapshot.source_sequence() {
                            Some(sequence) => Some(StoredSourceIdV1::OrderBookSequence(sequence)),
                            None => None,
                        },
                        payload: StoredPayloadV1::OrderBookSnapshot {
                            bids: stored_book_levels(snapshot.venue(), snapshot.bids()),
                            asks: stored_book_levels(snapshot.venue(), snapshot.asks()),
                        },
                    },
                )
            },
            NormalizedMarketEvent::BestBidOfferUpdated(bbo) => {
                let timestamps: &EventTimestamps = bbo.timestamps();
                Ok(
                    StoredEventV1 {
                        capture_sequence,
                        venue,
                        market_coin,
                        local_receive_time: timestamps.local_receive().nanos_since_start(),
                        processing_completion_time: timestamps.processing_completed().nanos_since_start(),
                        exchange_times: stored_exchange_times(timestamps),
                        source_id: None,
                        payload: StoredPayloadV1::BestBidOfferUpdated {
                            bid: match bbo.bid() {
                                Some(level) => Some(StoredBookLevelV1::from(*level)),
                                None => None,
                            },
                            ask: match bbo.ask() {
                                Some(level) => Some(StoredBookLevelV1::from(*level)),
                                None => None,
                            },
                        },
                    },
                )
            },
            NormalizedMarketEvent::OrderBookUnavailable(unavailable) => {
                let (category, diagnostic) = stored_unavailable(unavailable);
                Ok(
                    StoredEventV1 {
                        capture_sequence,
                        venue,
                        market_coin,
                        local_receive_time: unavailable.observed_at().nanos_since_start(),
                        processing_completion_time: unavailable.observed_at().nanos_since_start(),
                        exchange_times: Vec::new(),
                        source_id: None,
                        payload: StoredPayloadV1::OrderBookUnavailable { category, diagnostic },
                    },
                )
            },
            NormalizedMarketEvent::MarketTrade(trade) => stored_trade(
                capture_sequence,
                venue,
                market_coin,
                trade,
            ),
            NormalizedMarketEvent::TradeStreamUnavailable(unavailable) => {
                let (category, diagnostic) = stored_unavailable(unavailable);
                Ok(
                    StoredEventV1 {
                        capture_sequence,
                        venue,
                        market_coin,
                        local_receive_time: unavailable.observed_at().nanos_since_start(),
                        processing_completion_time: unavailable.observed_at().nanos_since_start(),
                        exchange_times: Vec::new(),
                        source_id: None,
                        payload: StoredPayloadV1::TradeStreamUnavailable { category, diagnostic },
                    },
                )
            },
            NormalizedMarketEvent::TradeStreamResumed(resumed) => Ok(
                StoredEventV1 {
                    capture_sequence,
                    venue,
                    market_coin,
                    local_receive_time: resumed.observed_at().nanos_since_start(),
                    processing_completion_time: resumed.observed_at().nanos_since_start(),
                    exchange_times: Vec::new(),
                    source_id: None,
                    payload: StoredPayloadV1::TradeStreamResumed,
                },
            ),
        }
    }

    fn restored_snapshot(
        &self,
        market_coin: MarketCoin,
        timestamps: EventTimestamps,
        bids: &Vec<StoredBookLevelV1>,
        asks: &Vec<StoredBookLevelV1>,
    ) -> (result: Result<NormalizedMarketEvent, StorageConversionError>)
        requires
            market_coin@ == self@.market_coin,
            timestamps@ == restored_timestamps(self@),
        ensures
            restores_snapshot(self@, bids@, asks@, event_result(result)),
    {
        let source_sequence: Option<u64> = match &self.source_id {
            Some(StoredSourceIdV1::OrderBookSequence(sequence)) => Some(*sequence),
            None => None,
            Some(_) => return Err(StorageConversionError::MissingOrderBookSequence),
        };
        let bid_levels: Vec<BookLevel> = match restored_book_levels(bids) {
            Ok(levels) => levels,
            Err(error) => return Err(error),
        };
        let ask_levels: Vec<BookLevel> = match restored_book_levels(asks) {
            Ok(levels) => levels,
            Err(error) => return Err(error),
        };
        let ghost bid_view = bid_levels@;
        let ghost ask_view = ask_levels@;
        let outcome = OrderBookSnapshot::try_new(
            Venue::from(self.venue),
            Symbol::perpetual(market_coin),
            source_sequence,
            timestamps,
            bid_levels,
            ask_levels,
        );
        let result = match outcome {
            Ok(snapshot) => Ok(NormalizedMarketEvent::OrderBookSnapshot(snapshot)),
            Err(_) => Err(StorageConversionError::InvalidOrderBook),
        };
        assert(restores_levels(bids@, bid_view));
        assert(restores_levels(asks@, ask_view));
        assert(restores_book(self@, source_sequence, bid_view, ask_view, event_result(result)));
        result
    }

    /// The normalized event that was stored.
    pub fn to_normalized(&self) -> (result: Result<NormalizedMarketEvent, StorageConversionError>)
        ensures
            restores(self@, event_result(result)),
    {
        let venue: Venue = Venue::from(self.venue);
        let market_coin: MarketCoin = match MarketCoin::try_new(self.market_coin.as_str()) {
            Ok(market_coin) => market_coin,
            Err(_) => return Err(StorageConversionError::InvalidMarketCoin),
        };
        let observed_at: LocalObservationTime = LocalObservationTime::from_nanos_since_start(
            self.local_receive_time,
        );
        let timestamps: EventTimestamps = EventTimestamps::new(
            restored_exchange_times(&self.exchange_times),
            observed_at,
            LocalObservationTime::from_nanos_since_start(self.processing_completion_time),
        );
        match &self.payload {
            StoredPayloadV1::OrderBookSnapshot { bids, asks } => self.restored_snapshot(
                market_coin,
                timestamps,
                bids,
                asks,
            ),
            StoredPayloadV1::BestBidOfferUpdated { bid, ask } => {
                let bid_level: Option<BookLevel> = match stored_optional_book_level(bid) {
                    Ok(level) => level,
                    Err(error) => return Err(error),
                };
                let ask_level: Option<BookLevel> = match stored_optional_book_level(ask) {
                    Ok(level) => level,
                    Err(error) => return Err(error),
                };
                Ok(
                    NormalizedMarketEvent::BestBidOfferUpdated(
                        BestBidOffer::new(
                            venue,
                            Symbol::perpetual(market_coin),
                            timestamps,
                            bid_level,
                            ask_level,
                        ),
                    ),
                )
            },
            StoredPayloadV1::OrderBookUnavailable { category, diagnostic } => Ok(
                NormalizedMarketEvent::OrderBookUnavailable(
                    MarketDataUnavailable::new(
                        venue,
                        market_coin,
                        observed_at,
                        UnavailabilityCategory::from(*category),
                        diagnostic.clone(),
                    ),
                ),
            ),
            StoredPayloadV1::MarketTrade {
                price,
                quantity,
                reporting_kind,
                trade_kind,
                aggressor_side,
                aggressor_side_classification,
            } => {
                let price: Price = match stored_price(*price) {
                    Ok(price) => price,
                    Err(error) => return Err(error),
                };
                let quantity: Quantity = match stored_quantity(*quantity) {
                    Ok(quantity) => quantity,
                    Err(error) => return Err(error),
                };
                let identity: MarketTradeIdentity = match stored_trade_identity(
                    venue,
                    &self.source_id,
                ) {
                    Ok(identity) => identity,
                    Err(error) => return Err(error),
                };
                Ok(
                    NormalizedMarketEvent::MarketTrade(
                        MarketTrade::new(
                            venue,
                            Symbol::perpetual(market_coin),
                            timestamps,
                            price,
                            quantity,
                            MarketTradeReportingKind::from(*reporting_kind),
                            MarketTradeKind::from(*trade_kind),
                            AggressorSide::from(*aggressor_side),
                            AggressorSideClassification::from(*aggressor_side_classification),
                            identity,
                        ),
                    ),
                )
            },
            StoredPayloadV1::TradeStreamUnavailable { category, diagnostic } => Ok(
                NormalizedMarketEvent::TradeStreamUnavailable(
                    MarketDataUnavailable::new(
                        venue,
                        market_coin,
                        observed_at,
                        UnavailabilityCategory::from(*category),
                        diagnostic.clone(),
                    ),
                ),
            ),
            StoredPayloadV1::TradeStreamResumed => Ok(
                NormalizedMarketEvent::TradeStreamResumed(
                    TradeStreamResumed::new(venue, market_coin, observed_at),
                ),
            ),
        }
    }
}

/// The model of a restored event or of the reason for which there is none.
pub open spec fn event_result(
    result: Result<NormalizedMarketEvent, StorageConversionError>,
) -> Result<EventView, StorageConversionError> {
    match result {
        Ok(event) => Ok(event@),
        Err(error) => Err(error),
    }
}

/// What is kept of an event when it is stored: all of it, but only the best levels
/// of a full-depth book.
pub open spec fn kept(event: EventView) -> EventView {
    match event {
        EventView::OrderBookSnapshot(snapshot) => EventView::OrderBookSnapshot(
            SnapshotView {
                bids: stored_depth(snapshot.venue, snapshot.bids),
                asks: stored_depth(snapshot.venue, snapshot.asks),
                ..snapshot
            },
        ),
        _ => event,
    }
}

proof fn lemma_price_restored(price: Price, restored: Price)
    requires
        price.valid(),
    ensures
        stored_units(stored_price_value(price)) is Ok,
        restores_price(stored_price_value(price), restored) ==> restored == price,
{
    lemma_price_value(price, restored);
    lemma_price_value(restored, price);
}

proof fn lemma_quantity_restored(quantity: Quantity, restored: Quantity)
    requires
        quantity.valid(),
    ensures
        stored_units(stored_quantity_value(quantity)) is Ok,
        restores_quantity(stored_quantity_value(quantity), restored) ==> restored == quantity,
{
    lemma_quantity_value(quantity, restored);
    lemma_quantity_value(restored, quantity);
}

proof fn lemma_level_restored(level: BookLevel, restored: BookLevel)
    requires
        level.valid(),
    ensures
        level_error(stored_level(level)) is None,
        restores_level(stored_level(level), restored) ==> restored == level,
{
    lemma_price_restored(level.price, restored.price);
    lemma_quantity_restored(level.quantity, restored.quantity);
    if let (Some(count), Some(restored_count)) = (level.order_count, restored.order_count) {
        lemma_order_count(count, restored_count);
    }
}

proof fn lemma_levels_restored(levels: Seq<BookLevel>, restored: Seq<BookLevel>)
    requires
        levels_valid(levels),
    ensures
        levels_error(stored_levels(levels)) is None,
        restores_levels(stored_levels(levels), restored) ==> restored == levels,
    decreases levels.len(),
{
    if levels.len() > 0 {
        assert(stored_levels(levels).drop_last() =~= stored_levels(levels.drop_last()));
        lemma_levels_restored(levels.drop_last(), restored);
        lemma_level_restored(levels.last(), levels.last());
    }
    if restores_levels(stored_levels(levels), restored) {
        assert forall|i: int| 0 <= i < levels.len() implies restored[i] == levels[i] by {
            lemma_level_restored(levels[i], restored[i]);
            assert(restores_level(stored_levels(levels)[i], restored[i]));
        }
        assert(restored =~= levels);
    }
}

proof fn lemma_times_restored(times: Seq<ExchangeTimeObservation>)
    ensures
        restored_times(stored_times(times)) == times,
{
    assert(restored_times(stored_times(times)) =~= times);
}

/// What was stored of an event comes back as it was: every value, and every level
/// but those beyond the stored depth of a full-depth book.
pub proof fn lemma_storage_round_trip(
    sequence: u64,
    event: EventView,
    stored: StoredEventView,
    restored: Result<EventView, StorageConversionError>,
)
    requires
        event.valid(),
        stored_form(sequence, event) == Ok::<StoredEventView, StorageConversionError>(stored),
        restores(stored, restored),
    ensures
        stored.capture_sequence == sequence,
        restored == Ok::<EventView, StorageConversionError>(kept(event)),
        event.venue() != Venue::Lighter ==> restored == Ok::<EventView, StorageConversionError>(
            event,
        ),
{
    match event {
        EventView::OrderBookSnapshot(snapshot) => {
            lemma_times_restored(snapshot.timestamps.exchange_times);
            assert(restored_timestamps(stored) == snapshot.timestamps);
            let kept_snapshot = SnapshotView {
                bids: stored_depth(snapshot.venue, snapshot.bids),
                asks: stored_depth(snapshot.venue, snapshot.asks),
                ..snapshot
            };
            assert(kept_snapshot.valid());
            let bids = stored_levels(kept_snapshot.bids);
            let asks = stored_levels(kept_snapshot.asks);
            lemma_levels_restored(kept_snapshot.bids, kept_snapshot.bids);
            lemma_levels_restored(kept_snapshot.asks, kept_snapshot.asks);
            let (bid_levels, ask_levels) = choose|
                bid_levels: Seq<BookLevel>,
                ask_levels: Seq<BookLevel>,
            |
                #![trigger restores_levels(bids, bid_levels), restores_levels(asks, ask_levels)]
                {
                    &&& restores_levels(bids, bid_levels)
                    &&& restores_levels(asks, ask_levels)
                    &&& restores_book(
                        stored,
                        snapshot.source_sequence,
                        bid_levels,
                        ask_levels,
                        restored,
                    )
                };
            lemma_levels_restored(kept_snapshot.bids, bid_levels);
            lemma_levels_restored(kept_snapshot.asks, ask_levels);
            match restored {
                Ok(EventView::OrderBookSnapshot(outcome)) => {
                    lemma_valid_snapshot_accepted(kept_snapshot, Ok(outcome));
                },
                _ => {
                    let error = choose|error|
                        snapshot_outcome(
                            restored_venue(stored.venue),
                            stored.market_coin,
                            snapshot.source_sequence,
                            restored_timestamps(stored),
                            bid_levels,
                            ask_levels,
                            Err(error),
                        );
                    lemma_valid_snapshot_accepted(kept_snapshot, Err(error));
                },
            }
        },
        EventView::BestBidOfferUpdated(bbo) => {
            lemma_times_restored(bbo.timestamps.exchange_times);
            if let Some(level) = bbo.bid {
                lemma_level_restored(level, level);
            }
            if let Some(level) = bbo.ask {
                lemma_level_restored(level, level);
            }
            if let Ok(EventView::BestBidOfferUpdated(other)) = restored {
                if let (Some(level), Some(restored_level)) = (bbo.bid, other.bid) {
                    lemma_level_restored(level, restored_level);
                }
                if let (Some(level), Some(restored_level)) = (bbo.ask, other.ask) {
                    lemma_level_restored(level, restored_level);
                }
            }
        },
        EventView::MarketTrade(trade) => {
            lemma_times_restored(trade.timestamps.exchange_times);
            lemma_price_restored(trade.price, trade.price);
            lemma_quantity_restored(trade.quantity, trade.quantity);
            if let Ok(EventView::MarketTrade(other)) = restored {
                lemma_price_restored(trade.price, other.price);
                lemma_quantity_restored(trade.quantity, other.quantity);
            }
        },
        _ => {},
    }
}

proof fn lemma_level_kept(level: BookLevel)
    requires
        level.valid(),
    ensures
        level_error(stored_level(level)) is None,
        restores_level(stored_level(level), level),
{
    lemma_level_restored(level, level);
    lemma_price_value(level.price, level.price);
    lemma_quantity_value(level.quantity, level.quantity);
}

proof fn lemma_levels_kept(levels: Seq<BookLevel>)
    requires
        levels_valid(levels),
    ensures
        levels_error(stored_levels(levels)) is None,
        restores_levels(stored_levels(levels), levels),
{
    lemma_levels_restored(levels, levels);
    assert forall|i: int| 0 <= i < levels.len() implies restores_level(
        stored_levels(levels)[i],
        #[trigger] levels[i],
    ) by {
        lemma_level_kept(levels[i]);
    }
}

/// Every event that was stored can be restored.
pub proof fn lemma_stored_event_restores(sequence: u64, event: EventView, stored: StoredEventView)
    requires
        event.valid(),
        stored_form(sequence, event) == Ok::<StoredEventView, StorageConversionError>(stored),
    ensures
        restores(stored, Ok(kept(event))),
{
    match event {
        EventView::OrderBookSnapshot(snapshot) => {
            lemma_times_restored(snapshot.timestamps.exchange_times);
            let kept_snapshot = SnapshotView {
                bids: stored_depth(snapshot.venue, snapshot.bids),
                asks: stored_depth(snapshot.venue, snapshot.asks),
                ..snapshot
            };
            assert(kept_snapshot.valid());
            lemma_levels_kept(kept_snapshot.bids);
            lemma_levels_kept(kept_snapshot.asks);
            assert(restored_timestamps(stored) == snapshot.timestamps);
            assert(restores_book(
                stored,
                snapshot.source_sequence,
                kept_snapshot.bids,
                kept_snapshot.asks,
                Ok(kept(event)),
            ));
        },
        EventView::BestBidOfferUpdated(bbo) => {
            lemma_times_restored(bbo.timestamps.exchange_times);
            if let Some(level) = bbo.bid {
                lemma_level_kept(level);
            }
            if let Some(level) = bbo.ask {
                lemma_level_kept(level);
            }
        },
        EventView::MarketTrade(trade) => {
            lemma_times_restored(trade.timestamps.exchange_times);
            lemma_price_restored(trade.price, trade.price);
            lemma_quantity_restored(trade.quantity, trade.quantity);
            lemma_price_value(trade.price, trade.price);
            lemma_quantity_value(trade.quantity, trade.quantity);
        },
        _ => {},
    }
}

proof fn lemma_same_level(stored: StoredBookLevelV1, left: BookLevel, right: BookLevel)
    requires
        restores_level(stored, left),
        restores_level(stored, right),
    ensures
        left == right,
{
    lemma_price_value(left.price, right.price);
    lemma_price_value(right.price, left.price);
    lemma_quantity_value(left.quantity, right.quantity);
    lemma_quantity_value(right.quantity, left.quantity);
    if let (Some(count), Some(other)) = (left.order_count, right.order_count) {
        lemma_order_count(count, other);
    }
}

proof fn lemma_same_levels(
    stored: Seq<StoredBookLevelV1>,
    left: Seq<BookLevel>,
    right: Seq<BookLevel>,
)
    requires
        restores_levels(stored, left),
        restores_levels(stored, right),
    ensures
        left == right,
{
    assert forall|i: int| 0 <= i < left.len() implies left[i] == right[i] by {
        assert(restores_level(stored[i], left[i]));
        assert(restores_level(stored[i], right[i]));
        lemma_same_level(stored[i], left[i], right[i]);
    }
    assert(left =~= right);
}

/// A stored event restores to one event only.
pub proof fn lemma_restored_event_unique(stored: StoredEventView, left: EventView, right: EventView)
    requires
        restores(stored, Ok(left)),
        restores(stored, Ok(right)),
    ensures
        left == right,
{
    match stored.payload {
        PayloadView::OrderBookSnapshot { bids, asks } => {
            let source_sequence = match stored.source_id {
                Some(SourceIdView::OrderBookSequence(sequence)) => Some(sequence),
                _ => None,
            };
            let (left_bids, left_asks) = choose|b: Seq<BookLevel>, a: Seq<BookLevel>|
                #![trigger restores_levels(bids, b), restores_levels(asks, a)]
                restores_levels(bids, b) && restores_levels(asks, a) && restores_book(
                    stored,
                    source_sequence,
                    b,
                    a,
                    Ok(left),
                );
            let (right_bids, right_asks) = choose|b: Seq<BookLevel>, a: Seq<BookLevel>|
                #![trigger restores_levels(bids, b), restores_levels(asks, a)]
                restores_levels(bids, b) && restores_levels(asks, a) && restores_book(
                    stored,
                    source_sequence,
                    b,
                    a,
                    Ok(right),
                );
            lemma_same_levels(bids, left_bids, right_bids);
            lemma_same_levels(asks, left_asks, right_asks);
            lemma_snapshot_unique(
                restored_venue(stored.venue),
                stored.market_coin,
                source_sequence,
                restored_timestamps(stored),
                left_bids,
                left_asks,
                left->OrderBookSnapshot_0,
                right->OrderBookSnapshot_0,
            );
        },
        PayloadView::BestBidOfferUpdated { bid, ask } => {
            let first = left->BestBidOfferUpdated_0;
            let second = right->BestBidOfferUpdated_0;
            if let Some(level) = bid {
                lemma_same_level(level, first.bid->Some_0, second.bid->Some_0);
            }
            if let Some(level) = ask {
                lemma_same_level(level, first.ask->Some_0, second.ask->Some_0);
            }
        },
        PayloadView::MarketTrade { .. } => {
            let first = left->MarketTrade_0;
            let second = right->MarketTrade_0;
            lemma_price_value(first.price, second.price);
            lemma_price_value(second.price, first.price);
            lemma_quantity_value(first.quantity, second.quantity);
            lemma_quantity_value(second.quantity, first.quantity);
        },
        _ => {},
    }
}

proof fn lemma_restored_levels_valid(stored: Seq<StoredBookLevelV1>, levels: Seq<BookLevel>)
    requires
        restores_levels(stored, levels),
    ensures
        levels_valid(levels),
{
    assert forall|i: int| 0 <= i < levels.len() implies (#[trigger] levels[i]).valid() by {
        assert(restores_level(stored[i], levels[i]));
    }
}

/// A stored event that restores to an event is not refused.
pub proof fn lemma_restored_event_not_refused(
    stored: StoredEventView,
    event: EventView,
    error: StorageConversionError,
)
    requires
        restores(stored, Ok(event)),
    ensures
        !restores(stored, Err(error)),
{
    if restores(stored, Err(error)) {
        if let PayloadView::OrderBookSnapshot { bids, asks } = stored.payload {
            let source_sequence = match stored.source_id {
                Some(SourceIdView::OrderBookSequence(sequence)) => Some(sequence),
                _ => None,
            };
            let (bid_levels, ask_levels) = choose|b: Seq<BookLevel>, a: Seq<BookLevel>|
                #![trigger restores_levels(bids, b), restores_levels(asks, a)]
                restores_levels(bids, b) && restores_levels(asks, a) && restores_book(
                    stored,
                    source_sequence,
                    b,
                    a,
                    Ok(event),
                );
            let (other_bids, other_asks) = choose|b: Seq<BookLevel>, a: Seq<BookLevel>|
                #![trigger restores_levels(bids, b), restores_levels(asks, a)]
                restores_levels(bids, b) && restores_levels(asks, a) && restores_book(
                    stored,
                    source_sequence,
                    b,
                    a,
                    Err(error),
                );
            lemma_same_levels(bids, bid_levels, other_bids);
            lemma_same_levels(asks, ask_levels, other_asks);
            lemma_restored_levels_valid(bids, bid_levels);
            lemma_restored_levels_valid(asks, ask_levels);
            let reason = choose|reason|
                snapshot_outcome(
                    restored_venue(stored.venue),
                    stored.market_coin,
                    source_sequence,
                    restored_timestamps(stored),
                    bid_levels,
                    ask_levels,
                    Err(reason),
                );
            lemma_outcome_unique(
                restored_venue(stored.venue),
                stored.market_coin,
                source_sequence,
                restored_timestamps(stored),
                bid_levels,
                ask_levels,
                Ok(event->OrderBookSnapshot_0),
                Err(reason),
            );
        }
    }
}

/// What is stored of an event is all of it, but for a book of Lighter that is deeper than ten
/// levels: of such a side the ten best levels are stored.
pub proof fn lemma_kept_events(event: EventView)
    ensures
        !(event is OrderBookSnapshot) ==> kept(event) == event,
        event matches EventView::OrderBookSnapshot(snapshot) ==> {
            let stored = kept(event)->OrderBookSnapshot_0;
            &&& kept(event) is OrderBookSnapshot
            &&& snapshot.venue != Venue::Lighter ==> stored == snapshot
            &&& snapshot.venue == Venue::Lighter ==> {
                &&& stored.bids.len() == if snapshot.bids.len() > 10 {
                    10
                } else {
                    snapshot.bids.len()
                }
                &&& stored.asks.len() == if snapshot.asks.len() > 10 {
                    10
                } else {
                    snapshot.asks.len()
                }
                &&& forall|i: int| 0 <= i < stored.bids.len() ==> stored.bids[i] == snapshot.bids[i]
                &&& forall|i: int| 0 <= i < stored.asks.len() ==> stored.asks[i] == snapshot.asks[i]
                &&& stored == (SnapshotView {
                    bids: stored.bids,
                    asks: stored.asks,
                    ..snapshot
                })
            }
        },
{
}

/// Storing a book of at most the stored depth keeps all of its levels.
pub proof fn lemma_shallow_book_kept(snapshot: SnapshotView)
    requires
        snapshot.bids.len() <= STORED_DEPTH,
        snapshot.asks.len() <= STORED_DEPTH,
    ensures
        kept(EventView::OrderBookSnapshot(snapshot)) == EventView::OrderBookSnapshot(snapshot),
{
}

impl StorageConversionError {
    /// The rendering of the error.
    pub open spec fn message(self) -> Seq<char> {
        match self {
            StorageConversionError::ZeroCaptureSequence => "Capture Sequence must start at one"@,
            StorageConversionError::TradeIdentityVenueMismatch =>
                "trade identity does not match its venue"@,
            StorageConversionError::InvalidMarketCoin => "stored Market Coin is invalid"@,
            StorageConversionError::InvalidPrice => "stored Price is invalid"@,
            StorageConversionError::InvalidQuantity => "stored Quantity is invalid"@,
            StorageConversionError::InvalidOrderCount => "stored order count is zero"@,
            StorageConversionError::InvalidOrderBook => "stored Order Book is invalid"@,
            StorageConversionError::MissingOrderBookSequence =>
                "Order Book has a non-book source identity"@,
            StorageConversionError::MissingTradeIdentity => "Market Trade identity is missing"@,
        }
    }

    pub fn to_text(&self) -> (text: String)
        ensures
            text@ == self.message(),
    {
        match self {
            StorageConversionError::ZeroCaptureSequence =>
                "Capture Sequence must start at one".to_owned(),
            StorageConversionError::TradeIdentityVenueMismatch =>
                "trade identity does not match its venue".to_owned(),
            StorageConversionError::InvalidMarketCoin => "stored Market Coin is invalid".to_owned(),
            StorageConversionError::InvalidPrice => "stored Price is invalid".to_owned(),
            StorageConversionError::InvalidQuantity => "stored Quantity is invalid".to_owned(),
            StorageConversionError::InvalidOrderCount => "stored order count is zero".to_owned(),
            StorageConversionError::InvalidOrderBook => "stored Order Book is invalid".to_owned(),
            StorageConversionError::MissingOrderBookSequence =>
                "Order Book has a non-book source identity".to_owned(),
            StorageConversionError::MissingTradeIdentity =>
                "Market Trade identity is missing".to_owned(),
        }
    }
}

} // verus!
