//! Venue-neutral market facts.
use vstd::prelude::*;
use vstd::std_specs::cmp::PartialOrdSpec;

use crate::domain::symbol::market_coin_error;
use crate::domain::{MarketCoin, Price, Quantity, Symbol, Venue};
use crate::market_data::order_book::{BookLevel, OrderBookSnapshot, SnapshotView};

verus! {

/// A monotonic instant, in nanoseconds since the start of the run.
#[derive(Clone, Copy, Debug, Eq, Ord, PartialEq, Structural)]
pub struct LocalObservationTime(pub u64);

impl PartialOrd for LocalObservationTime {
    fn partial_cmp(&self, other: &Self) -> (order: Option<core::cmp::Ordering>) {
        if self.0 < other.0 {
            Some(core::cmp::Ordering::Less)
        } else if self.0 > other.0 {
            Some(core::cmp::Ordering::Greater)
        } else {
            Some(core::cmp::Ordering::Equal)
        }
    }
}

impl vstd::std_specs::cmp::PartialOrdSpecImpl for LocalObservationTime {
    open spec fn obeys_partial_cmp_spec() -> bool {
        true
    }

    open spec fn partial_cmp_spec(&self, other: &Self) -> Option<core::cmp::Ordering> {
        if self.0 < other.0 {
            Some(core::cmp::Ordering::Less)
        } else if self.0 > other.0 {
            Some(core::cmp::Ordering::Greater)
        } else {
            Some(core::cmp::Ordering::Equal)
        }
    }
}

/// Times are ordered as their nanoseconds are, and are equal exactly where these are.
pub proof fn lemma_time_order(left: LocalObservationTime, right: LocalObservationTime)
    ensures
        left.partial_cmp_spec(&right) == Some(core::cmp::Ordering::Less) <==> left.0 < right.0,
        left.partial_cmp_spec(&right) == Some(core::cmp::Ordering::Greater) <==> left.0 > right.0,
        left.partial_cmp_spec(&right) == Some(core::cmp::Ordering::Equal) <==> left == right,
        left == right <==> left.0 == right.0,
{
}

impl LocalObservationTime {
    pub fn from_nanos_since_start(value: u64) -> (time: Self)
        ensures
            time.0 == value,
    {
        LocalObservationTime(value)
    }

    pub fn nanos_since_start(self) -> (nanos: u64)
        ensures
            nanos == self.0,
    {
        self.0
    }
}

/// What a venue's time value denotes.
#[derive(Clone, Copy, Debug, Eq, PartialEq, Structural)]
pub enum ExchangeTimeKind {
    EventTime,
    TradeTime,
    BlockTime,
    TransactionTime,
    Other,
}

/// The unit that a venue documents for a time value.
#[derive(Clone, Copy, Debug, Eq, PartialEq, Structural)]
pub enum ExchangeTimeUnit {
    Milliseconds,
    Microseconds,
    Nanoseconds,
    Unknown,
}

/// A venue-provided raw time value. It is preserved and never orders events.
#[derive(Clone, Copy, Debug, Eq, PartialEq, Structural)]
pub struct ExchangeTimeObservation {
    pub kind: ExchangeTimeKind,
    pub raw_value: u64,
    pub declared_unit: ExchangeTimeUnit,
}

impl ExchangeTimeObservation {
    pub fn new(kind: ExchangeTimeKind, raw_value: u64, declared_unit: ExchangeTimeUnit) -> (r: Self)
        ensures
            r.kind == kind,
            r.raw_value == raw_value,
            r.declared_unit == declared_unit,
    {
        ExchangeTimeObservation { kind, raw_value, declared_unit }
    }

    pub fn kind(self) -> (kind: ExchangeTimeKind)
        ensures
            kind == self.kind,
    {
        self.kind
    }

    pub fn raw_value(self) -> (raw_value: u64)
        ensures
            raw_value == self.raw_value,
    {
        self.raw_value
    }

    pub fn declared_unit(self) -> (unit: ExchangeTimeUnit)
        ensures
            unit == self.declared_unit,
    {
        self.declared_unit
    }
}

/// The times attached to one event.
#[derive(Debug, Eq, PartialEq)]
pub struct EventTimestamps {
    pub exchange_times: Vec<ExchangeTimeObservation>,
    pub local_receive: LocalObservationTime,
    pub processing_completed: LocalObservationTime,
}

/// The model of `EventTimestamps`.
pub struct TimestampsView {
    pub exchange_times: Seq<ExchangeTimeObservation>,
    pub local_receive: LocalObservationTime,
    pub processing_completed: LocalObservationTime,
}

impl View for EventTimestamps {
    type V = TimestampsView;

    open spec fn view(&self) -> TimestampsView {
        TimestampsView {
            exchange_times: self.exchange_times@,
            local_receive: self.local_receive,
            processing_completed: self.processing_completed,
        }
    }
}

impl Clone for EventTimestamps {
    fn clone(&self) -> (copy: Self)
        ensures
            copy@ == self@,
    {
        EventTimestamps {
            exchange_times: vstd::slice::slice_to_vec(self.exchange_times.as_slice()),
            local_receive: self.local_receive,
            processing_completed: self.processing_completed,
        }
    }
}

impl EventTimestamps {
    pub fn new(
        exchange_times: Vec<ExchangeTimeObservation>,
        local_receive: LocalObservationTime,
        processing_completed: LocalObservationTime,
    ) -> (timestamps: Self)
        ensures
            timestamps@ == (TimestampsView {
                exchange_times: exchange_times@,
                local_receive,
                processing_completed,
            }),
    {
        EventTimestamps { exchange_times, local_receive, processing_completed }
    }

    pub fn exchange_times(&self) -> (times: &[ExchangeTimeObservation])
        ensures
            times@ == self@.exchange_times,
    {
        self.exchange_times.as_slice()
    }

    pub fn local_receive(&self) -> (time: LocalObservationTime)
        ensures
            time == self@.local_receive,
    {
        self.local_receive
    }

    pub fn processing_completed(&self) -> (time: LocalObservationTime)
        ensures
            time == self@.processing_completed,
    {
        self.processing_completed
    }

    pub fn set_processing_completed(&mut self, value: LocalObservationTime)
        ensures
            final(self)@ == (TimestampsView { processing_completed: value, ..old(self)@ }),
    {
        self.processing_completed = value;
    }
}

/// Whether a report covers one execution or a taker order's aggregate.
#[derive(Clone, Copy, Debug, Eq, PartialEq, Structural)]
pub enum MarketTradeReportingKind {
    Individual,
    TakerOrderAggregate,
}

/// Why the execution took place.
#[derive(Clone, Copy, Debug, Eq, PartialEq, Structural)]
pub enum MarketTradeKind {
    Regular,
    Liquidation,
    Deleverage,
    MarketSettlement,
    Other,
}

/// The side that removed resting liquidity.
#[derive(Clone, Copy, Debug, Eq, PartialEq, Structural)]
pub enum AggressorSide {
    Buy,
    Sell,
    Unknown,
}

/// How the aggressor side is known.
#[derive(Clone, Copy, Debug, Eq, PartialEq, Structural)]
pub enum AggressorSideClassification {
    VenueProvided,
    DerivedFromMakerSide,
    Unknown,
}

/// The venue-native identity of a trade report.
#[allow(inconsistent_fields)]
#[derive(Debug, Eq, PartialEq)]
pub enum MarketTradeIdentity {
    Aster { aggregate_trade_id: u64, first_trade_id: u64, last_trade_id: u64 },
    Binance { aggregate_trade_id: u64, first_trade_id: u64, last_trade_id: u64 },
    Hyperliquid { block_time: u64, trade_id: u64, transaction_hash: String },
    Lighter { market_id: u32, trade_id: String, message_nonce: Option<u64> },
}

/// The model of `MarketTradeIdentity`.
#[allow(inconsistent_fields)]
pub enum IdentityView {
    Aster { aggregate_trade_id: u64, first_trade_id: u64, last_trade_id: u64 },
    Binance { aggregate_trade_id: u64, first_trade_id: u64, last_trade_id: u64 },
    Hyperliquid { block_time: u64, trade_id: u64, transaction_hash: Seq<char> },
    Lighter { market_id: u32, trade_id: Seq<char>, message_nonce: Option<u64> },
}

impl View for MarketTradeIdentity {
    type V = IdentityView;

    open spec fn view(&self) -> IdentityView {
        match *self {
            MarketTradeIdentity::Aster { aggregate_trade_id, first_trade_id, last_trade_id } =>
                IdentityView::Aster { aggregate_trade_id, first_trade_id, last_trade_id },
            MarketTradeIdentity::Binance { aggregate_trade_id, first_trade_id, last_trade_id } =>
                IdentityView::Binance { aggregate_trade_id, first_trade_id, last_trade_id },
            MarketTradeIdentity::Hyperliquid { block_time, trade_id, transaction_hash } =>
                IdentityView::Hyperliquid {
                    block_time,
                    trade_id,
                    transaction_hash: transaction_hash@,
                },
            MarketTradeIdentity::Lighter { market_id, trade_id, message_nonce } =>
                IdentityView::Lighter { market_id, trade_id: trade_id@, message_nonce },
        }
    }
}

impl IdentityView {
    /// The venue whose identities have this shape.
    pub open spec fn venue(self) -> Venue {
        match self {
            IdentityView::Aster { .. } => Venue::Aster,
            IdentityView::Binance { .. } => Venue::Binance,
            IdentityView::Hyperliquid { .. } => Venue::Hyperliquid,
            IdentityView::Lighter { .. } => Venue::Lighter,
        }
    }
}

impl Clone for MarketTradeIdentity {
    fn clone(&self) -> (copy: Self)
        ensures
            copy@ == self@,
    {
        match self {
            MarketTradeIdentity::Aster { aggregate_trade_id, first_trade_id, last_trade_id } =>
                MarketTradeIdentity::Aster {
                    aggregate_trade_id: *aggregate_trade_id,
                    first_trade_id: *first_trade_id,
                    last_trade_id: *last_trade_id,
                },
            MarketTradeIdentity::Binance { aggregate_trade_id, first_trade_id, last_trade_id } =>
                MarketTradeIdentity::Binance {
                    aggregate_trade_id: *aggregate_trade_id,
                    first_trade_id: *first_trade_id,
                    last_trade_id: *last_trade_id,
                },
            MarketTradeIdentity::Hyperliquid { block_time, trade_id, transaction_hash } =>
                MarketTradeIdentity::Hyperliquid {
                    block_time: *block_time,
                    trade_id: *trade_id,
                    transaction_hash: transaction_hash.clone(),
                },
            MarketTradeIdentity::Lighter { market_id, trade_id, message_nonce } =>
                MarketTradeIdentity::Lighter {
                    market_id: *market_id,
                    trade_id: trade_id.clone(),
                    message_nonce: *message_nonce,
                },
        }
    }
}

/// A public execution, or an explicitly identified execution aggregate, as the venue
/// reported it.
#[derive(Debug, Eq, PartialEq)]
pub struct MarketTrade {
    pub venue: Venue,
    pub symbol: Symbol,
    pub timestamps: EventTimestamps,
    pub price: Price,
    pub quantity: Quantity,
    pub reporting_kind: MarketTradeReportingKind,
    pub trade_kind: MarketTradeKind,
    pub aggressor_side: AggressorSide,
    pub aggressor_side_classification: AggressorSideClassification,
    pub identity: MarketTradeIdentity,
}

/// The model of `MarketTrade`.
pub struct TradeView {
    pub venue: Venue,
    pub coin: Seq<char>,
    pub timestamps: TimestampsView,
    pub price: Price,
    pub quantity: Quantity,
    pub reporting_kind: MarketTradeReportingKind,
    pub trade_kind: MarketTradeKind,
    pub aggressor_side: AggressorSide,
    pub aggressor_side_classification: AggressorSideClassification,
    pub identity: IdentityView,
}

impl TradeView {
    /// The trade with another processing completion time.
    pub open spec fn completed(self, time: LocalObservationTime) -> TradeView {
        TradeView {
            timestamps: TimestampsView { processing_completed: time, ..self.timestamps },
            ..self
        }
    }
}

impl View for MarketTrade {
    type V = TradeView;

    open spec fn view(&self) -> TradeView {
        TradeView {
            venue: self.venue,
            coin: self.symbol@,
            timestamps: self.timestamps@,
            price: self.price,
            quantity: self.quantity,
            reporting_kind: self.reporting_kind,
            trade_kind: self.trade_kind,
            aggressor_side: self.aggressor_side,
            aggressor_side_classification: self.aggressor_side_classification,
            identity: self.identity@,
        }
    }
}

impl Clone for MarketTrade {
    fn clone(&self) -> (copy: Self)
        ensures
            copy@ == self@,
    {
        MarketTrade {
            venue: self.venue,
            symbol: self.symbol.clone(),
            timestamps: self.timestamps.clone(),
            price: self.price,
            quantity: self.quantity,
            reporting_kind: self.reporting_kind,
            trade_kind: self.trade_kind,
            aggressor_side: self.aggressor_side,
            aggressor_side_classification: self.aggressor_side_classification,
            identity: self.identity.clone(),
        }
    }
}

impl MarketTrade {
    pub fn new(
        venue: Venue,
        symbol: Symbol,
        timestamps: EventTimestamps,
        price: Price,
        quantity: Quantity,
        reporting_kind: MarketTradeReportingKind,
        trade_kind: MarketTradeKind,
        aggressor_side: AggressorSide,
        aggressor_side_classification: AggressorSideClassification,
        identity: MarketTradeIdentity,
    ) -> (r: Self)
        ensures
            r@ == (TradeView {
                venue,
                coin: symbol@,
                timestamps: timestamps@,
                price,
                quantity,
                reporting_kind,
                trade_kind,
                aggressor_side,
                aggressor_side_classification,
                identity: identity@,
            }),
    {
        MarketTrade {
            venue,
            symbol,
            timestamps,
            price,
            quantity,
            reporting_kind,
            trade_kind,
            aggressor_side,
            aggressor_side_classification,
            identity,
        }
    }

    /// The trade with another processing completion time.
    pub fn completed_at(self, completed: LocalObservationTime) -> (trade: Self)
        ensures
            trade@ == self@.completed(completed),
    {
        let mut trade: MarketTrade = self;
        trade.timestamps.set_processing_completed(completed);
        trade
    }

    pub fn venue(&self) -> (r: Venue)
        ensures
            r == self@.venue,
    {
        self.venue
    }

    pub fn symbol(&self) -> (r: &Symbol)
        ensures
            r@ == self@.coin,
    {
        &self.symbol
    }

    pub fn timestamps(&self) -> (r: &EventTimestamps)
        ensures
            r@ == self@.timestamps,
    {
        &self.timestamps
    }

    pub fn price(&self) -> (r: Price)
        ensures
            r == self@.price,
    {
        self.price
    }

    pub fn quantity(&self) -> (r: Quantity)
        ensures
            r == self@.quantity,
    {
        self.quantity
    }

    pub fn reporting_kind(&self) -> (r: MarketTradeReportingKind)
        ensures
            r == self@.reporting_kind,
    {
        self.reporting_kind
    }

    pub fn trade_kind(&self) -> (r: MarketTradeKind)
        ensures
            r == self@.trade_kind,
    {
        self.trade_kind
    }

    pub fn aggressor_side(&self) -> (r: AggressorSide)
        ensures
            r == self@.aggressor_side,
    {
        self.aggressor_side
    }

    pub fn aggressor_side_classification(&self) -> (r: AggressorSideClassification)
        ensures
            r == self@.aggressor_side_classification,
    {
        self.aggressor_side_classification
    }

    pub fn identity(&self) -> (r: &MarketTradeIdentity)
        ensures
            r@ == self@.identity,
    {
        &self.identity
    }

}

/// Why market data stopped being available.
#[derive(Clone, Copy, Debug, Eq, PartialEq, Structural)]
pub enum UnavailabilityCategory {
    Disconnected,
    InvalidMarketData,
    SequenceGap,
    RecorderShutdown,
    Other,
}

/// A market whose order book or trade stream stopped being available.
#[derive(Debug, Eq, PartialEq)]
pub struct MarketDataUnavailable {
    pub venue: Venue,
    pub market_coin: MarketCoin,
    pub observed_at: LocalObservationTime,
    pub category: UnavailabilityCategory,
    pub diagnostic: String,
}

/// The model of `MarketDataUnavailable`.
pub struct UnavailableView {
    pub venue: Venue,
    pub coin: Seq<char>,
    pub observed_at: LocalObservationTime,
    pub category: UnavailabilityCategory,
    pub diagnostic: Seq<char>,
}

impl View for MarketDataUnavailable {
    type V = UnavailableView;

    open spec fn view(&self) -> UnavailableView {
        UnavailableView {
            venue: self.venue,
            coin: self.market_coin@,
            observed_at: self.observed_at,
            category: self.category,
            diagnostic: self.diagnostic@,
        }
    }
}

impl Clone for MarketDataUnavailable {
    fn clone(&self) -> (copy: Self)
        ensures
            copy@ == self@,
    {
        MarketDataUnavailable {
            venue: self.venue,
            market_coin: self.market_coin.clone(),
            observed_at: self.observed_at,
            category: self.category,
            diagnostic: self.diagnostic.clone(),
        }
    }
}

impl MarketDataUnavailable {
    pub fn new(
        venue: Venue,
        market_coin: MarketCoin,
        observed_at: LocalObservationTime,
        category: UnavailabilityCategory,
        diagnostic: String,
    ) -> (r: Self)
        ensures
            r@ == (UnavailableView {
                venue,
                coin: market_coin@,
                observed_at,
                category,
                diagnostic: diagnostic@,
            }),
    {
        MarketDataUnavailable {
            venue,
            market_coin,
            observed_at,
            category,
            diagnostic,
        }
    }

    pub fn venue(&self) -> (r: Venue)
        ensures
            r == self@.venue,
    {
        self.venue
    }

    pub fn market_coin(&self) -> (r: &MarketCoin)
        ensures
            r@ == self@.coin,
    {
        &self.market_coin
    }

    pub fn observed_at(&self) -> (r: LocalObservationTime)
        ensures
            r == self@.observed_at,
    {
        self.observed_at
    }

    pub fn category(&self) -> (r: UnavailabilityCategory)
        ensures
            r == self@.category,
    {
        self.category
    }

    pub fn diagnostic(&self) -> (r: &str)
        ensures
            r@ == self@.diagnostic,
    {
        self.diagnostic.as_str()
    }

}

/// The best bid and offer that a venue published. Either side may be absent.
#[derive(Debug, Eq, PartialEq)]
pub struct BestBidOffer {
    pub venue: Venue,
    pub symbol: Symbol,
    pub timestamps: EventTimestamps,
    pub bid: Option<BookLevel>,
    pub ask: Option<BookLevel>,
}

/// The model of `BestBidOffer`.
pub struct BboView {
    pub venue: Venue,
    pub coin: Seq<char>,
    pub timestamps: TimestampsView,
    pub bid: Option<BookLevel>,
    pub ask: Option<BookLevel>,
}

impl BboView {
    /// The best bid and offer with another processing completion time.
    pub open spec fn completed(self, time: LocalObservationTime) -> BboView {
        BboView {
            timestamps: TimestampsView { processing_completed: time, ..self.timestamps },
            ..self
        }
    }
}

impl View for BestBidOffer {
    type V = BboView;

    open spec fn view(&self) -> BboView {
        BboView {
            venue: self.venue,
            coin: self.symbol@,
            timestamps: self.timestamps@,
            bid: self.bid,
            ask: self.ask,
        }
    }
}

impl Clone for BestBidOffer {
    fn clone(&self) -> (copy: Self)
        ensures
            copy@ == self@,
    {
        BestBidOffer {
            venue: self.venue,
            symbol: self.symbol.clone(),
            timestamps: self.timestamps.clone(),
            bid: self.bid,
            ask: self.ask,
        }
    }
}

impl BestBidOffer {
    pub fn new(
        venue: Venue,
        symbol: Symbol,
        timestamps: EventTimestamps,
        bid: Option<BookLevel>,
        ask: Option<BookLevel>,
    ) -> (r: Self)
        ensures
            r@ == (BboView {
                venue,
                coin: symbol@,
                timestamps: timestamps@,
                bid,
                ask,
            }),
    {
        BestBidOffer {
            venue,
            symbol,
            timestamps,
            bid,
            ask,
        }
    }

    /// The best bid and offer with another processing completion time.
    pub fn completed_at(self, completed: LocalObservationTime) -> (offer: Self)
        ensures
            offer@ == self@.completed(completed),
    {
        let mut offer: BestBidOffer = self;
        offer.timestamps.set_processing_completed(completed);
        offer
    }

    pub fn venue(&self) -> (r: Venue)
        ensures
            r == self@.venue,
    {
        self.venue
    }

    pub fn symbol(&self) -> (r: &Symbol)
        ensures
            r@ == self@.coin,
    {
        &self.symbol
    }

    pub fn timestamps(&self) -> (r: &EventTimestamps)
        ensures
            r@ == self@.timestamps,
    {
        &self.timestamps
    }

    pub fn bid(&self) -> (level: Option<&BookLevel>)
        ensures
            match level {
                Some(level) => self@.bid == Some(*level),
                None => self@.bid is None,
            },
    {
        self.bid.as_ref()
    }

    pub fn ask(&self) -> (level: Option<&BookLevel>)
        ensures
            match level {
                Some(level) => self@.ask == Some(*level),
                None => self@.ask is None,
            },
    {
        self.ask.as_ref()
    }

}

/// A market whose trade stream delivers again.
#[derive(Debug, Eq, PartialEq)]
pub struct TradeStreamResumed {
    pub venue: Venue,
    pub market_coin: MarketCoin,
    pub observed_at: LocalObservationTime,
}

/// The model of `TradeStreamResumed`.
pub struct ResumedView {
    pub venue: Venue,
    pub coin: Seq<char>,
    pub observed_at: LocalObservationTime,
}

impl View for TradeStreamResumed {
    type V = ResumedView;

    open spec fn view(&self) -> ResumedView {
        ResumedView {
            venue: self.venue,
            coin: self.market_coin@,
            observed_at: self.observed_at,
        }
    }
}

impl Clone for TradeStreamResumed {
    fn clone(&self) -> (copy: Self)
        ensures
            copy@ == self@,
    {
        TradeStreamResumed {
            venue: self.venue,
            market_coin: self.market_coin.clone(),
            observed_at: self.observed_at,
        }
    }
}

impl TradeStreamResumed {
    pub fn new(
        venue: Venue,
        market_coin: MarketCoin,
        observed_at: LocalObservationTime,
    ) -> (r: Self)
        ensures
            r@ == (ResumedView {
                venue,
                coin: market_coin@,
                observed_at,
            }),
    {
        TradeStreamResumed {
            venue,
            market_coin,
            observed_at,
        }
    }

    pub fn venue(&self) -> (r: Venue)
        ensures
            r == self@.venue,
    {
        self.venue
    }

    pub fn market_coin(&self) -> (r: &MarketCoin)
        ensures
            r@ == self@.coin,
    {
        &self.market_coin
    }

    pub fn observed_at(&self) -> (r: LocalObservationTime)
        ensures
            r == self@.observed_at,
    {
        self.observed_at
    }

}

/// A venue-neutral market fact, consumed alike by live processing and replay.
#[derive(Debug, Eq, PartialEq)]
pub enum NormalizedMarketEvent {
    OrderBookSnapshot(OrderBookSnapshot),
    BestBidOfferUpdated(BestBidOffer),
    OrderBookUnavailable(MarketDataUnavailable),
    MarketTrade(MarketTrade),
    TradeStreamUnavailable(MarketDataUnavailable),
    TradeStreamResumed(TradeStreamResumed),
}

/// The model of `NormalizedMarketEvent`.
pub enum EventView {
    OrderBookSnapshot(SnapshotView),
    BestBidOfferUpdated(BboView),
    OrderBookUnavailable(UnavailableView),
    MarketTrade(TradeView),
    TradeStreamUnavailable(UnavailableView),
    TradeStreamResumed(ResumedView),
}

impl View for NormalizedMarketEvent {
    type V = EventView;

    open spec fn view(&self) -> EventView {
        match self {
            NormalizedMarketEvent::OrderBookSnapshot(event) => EventView::OrderBookSnapshot(event@),
            NormalizedMarketEvent::BestBidOfferUpdated(event) => EventView::BestBidOfferUpdated(event@),
            NormalizedMarketEvent::OrderBookUnavailable(event) => EventView::OrderBookUnavailable(event@),
            NormalizedMarketEvent::MarketTrade(event) => EventView::MarketTrade(event@),
            NormalizedMarketEvent::TradeStreamUnavailable(event) => EventView::TradeStreamUnavailable(event@),
            NormalizedMarketEvent::TradeStreamResumed(event) => EventView::TradeStreamResumed(event@),
        }
    }
}

impl Clone for NormalizedMarketEvent {
    fn clone(&self) -> (copy: Self)
        ensures
            copy@ == self@,
    {
        match self {
            NormalizedMarketEvent::OrderBookSnapshot(event) => NormalizedMarketEvent::OrderBookSnapshot(
                event.clone(),
            ),
            NormalizedMarketEvent::BestBidOfferUpdated(event) => NormalizedMarketEvent::BestBidOfferUpdated(
                event.clone(),
            ),
            NormalizedMarketEvent::OrderBookUnavailable(event) => NormalizedMarketEvent::OrderBookUnavailable(
                event.clone(),
            ),
            NormalizedMarketEvent::MarketTrade(event) => NormalizedMarketEvent::MarketTrade(
                event.clone(),
            ),
            NormalizedMarketEvent::TradeStreamUnavailable(event) => NormalizedMarketEvent::TradeStreamUnavailable(
                event.clone(),
            ),
            NormalizedMarketEvent::TradeStreamResumed(event) => NormalizedMarketEvent::TradeStreamResumed(
                event.clone(),
            ),
        }
    }
}

impl EventView {
    /// The venue that the event is about.
    pub open spec fn venue(self) -> Venue {
        match self {
            EventView::OrderBookSnapshot(event) => event.venue,
            EventView::BestBidOfferUpdated(event) => event.venue,
            EventView::OrderBookUnavailable(event) => event.venue,
            EventView::MarketTrade(event) => event.venue,
            EventView::TradeStreamUnavailable(event) => event.venue,
            EventView::TradeStreamResumed(event) => event.venue,
        }
    }

    /// When the processing of the event was complete, if the event says so.
    pub open spec fn completion(self) -> Option<LocalObservationTime> {
        match self {
            EventView::OrderBookSnapshot(event) => Some(event.timestamps.processing_completed),
            EventView::BestBidOfferUpdated(event) => Some(event.timestamps.processing_completed),
            EventView::MarketTrade(event) => Some(event.timestamps.processing_completed),
            _ => None,
        }
    }

    /// Whether the event holds only values that can exist; true of every event that
    /// was built.
    pub open spec fn valid(self) -> bool {
        &&& market_coin_error(self.coin()) is None
        &&& match self {
            EventView::OrderBookSnapshot(snapshot) => snapshot.valid(),
            EventView::BestBidOfferUpdated(bbo) => {
                &&& bbo.bid matches Some(level) ==> level.valid()
                &&& bbo.ask matches Some(level) ==> level.valid()
            },
            EventView::MarketTrade(trade) => trade.price.valid() && trade.quantity.valid(),
            _ => true,
        }
    }

    /// The market coin that the event is about.
    pub open spec fn coin(self) -> Seq<char> {
        match self {
            EventView::OrderBookSnapshot(event) => event.coin,
            EventView::BestBidOfferUpdated(event) => event.coin,
            EventView::OrderBookUnavailable(event) => event.coin,
            EventView::MarketTrade(event) => event.coin,
            EventView::TradeStreamUnavailable(event) => event.coin,
            EventView::TradeStreamResumed(event) => event.coin,
        }
    }
}

impl NormalizedMarketEvent {
    pub fn venue(&self) -> (venue: Venue)
        ensures
            venue == self@.venue(),
    {
        match self {
            NormalizedMarketEvent::OrderBookSnapshot(event) => event.venue(),
            NormalizedMarketEvent::BestBidOfferUpdated(event) => event.venue(),
            NormalizedMarketEvent::OrderBookUnavailable(event) => event.venue(),
            NormalizedMarketEvent::MarketTrade(event) => event.venue(),
            NormalizedMarketEvent::TradeStreamUnavailable(event) => event.venue(),
            NormalizedMarketEvent::TradeStreamResumed(event) => event.venue(),
        }
    }

    /// Makes known that the values of an event are valid.
    pub fn observe_valid(&self) -> (valid: bool)
        ensures
            valid,
            self@.valid(),
    {
        let _ = self.market_coin().as_str();
        match self {
            NormalizedMarketEvent::OrderBookSnapshot(event) => {
                let _ = event.bids();
            },
            NormalizedMarketEvent::BestBidOfferUpdated(event) => {
                if let Some(level) = event.bid() {
                    let _ = level.observe_valid();
                }
                if let Some(level) = event.ask() {
                    let _ = level.observe_valid();
                }
            },
            NormalizedMarketEvent::MarketTrade(event) => {
                let _ = event.price().coefficient();
                let _ = event.quantity().coefficient();
            },
            _ => {},
        }
        true
    }

    pub fn market_coin(&self) -> (coin: &MarketCoin)
        ensures
            coin@ == self@.coin(),
    {
        match self {
            NormalizedMarketEvent::OrderBookSnapshot(event) => event.symbol().market_coin(),
            NormalizedMarketEvent::BestBidOfferUpdated(event) => event.symbol().market_coin(),
            NormalizedMarketEvent::OrderBookUnavailable(event) => event.market_coin(),
            NormalizedMarketEvent::MarketTrade(event) => event.symbol().market_coin(),
            NormalizedMarketEvent::TradeStreamUnavailable(event) => event.market_coin(),
            NormalizedMarketEvent::TradeStreamResumed(event) => event.market_coin(),
        }
    }
}

} // verus!
