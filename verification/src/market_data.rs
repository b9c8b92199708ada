//! Normalized market events and order-book state.
pub mod event;
pub mod order_book;

pub use event::{
    AggressorSide, AggressorSideClassification, BestBidOffer, EventTimestamps, ExchangeTimeKind,
    ExchangeTimeObservation, ExchangeTimeUnit, LocalObservationTime, MarketDataUnavailable,
    MarketTrade, MarketTradeIdentity, MarketTradeKind, MarketTradeReportingKind,
    NormalizedMarketEvent, TradeStreamResumed, UnavailabilityCategory,
};
pub use order_book::{
    BookLevel, OrderBook, OrderBookIdentityError, OrderBookSnapshot, OrderBookStatus, OrderCount,
    SnapshotValidationError,
};
