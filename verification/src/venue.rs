//! Venue sessions: clocks, deduplication, adapters and the live session.
pub mod action;
pub mod aster;
pub mod binance;
pub mod clock;
pub mod deduplication;
pub mod feed;
pub mod hyperliquid;
pub mod levels;
pub mod lighter;
pub mod raw;
pub mod runtime;
pub mod session;
pub mod stream_answers;
pub mod stream_markets;
pub mod stream_messages;
pub mod streams;
pub mod wire;
