//! Verified core of a reproducible market-data pipeline.
pub mod bytes;
pub mod domain;
pub mod engine;
pub mod export;
pub mod hashing;
pub mod json;
pub mod keyed;
pub mod market_data;
pub mod parsing;
pub mod recorder;
pub mod replay;
pub mod text;
pub mod trader;
pub mod venue;
