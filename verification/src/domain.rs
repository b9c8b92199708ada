//! Exact values and identifiers of the market-data vocabulary.
pub mod decimal;
pub mod price;
pub mod quantity;
pub mod symbol;
pub mod venue;

pub use decimal::DecimalParseError;
pub use price::Price;
pub use quantity::Quantity;
pub use symbol::{MarketCoin, MarketCoinError, Symbol};
pub use venue::Venue;
