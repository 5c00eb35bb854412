//! Verified logic of a market-data collector and of order connectors for Binance.

pub mod text;
pub mod decimal;
pub mod double;
pub mod json;
pub mod types;
pub mod clock;
pub mod table;
pub mod binancespot;
pub mod binancefutures;
pub mod collector;
pub mod live;
