//! A collector of market data.

pub mod file;
pub mod http;
