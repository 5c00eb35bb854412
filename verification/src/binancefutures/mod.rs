//! A client for Binance USD-M futures.

pub mod rest;

use vstd::prelude::*;

verus! {

/// Why a request failed.
#[derive(Debug)]
pub enum BinanceFuturesError {
    /// The request asks for more than a batch may hold.
    InvalidRequest,
    /// The exchange refused the order.
    OrderError { code: i64, msg: String },
}

} // verus!
