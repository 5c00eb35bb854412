//! What a live bot keeps of an instrument.

use std::collections::HashMap;
use vstd::prelude::*;
use crate::types::{Event, Order, OrderId};

verus! {

/// What a bot has traded. Quantities and values are decimals.
#[derive(Clone, Copy, PartialEq, Eq, Structural, Debug)]
pub struct StateValues {
    pub position: i128,
    pub balance: i128,
    pub fee: i128,
    pub num_trades: i64,
    pub trading_volume: i128,
    pub trading_value: i128,
}

impl StateValues {
    /// What a bot has that has not traded.
    pub open spec fn zero() -> StateValues {
        StateValues {
            position: 0,
            balance: 0,
            fee: 0,
            num_trades: 0,
            trading_volume: 0,
            trading_value: 0,
        }
    }
}

impl Default for StateValues {
    fn default() -> (s: StateValues)
        ensures
            s == StateValues::zero(),
    {
        StateValues {
            position: 0,
            balance: 0,
            fee: 0,
            num_trades: 0,
            trading_volume: 0,
            trading_value: 0,
        }
    }
}

/// An instrument: what it is, its book, its last trades, the bot's orders, the last latencies, and
/// the best bid and ask, which are kept apart from the book.
pub struct Instrument<MD> {
    pub connector_name: String,
    pub symbol: String,
    pub tick_size: i128,
    pub lot_size: i128,
    pub depth: MD,
    pub last_trades: Vec<Event>,
    pub orders: HashMap<OrderId, Order>,
    pub last_feed_latency: Option<(i64, i64)>,
    pub last_order_latency: Option<(i64, i64, i64)>,
    pub last_bbo: Option<(i128, i128, i128, i128)>,
    pub state: StateValues,
}

impl<MD> Instrument<MD> {
    /// An instrument that nothing has been heard of. The connector's name is that under which it is
    /// registered, and the symbol is as that connector writes it; the tick size is the least change
    /// of a price, and the lot size the least quantity.
    pub fn new(
        connector_name: &str,
        symbol: &str,
        tick_size: i128,
        lot_size: i128,
        depth: MD,
        last_trades_capacity: usize,
    ) -> (i: Instrument<MD>)
        ensures
            i.connector_name@ == connector_name@,
            i.symbol@ == symbol@,
            i.tick_size == tick_size,
            i.lot_size == lot_size,
            i.depth == depth,
            i.last_trades@.len() == 0,
            i.orders@ == Map::<OrderId, Order>::empty(),
            i.last_feed_latency is None,
            i.last_order_latency is None,
            i.last_bbo is None,
            i.state == StateValues::zero(),
    {
        Instrument {
            connector_name: connector_name.to_owned(),
            symbol: symbol.to_owned(),
            tick_size,
            lot_size,
            depth,
            last_trades: Vec::with_capacity(last_trades_capacity),
            orders: HashMap::new(),
            last_feed_latency: None,
            last_order_latency: None,
            last_bbo: None,
            state: StateValues::default(),
        }
    }
}

} // verus!
