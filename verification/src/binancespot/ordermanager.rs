//! The orders of a connector.
//!
//! Two channels tell what becomes of an order: the user-data stream and the answers to requests.
//! An order is forgotten when both have told that it is done. The quantity filled so far is
//! merged from whichever channel knows of more, whatever the times of their messages.

use vstd::prelude::*;
use vstd::string::*;
use crate::clock::{now_nanos, reading, time_at};
use crate::decimal::{
    abs, law_ticks_are_nearest, law_ticks_of_a_price_are_its_ticks, nearest_ticks, ticks,
};
use crate::text::{same, starts_with};
use crate::types::{to_nanos, Order, OrderId, Status};
use super::msg::rest::{CancelOrderResponse, OrderResponse};
use super::msg::Message;
use super::msg::stream::ExecutionReport;
use super::rows::{id_rows, order_rows, IdRows, OrderExt, OrderRows, Row};
use super::BinanceSpotError;

verus! {

/// The identifier of an order at the exchange.
pub type ClientOrderId = String;

/// How long an order that one channel has told to be done waits for the other, in nanoseconds.
pub const STALE_NANOS: i64 = 300_000_000_000;

/// Whether a channel that knows of `filled` knows of more than the order does. Quantities that
/// differ by one unit or less are the same.
pub open spec fn fills_more(o: Order, filled: int) -> bool {
    filled > o.filled() + 1
}

/// The order after a report of the user-data stream. What the report tells of the state counts if
/// it is not older than what is known; what it tells of the quantity filled counts if it is more.
pub open spec fn order_after_ws(o: Order, r: ExecutionReport) -> Order {
    let seen = if r.event_time * 1_000_000 >= o.exch_timestamp {
        Order {
            side: r.side,
            time_in_force: r.time_in_force,
            exch_timestamp: (r.event_time * 1_000_000) as i64,
            status: r.order_status,
            exec_price_tick: ticks(r.last_filled_price as int, o.tick_size as int) as i64,
            exec_qty: r.order_last_filled_quantity,
            order_type: r.order_type,
            ..o
        }
    } else {
        o
    };
    if fills_more(o, r.order_filled_accumulated_quantity as int) {
        Order {
            qty: r.quantity,
            leaves_qty: (r.quantity - r.order_filled_accumulated_quantity) as i128,
            maker: r.is_maker,
            ..seen
        }
    } else {
        seen
    }
}

/// The order after the answer to a request, which knows no price and no liquidity of a fill.
pub open spec fn order_after_rest(o: Order, r: OrderResponse) -> Order {
    let seen = if r.transact_time * 1_000_000 >= o.exch_timestamp {
        Order {
            side: r.side,
            time_in_force: r.time_in_force,
            exch_timestamp: (r.transact_time * 1_000_000) as i64,
            status: r.status,
            exec_qty: r.executed_qty,
            order_type: r.order_type,
            req: Status::Unset,
            ..o
        }
    } else {
        o
    };
    if fills_more(o, r.executed_qty as int) {
        Order { qty: r.orig_qty, leaves_qty: (r.orig_qty - r.executed_qty) as i128, ..seen }
    } else {
        seen
    }
}

/// The order after a request for it failed.
pub open spec fn order_after_fail(o: Order, status: Option<Status>) -> Order {
    Order {
        status: match status {
            Some(s) => s,
            None => o.status,
        },
        req: Status::Unset,
        ..o
    }
}

/// The order after all orders of its symbol were canceled.
pub open spec fn order_after_cancel(o: Order, time: i64) -> Order {
    Order { status: Status::Canceled, exch_timestamp: time, ..o }
}

impl Row {
    /// Whether a channel has told that the order is done.
    pub open spec fn removed(self) -> bool {
        self.removed_by_ws || self.removed_by_rest
    }

    /// The symbol and the identifier that the bot gave the order.
    pub open spec fn id(self) -> (Seq<char>, u64) {
        (self.symbol, self.order.order_id)
    }

    /// Whether a channel has told that the order is done, so long ago that the other is not waited
    /// for any more.
    pub open spec fn stale(self, now: int) -> bool {
        &&& self.removed()
        &&& !self.order.status.live()
        &&& !(self.order.status is Unsupported)
        &&& self.order.exch_timestamp < now - STALE_NANOS
    }

    /// The order after all orders of its symbol were canceled.
    pub open spec fn after_cancel(self, time: i64) -> Row {
        Row { order: order_after_cancel(self.order, time), removed_by_rest: true, ..self }
    }

    /// What a bot is told of an order whose state is now `order`: nothing if a channel had told
    /// that it is done, unless more has been filled.
    pub open spec fn told(self, order: Order) -> Option<Order> {
        if !self.removed() || fills_more(self.order, order.filled()) {
            Some(order)
        } else {
            None
        }
    }
}

/// What an [`OrderManager`] holds: the orders by client order identifier, and the client order
/// identifiers of the orders that no channel has told to be done.
pub struct Book {
    pub prefix: Seq<char>,
    pub orders: Map<Seq<char>, Row>,
    pub ids: Map<(Seq<char>, u64), Seq<char>>,
}

impl Book {
    /// Whether the order that a symbol and an identifier lead to is there.
    pub open spec fn leads(self, id: (Seq<char>, u64)) -> bool {
        let key = self.ids[id];
        &&& self.orders.contains_key(key)
        &&& self.orders[key].id() == id
        &&& !self.orders[key].removed()
    }

    /// Whether a stored order is in order: its identifier begins with the prefix, one channel at
    /// most has told that it is done, and its decimals are within limits.
    pub open spec fn keeps(self, key: Seq<char>) -> bool {
        let row = self.orders[key];
        &&& self.prefix.is_prefix_of(key)
        &&& !(row.removed_by_ws && row.removed_by_rest)
        &&& row.order.wf()
    }

    /// What holds of every state.
    pub open spec fn valid(self) -> bool {
        &&& forall|id: (Seq<char>, u64)| #[trigger] self.ids.contains_key(id) ==> self.leads(id)
        &&& forall|key: Seq<char>| #[trigger] self.orders.contains_key(key) ==> self.keeps(key)
    }

    /// Whether every order that no channel has told to be done is found by its identifier.
    pub open spec fn reachable(self) -> bool {
        forall|key: Seq<char>| #[trigger]
            self.orders.contains_key(key) && !self.orders[key].removed() ==> {
                &&& self.ids.contains_key(self.orders[key].id())
                &&& self.ids[self.orders[key].id()] == key
            }
    }

    /// The state after a channel told that the state of an order is now `order`. An order that is
    /// done is no longer found by its identifier, and is forgotten once both channels told so.
    pub open spec fn settled(self, key: Seq<char>, order: Order, by_ws: bool) -> Book {
        let row = self.orders[key];
        let done = !order.status.live();
        let next = Row {
            order,
            removed_by_ws: row.removed_by_ws || (done && by_ws),
            removed_by_rest: row.removed_by_rest || (done && !by_ws),
            ..row
        };
        Book {
            orders: if done && next.removed_by_ws && next.removed_by_rest {
                self.orders.remove(key)
            } else {
                self.orders.insert(key, next)
            },
            ids: if done && !row.removed() {
                self.ids.remove(row.id())
            } else {
                self.ids
            },
            ..self
        }
    }

    /// The state after an order was taken on.
    pub open spec fn prepared(self, key: Seq<char>, symbol: Seq<char>, order: Order) -> Book {
        let row = Row { symbol, order, removed_by_ws: false, removed_by_rest: false };
        Book {
            orders: self.orders.insert(key, row),
            ids: self.ids.insert((symbol, order.order_id), key),
            ..self
        }
    }

    /// The state after the orders that are done for long were forgotten. None of them was found by
    /// its identifier any more.
    pub open spec fn collected(self, now: int) -> Book {
        Book {
            orders: self.orders.remove_keys(Set::new(|key: Seq<char>| self.stale(key, now))),
            ..self
        }
    }

    /// Whether an order of a symbol is there that no channel has told to be done.
    pub open spec fn open_for(self, symbol: Seq<char>, key: Seq<char>) -> bool {
        &&& self.orders.contains_key(key)
        &&& self.orders[key].symbol == symbol
        &&& !self.orders[key].removed()
    }

    /// Whether an order is there that is done for long.
    pub open spec fn stale(self, key: Seq<char>, now: int) -> bool {
        self.orders.contains_key(key) && self.orders[key].stale(now)
    }

    /// Whether an order is forgotten where all orders of a symbol are canceled: the user-data stream
    /// had told that it is done.
    pub open spec fn clears(self, symbol: Seq<char>, key: Seq<char>) -> bool {
        self.orders[key].symbol == symbol && self.orders[key].removed_by_ws
    }

    /// The state after all orders of a symbol were canceled, where `at` gives the time of each: each
    /// of them is canceled, and those that the user-data stream had told to be done are forgotten.
    pub open spec fn cleared(self, symbol: Seq<char>, at: Map<Seq<char>, i64>) -> Book {
        Book {
            orders: Map::new(
                |key: Seq<char>| self.orders.contains_key(key) && !self.clears(symbol, key),
                |key: Seq<char>|
                    if self.orders[key].symbol == symbol {
                        self.orders[key].after_cancel(at[key])
                    } else {
                        self.orders[key]
                    },
            ),
            ids: self.ids.remove_keys(Set::new(|id: (Seq<char>, u64)| id.0 == symbol)),
            ..self
        }
    }

    /// Whether the time of every order of a symbol is one of the readings.
    pub open spec fn timed(
        self,
        symbol: Seq<char>,
        at: Map<Seq<char>, i64>,
        times: Seq<i64>,
    ) -> bool {
        forall|key: Seq<char>| #[trigger]
            self.orders.contains_key(key) && self.orders[key].symbol == symbol ==> times.contains(
                at[key],
            )
    }

    /// Whether an order cannot be taken on: its identifier, or its client order identifier, is in
    /// use.
    pub open spec fn in_use(self, symbol: Seq<char>, order_id: u64, suffix: Seq<char>) -> bool {
        self.ids.contains_key((symbol, order_id)) || self.orders.contains_key(self.prefix + suffix)
    }

    /// Whether `out` holds the orders that `pick` takes, each once, where `keys` are their
    /// identifiers.
    pub open spec fn lists_as(
        self,
        pick: spec_fn(Seq<char>) -> bool,
        keys: Seq<Seq<char>>,
        out: Seq<Order>,
    ) -> bool {
        &&& keys.len() == out.len()
        &&& keys.no_duplicates()
        &&& forall|i: int|
            0 <= i < out.len() ==> self.orders.contains_key(#[trigger] keys[i]) && pick(keys[i])
                && out[i] == self.orders[keys[i]].order
        &&& forall|key: Seq<char>| #[trigger]
            self.orders.contains_key(key) && pick(key) ==> keys.contains(key)
    }

    /// Whether an order is in the market, of one symbol or of any.
    pub open spec fn in_market(self, symbol: Option<Seq<char>>, key: Seq<char>) -> bool {
        &&& self.orders.contains_key(key)
        &&& symbol is Some ==> self.orders[key].symbol == symbol->0
        &&& self.orders[key].order.status.live()
    }

    /// Whether `out` holds the orders that are in the market, of one symbol or of all, each once, in
    /// any order.
    pub open spec fn lists_market(self, symbol: Option<Seq<char>>, out: Seq<Order>) -> bool {
        self.lists(|key: Seq<char>| self.in_market(symbol, key), out)
    }

    /// Whether `out` holds the orders that `pick` takes, each once, in any order.
    pub open spec fn lists(self, pick: spec_fn(Seq<char>) -> bool, out: Seq<Order>) -> bool {
        exists|keys: Seq<Seq<char>>| #[trigger] self.lists_as(pick, keys, out)
    }
}

/// The orders of a connector.
#[derive(Debug)]
pub struct OrderManager {
    prefix: String,
    orders: OrderRows,
    order_id_map: IdRows,
}

impl View for OrderManager {
    type V = Book;

    closed spec fn view(&self) -> Book {
        Book {
            prefix: self.prefix@,
            orders: order_rows(self.orders),
            ids: id_rows(self.order_id_map),
        }
    }
}

impl OrderManager {
    /// What holds of every order manager.
    pub open spec fn wf(self) -> bool {
        self@.valid()
    }

    /// An order manager whose client order identifiers begin with `prefix`.
    pub fn new(prefix: &str) -> (m: OrderManager)
        ensures
            m.wf(),
            m@.prefix == prefix@,
            m@.orders.is_empty(),
            m@.ids.is_empty(),
            m@.reachable(),
    {
        OrderManager {
            prefix: prefix.to_owned(),
            orders: OrderRows::new(),
            order_id_map: IdRows::new(),
        }
    }

    /// Records that the state of an order is now `order`, as a channel told.
    fn settle(&mut self, key: &str, order: Order, by_ws: bool)
        requires
            old(self).wf(),
            old(self)@.orders.contains_key(key@),
            order.order_id == old(self)@.orders[key@].order.order_id,
            order.wf(),
        ensures
            final(self).wf(),
            final(self)@ == old(self)@.settled(key@, order, by_ws),
    {
        let ghost before = self@;
        let ghost row = self@.orders[key@];
        let done = !order.status.is_live();
        if let Some(ext) = self.orders.get_mut(key) {
            let already_removed = ext.removed_by_ws || ext.removed_by_rest;
            ext.order = order;
            if done {
                if by_ws {
                    ext.removed_by_ws = true;
                } else {
                    ext.removed_by_rest = true;
                }
                let symbol = ext.symbol.clone();
                let both = ext.removed_by_ws && ext.removed_by_rest;
                if !already_removed {
                    self.order_id_map.remove(symbol.as_str(), order.order_id);
                }
                if both {
                    self.orders.remove(key);
                }
            }
        }
        proof {
            assert(self@.orders =~= before.settled(key@, order, by_ws).orders);
            lemma_settled_valid(before, key@, order, by_ws);
        }
    }

    /// Records a report of the user-data stream and gives what a bot is to be told.
    pub fn update_from_ws(&mut self, resp: &ExecutionReport) -> (r: Result<
        Option<Order>,
        BinanceSpotError,
    >)
        requires
            old(self).wf(),
            resp.wf(),
        ensures
            final(self).wf(),
            follows(old(self)@, final(self)@),
            match r {
                Ok(told) => {
                    let key = resp.client_order_id@;
                    let row = old(self)@.orders[key];
                    let order = order_after_ws(row.order, *resp);
                    &&& old(self)@.prefix.is_prefix_of(key)
                    &&& old(self)@.orders.contains_key(key)
                    &&& final(self)@ == old(self)@.settled(key, order, true)
                    &&& told == row.told(order)
                },
                Err(BinanceSpotError::PrefixUnmatched) => {
                    &&& !old(self)@.prefix.is_prefix_of(resp.client_order_id@)
                    &&& final(self)@ == old(self)@
                },
                Err(BinanceSpotError::OrderNotFound) => {
                    &&& old(self)@.prefix.is_prefix_of(resp.client_order_id@)
                    &&& !old(self)@.orders.contains_key(resp.client_order_id@)
                    &&& final(self)@ == old(self)@
                },
                Err(_) => false,
            },
    {
        if !starts_with(resp.client_order_id.as_str(), self.prefix.as_str()) {
            return Err(BinanceSpotError::PrefixUnmatched);
        }
        let key = resp.client_order_id.as_str();
        let (before, already_removed): (Order, bool) = match self.orders.get(key) {
            Some(ext) => (ext.order, ext.removed_by_ws || ext.removed_by_rest),
            None => {
                return Err(BinanceSpotError::OrderNotFound);
            },
        };
        assert(self@.keeps(key@));
        let filled: i128 = before.qty - before.leaves_qty;
        let mut order = before;
        let time = to_nanos(resp.event_time);
        if time >= before.exch_timestamp {
            order.side = resp.side;
            order.time_in_force = resp.time_in_force;
            order.exch_timestamp = time;
            order.status = resp.order_status;
            order.exec_price_tick = nearest_ticks(resp.last_filled_price, before.tick_size);
            order.exec_qty = resp.order_last_filled_quantity;
            order.order_type = resp.order_type;
        }
        if resp.order_filled_accumulated_quantity > filled + 1 {
            order.qty = resp.quantity;
            order.leaves_qty = resp.quantity - resp.order_filled_accumulated_quantity;
            order.maker = resp.is_maker;
        }
        assert(order == order_after_ws(before, *resp));
        let told = if !already_removed || order.qty - order.leaves_qty > filled + 1 {
            Some(order)
        } else {
            None
        };
        self.settle(key, order, true);
        assert(heard(old(self)@, self@, key@, *resp));
        Ok(told)
    }

    /// Records that the submission of an order failed: the order expired.
    pub fn update_submit_fail(
        &mut self,
        client_order_id: &ClientOrderId,
        _error: &BinanceSpotError,
    ) -> (r: Option<Order>)
        requires
            old(self).wf(),
        ensures
            final(self).wf(),
            follows(old(self)@, final(self)@),
            failed(old(self)@, client_order_id@, Some(Status::Expired), final(self)@, r),
    {
        self.update_from_rest_fail(client_order_id, Some(Status::Expired))
    }

    /// Records that the cancellation of an order failed. Where the exchange does not know the
    /// order, its status is unset; else its status stays.
    pub fn update_cancel_fail(
        &mut self,
        client_order_id: &ClientOrderId,
        error: &BinanceSpotError,
    ) -> (r: Option<Order>)
        requires
            old(self).wf(),
        ensures
            final(self).wf(),
            follows(old(self)@, final(self)@),
            failed(
                old(self)@,
                client_order_id@,
                if unknown_order(*error) {
                    Some(Status::Unset)
                } else {
                    None
                },
                final(self)@,
                r,
            ),
    {
        match error {
            BinanceSpotError::OrderError { code: -2011, .. } => self.update_from_rest_fail(
                client_order_id,
                Some(Status::Unset),
            ),
            _ => self.update_from_rest_fail(client_order_id, None),
        }
    }

    /// Records that a request for an order failed and gives what a bot is to be told.
    pub fn update_from_rest_fail(
        &mut self,
        client_order_id: &ClientOrderId,
        status: Option<Status>,
    ) -> (r: Option<Order>)
        requires
            old(self).wf(),
        ensures
            final(self).wf(),
            follows(old(self)@, final(self)@),
            failed(old(self)@, client_order_id@, status, final(self)@, r),
    {
        let (before, already_removed): (Order, bool) = match self.orders.get(
            client_order_id.as_str(),
        ) {
            Some(ext) => (ext.order, ext.removed_by_ws || ext.removed_by_rest),
            None => {
                return None;
            },
        };
        assert(self@.keeps(client_order_id@));
        let mut order = before;
        if let Some(status) = status {
            order.status = status;
        }
        order.req = Status::Unset;
        let told = if already_removed {
            None
        } else {
            Some(order)
        };
        self.settle(client_order_id.as_str(), order, false);
        assert(gave_up(old(self)@, self@, client_order_id@, status));
        told
    }

    /// Records the answer to a request and gives what a bot is to be told.
    pub fn update_from_rest(
        &mut self,
        client_order_id: &ClientOrderId,
        resp: &OrderResponse,
    ) -> (r: Option<Order>)
        requires
            old(self).wf(),
            resp.wf(),
        ensures
            final(self).wf(),
            follows(old(self)@, final(self)@),
            answered(old(self)@, client_order_id@, *resp, final(self)@, r),
    {
        let (before, already_removed): (Order, bool) = match self.orders.get(
            client_order_id.as_str(),
        ) {
            Some(ext) => (ext.order, ext.removed_by_ws || ext.removed_by_rest),
            None => {
                return None;
            },
        };
        assert(self@.keeps(client_order_id@));
        let filled: i128 = before.qty - before.leaves_qty;
        let mut order = before;
        let time = to_nanos(resp.transact_time);
        if time >= before.exch_timestamp {
            order.side = resp.side;
            order.time_in_force = resp.time_in_force;
            order.exch_timestamp = time;
            order.status = resp.status;
            order.exec_qty = resp.executed_qty;
            order.order_type = resp.order_type;
            order.req = Status::Unset;
        }
        if resp.executed_qty > filled + 1 {
            order.qty = resp.orig_qty;
            order.leaves_qty = resp.orig_qty - resp.executed_qty;
        }
        assert(order == order_after_rest(before, *resp));
        let told = if !already_removed || order.qty - order.leaves_qty > filled + 1 {
            Some(order)
        } else {
            None
        };
        self.settle(client_order_id.as_str(), order, false);
        assert(responded(old(self)@, self@, client_order_id@, *resp));
        told
    }

    /// Takes on an order. Its client order identifier is the prefix and `suffix`, which is drawn
    /// at random. The order is refused where the bot's identifier or the client order identifier
    /// is in use.
    pub fn prepare_client_order_id(
        &mut self,
        symbol: String,
        order: Order,
        suffix: &str,
    ) -> (r: Option<String>)
        requires
            old(self).wf(),
            old(self)@.in_use(symbol@, order.order_id, suffix@) || order.wf(),
        ensures
            final(self).wf(),
            follows(old(self)@, final(self)@),
            ({
                let key = old(self)@.prefix + suffix@;
                let in_use = old(self)@.in_use(symbol@, order.order_id, suffix@);
                match r {
                    Some(id) => {
                        &&& !in_use
                        &&& id@ == key
                        &&& final(self)@ == old(self)@.prepared(key, symbol@, order)
                    },
                    None => in_use && final(self)@ == old(self)@,
                }
            }),
    {
        let ghost before = self@;
        if self.order_id_map.get(symbol.as_str(), order.order_id).is_some() {
            return None;
        }
        let client_order_id = self.prefix.clone().concat(suffix);
        if self.orders.get(client_order_id.as_str()).is_some() {
            return None;
        }
        self.order_id_map.insert(symbol.clone(), order.order_id, client_order_id.clone());
        self.orders.insert(
            client_order_id.clone(),
            OrderExt { symbol, order, removed_by_ws: false, removed_by_rest: false },
        );
        proof {
            let key = client_order_id@;
            assert(self@ == before.prepared(key, symbol@, order));
            assert(before.prefix.is_prefix_of(key));
            lemma_prepared_valid(before, key, symbol@, order);
            assert(took_on(before, self@, key, symbol@, order));
        }
        Some(client_order_id)
    }

    /// Whether an order cannot be taken on under the client order identifier that ends in `suffix`.
    pub fn is_in_use(&self, symbol: &str, order_id: OrderId, suffix: &str) -> (r: bool)
        ensures
            r == self@.in_use(symbol@, order_id, suffix@),
    {
        let client_order_id = self.prefix.clone().concat(suffix);
        self.order_id_map.get(symbol, order_id).is_some() || self.orders.get(
            client_order_id.as_str(),
        ).is_some()
    }

    /// The client order identifier of an order that no channel has told to be done.
    pub fn get_client_order_id(&self, symbol: &str, order_id: OrderId) -> (r: Option<String>)
        ensures
            match r {
                Some(id) => {
                    &&& self@.ids.contains_key((symbol@, order_id))
                    &&& id@ == self@.ids[(symbol@, order_id)]
                },
                None => !self@.ids.contains_key((symbol@, order_id)),
            },
    {
        match self.order_id_map.get(symbol, order_id) {
            Some(id) => Some(id.clone()),
            None => None,
        }
    }

    /// Forgets the orders that are done for long. A channel may never confirm that an order is
    /// done, as requests and connections fail; such orders are forgotten after a while. The time
    /// is that of the system.
    pub fn gc(&mut self)
        requires
            old(self).wf(),
        ensures
            final(self).wf(),
            follows(old(self)@, final(self)@),
            exists|now: i64| final(self)@ == #[trigger] old(self)@.collected(now as int),
    {
        let now = now_nanos();
        self.gc_at(now);
    }

    /// Forgets the orders that are done for long at the time `now`.
    pub fn gc_at(&mut self, now: i64)
        requires
            old(self).wf(),
        ensures
            final(self).wf(),
            follows(old(self)@, final(self)@),
            final(self)@ == old(self)@.collected(now as int),
    {
        let ghost before = self@;
        let keys = self.orders.keys();
        let mut i: usize = 0;
        while i < keys.len()
            invariant
                i <= keys@.len(),
                before == old(self)@,
                before.valid(),
                self@.prefix == before.prefix,
                forall|a: int, b: int|
                    0 <= a < b < keys@.len() ==> (#[trigger] keys@[a])@ != (#[trigger] keys@[b])@,
                forall|k: Seq<char>| #[trigger]
                    before.orders.contains_key(k) ==> exists|a: int|
                        0 <= a < keys@.len() && (#[trigger] keys@[a])@ == k,
                self@.orders == before.orders.remove_keys(
                    Set::new(
                        |k: Seq<char>| before.stale(k, now as int) && within(keys@, i as int, k),
                    ),
                ),
                self@.ids == before.ids,
            decreases keys.len() - i,
        {
            let ghost here = self@;
            let key = keys[i].as_str();
            proof {
                lemma_within_next(keys@, i as int);
            }
            let mut stale = false;
            if let Some(ext) = self.orders.get(key) {
                let status = ext.order.status;
                stale = (ext.removed_by_ws || ext.removed_by_rest) && !status.is_live()
                    && !matches!(status, Status::Unsupported) && (ext.order.exch_timestamp as i128)
                    < now as i128 - STALE_NANOS as i128;
            }
            if stale {
                self.orders.remove(key);
            }
            i += 1;
            proof {
                let orders = before.orders.remove_keys(
                    Set::new(
                        |k: Seq<char>| before.stale(k, now as int) && within(keys@, i as int, k),
                    ),
                );
                assert(self@.orders =~= orders);
            }
        }
        proof {
            let after = before.collected(now as int);
            assert forall|k: Seq<char>| before.orders.contains_key(k) implies within(
                keys@,
                i as int,
                k,
            ) by {}
            assert(self@.orders =~= after.orders);
            lemma_collected_valid(before, now as int);
            assert(collects(before, self@, now as int));
        }
    }

    /// Records that all orders of a symbol were canceled, and gives the orders that a bot is to be
    /// told of: those that no channel had told to be done. The clock of the system is read for each.
    pub fn cancel_all_from_rest(&mut self, symbol: &str) -> (r: Vec<Order>)
        requires
            old(self).wf(),
        ensures
            final(self).wf(),
            follows(old(self)@, final(self)@),
            exists|at: Map<Seq<char>, i64>|
                final(self)@ == #[trigger] old(self)@.cleared(symbol@, at),
            final(self)@.lists(
                |key: Seq<char>| old(self)@.open_for(symbol@, key),
                r@,
            ),
    {
        let times = self.times();
        self.cancel_all_from_rest_at(symbol, &times)
    }

    /// A reading of the clock for each order, and one at least.
    pub(crate) fn times(&self) -> (times: Vec<i64>)
        ensures
            times@.len() > 0,
    {
        let n = self.orders.keys().len();
        let mut times: Vec<i64> = Vec::new();
        times.push(now_nanos());
        let mut i: usize = 0;
        while i < n
            invariant
                i <= n,
                times@.len() == i + 1,
            decreases n - i,
        {
            times.push(now_nanos());
            i += 1;
        }
        times
    }

    /// Records that all orders of a symbol were canceled. The time of each order is one of `times`:
    /// the next for each that is walked, in no order that is specified.
    pub fn cancel_all_from_rest_at(&mut self, symbol: &str, times: &Vec<i64>) -> (r: Vec<Order>)
        requires
            old(self).wf(),
            times@.len() > 0,
        ensures
            final(self).wf(),
            follows(old(self)@, final(self)@),
            exists|at: Map<Seq<char>, i64>|
                final(self)@ == #[trigger] old(self)@.cleared(symbol@, at) && old(self)@.timed(
                    symbol@,
                    at,
                    times@,
                ),
            final(self)@.lists(
                |key: Seq<char>| old(self)@.open_for(symbol@, key),
                r@,
            ),
    {
        let ghost before = self@;
        let keys = self.orders.keys();
        let mut removed_orders: Vec<Order> = Vec::new();
        let ghost mut told: Seq<Seq<char>> = Seq::empty();
        let ghost mut at: Map<Seq<char>, i64> = Map::empty();
        let mut i: usize = 0;
        while i < keys.len()
            invariant
                i <= keys@.len(),
                times@.len() > 0,
                taken_from(at, times@),
                forall|k: Seq<char>| #[trigger]
                    within(keys@, i as int, k) && before.orders.contains_key(k)
                        && before.orders[k].symbol == symbol@ ==> at.contains_key(k),
                forall|k: Seq<char>| #[trigger] at.contains_key(k) ==> within(keys@, i as int, k),
                before == old(self)@,
                before.valid(),
                self@.prefix == before.prefix,
                forall|a: int, b: int|
                    0 <= a < b < keys@.len() ==> (#[trigger] keys@[a])@ != (#[trigger] keys@[b])@,
                forall|a: int|
                    0 <= a < keys@.len() ==> before.orders.contains_key((#[trigger] keys@[a])@),
                forall|k: Seq<char>| #[trigger]
                    before.orders.contains_key(k) ==> exists|a: int|
                        0 <= a < keys@.len() && (#[trigger] keys@[a])@ == k,
                forall|k: Seq<char>| #[trigger]
                    self@.orders.contains_key(k) <==> before.orders.contains_key(k) && !(within(
                        keys@,
                        i as int,
                        k,
                    ) && before.orders[k].symbol == symbol@ && before.orders[k].removed_by_ws),
                forall|k: Seq<char>| #[trigger]
                    self@.orders.contains_key(k) ==> self@.orders[k] == if within(
                        keys@,
                        i as int,
                        k,
                    ) && before.orders[k].symbol == symbol@ {
                        before.orders[k].after_cancel(at[k])
                    } else {
                        before.orders[k]
                    },
                self@.ids == before.ids.remove_keys(
                    Set::new(
                        |id: (Seq<char>, u64)|
                            exists|k: Seq<char>| #[trigger]
                                within(keys@, i as int, k) && before.open_for(symbol@, k)
                                    && before.orders[k].id() == id,
                    ),
                ),
                told.len() == removed_orders@.len(),
                told.no_duplicates(),
                forall|a: int|
                    0 <= a < told.len() ==> within(keys@, i as int, #[trigger] told[a])
                        && before.open_for(symbol@, told[a]) && self@.orders.contains_key(told[a])
                        && removed_orders@[a] == self@.orders[told[a]].order,
                forall|k: Seq<char>| #[trigger]
                    within(keys@, i as int, k) && before.open_for(symbol@, k) ==> told.contains(k),
            decreases keys.len() - i,
        {
            let ghost here = self@;
            let ghost told_before = told;
            let key = keys[i].as_str();
            proof {
                lemma_within_next(keys@, i as int);
                assert(before.orders.contains_key(key@));
                assert(before.keeps(key@));
                assert(!within(keys@, i as int, key@));
                assert(here.orders.contains_key(key@));
            }
            let mut remove = false;
            if let Some(ext) = self.orders.get_mut(key) {
                if same(ext.symbol.as_str(), symbol) {
                    let already_removed = ext.removed_by_ws || ext.removed_by_rest;
                    ext.removed_by_rest = true;
                    ext.order.status = Status::Canceled;
                    let time = time_at(times, i);
                    ext.order.exch_timestamp = time;
                    proof {
                        lemma_taken(at, times@, key@, i as int);
                        at = at.insert(key@, time);
                    }
                    let order = ext.order;
                    remove = ext.removed_by_ws && ext.removed_by_rest;
                    if !already_removed {
                        self.order_id_map.remove(symbol, order.order_id);
                        removed_orders.push(order);
                        proof {
                            told = told.push(key@);
                        }
                    }
                }
            }
            if remove {
                self.orders.remove(key);
            }
            i += 1;
            proof {
                let ids = before.ids.remove_keys(
                    Set::new(
                        |id: (Seq<char>, u64)|
                            exists|k: Seq<char>| #[trigger]
                                within(keys@, i as int, k) && before.open_for(symbol@, k)
                                    && before.orders[k].id() == id,
                    ),
                );
                assert forall|id: (Seq<char>, u64)| self@.ids.contains_key(id)
                    == ids.contains_key(id) by {
                    if before.open_for(symbol@, key@) && before.orders[key@].id() == id {
                        assert(within(keys@, i as int, key@));
                    }
                }
                assert(self@.ids =~= ids);
                assert forall|k: Seq<char>| #[trigger]
                    within(keys@, i as int, k) && before.open_for(symbol@, k) implies told.contains(
                    k,
                ) by {
                    if k == key@ {
                        assert(told.last() == key@);
                    } else {
                        assert(within(keys@, i - 1, k));
                        let a = choose|a: int| 0 <= a < told_before.len() && told_before[a] == k;
                        assert(told[a] == k);
                    }
                }
            }
        }
        proof {
            assert forall|k: Seq<char>| before.orders.contains_key(k) implies within(
                keys@,
                i as int,
                k,
            ) by {}
            let ids = before.ids.remove_keys(Set::new(|id: (Seq<char>, u64)| id.0 == symbol@));
            assert forall|id: (Seq<char>, u64)| self@.ids.contains_key(id) == ids.contains_key(
                id,
            ) by {
                if before.ids.contains_key(id) && id.0 == symbol@ {
                    assert(before.leads(id));
                    assert(within(keys@, i as int, before.ids[id]));
                    assert(before.open_for(symbol@, before.ids[id]));
                }
            }
            assert(self@.ids =~= ids);
            assert(self@.orders =~= before.cleared(symbol@, at).orders);
            lemma_cleared_valid(before, symbol@, at);
            assert(clears_all(before, self@, symbol@, at));
            assert forall|k: Seq<char>| #[trigger]
                before.orders.contains_key(k) && before.orders[k].symbol == symbol@ implies times@.contains(
            at[k]) by {
                assert(within(keys@, i as int, k));
                assert(at.contains_key(k));
            }
            let pick = |key: Seq<char>| before.open_for(symbol@, key);
            assert forall|k: Seq<char>| #[trigger]
                self@.orders.contains_key(k) && pick(k) implies told.contains(k) by {
                assert(within(keys@, i as int, k));
            }
            assert(self@.lists_as(pick, told, removed_orders@));
        }
        removed_orders
    }

    /// The orders that are in the market, of one symbol or of all, in any order.
    pub fn orders(&self, symbol: Option<String>) -> (r: Vec<Order>)
        ensures
            self@.lists(
                |key: Seq<char>|
                    (symbol is Some ==> self@.orders[key].symbol == symbol->0@)
                        && self@.orders[key].order.status.live(),
                r@,
            ),
            self@.lists_market(
                if symbol is Some {
                    Some(symbol->0@)
                } else {
                    None
                },
                r@,
            ),
    {
        let ghost pick = |key: Seq<char>|
            (symbol is Some ==> self@.orders[key].symbol == symbol->0@)
                && self@.orders[key].order.status.live();
        let keys = self.orders.keys();
        let mut out: Vec<Order> = Vec::new();
        let ghost mut told: Seq<Seq<char>> = Seq::empty();
        let mut i: usize = 0;
        while i < keys.len()
            invariant
                i <= keys@.len(),
                pick == (|key: Seq<char>|
                    (symbol is Some ==> self@.orders[key].symbol == symbol->0@)
                        && self@.orders[key].order.status.live()),
                forall|a: int, b: int|
                    0 <= a < b < keys@.len() ==> (#[trigger] keys@[a])@ != (#[trigger] keys@[b])@,
                forall|k: Seq<char>| #[trigger]
                    self@.orders.contains_key(k) ==> exists|a: int|
                        0 <= a < keys@.len() && (#[trigger] keys@[a])@ == k,
                told.len() == out@.len(),
                told.no_duplicates(),
                forall|a: int|
                    0 <= a < told.len() ==> within(keys@, i as int, #[trigger] told[a])
                        && self@.orders.contains_key(told[a]) && pick(told[a])
                        && out@[a] == self@.orders[told[a]].order,
                forall|k: Seq<char>| #[trigger]
                    within(keys@, i as int, k) && self@.orders.contains_key(k) && pick(k)
                        ==> told.contains(k),
            decreases keys.len() - i,
        {
            let ghost told_before = told;
            let key = keys[i].as_str();
            proof {
                lemma_within_next(keys@, i as int);
                assert(!within(keys@, i as int, key@));
            }
            if let Some(ext) = self.orders.get(key) {
                let of_symbol = match &symbol {
                    Some(s) => same(ext.symbol.as_str(), s.as_str()),
                    None => true,
                };
                if of_symbol && ext.order.active() {
                    out.push(ext.order);
                    proof {
                        told = told.push(key@);
                    }
                }
            }
            i += 1;
            proof {
                assert forall|k: Seq<char>| #[trigger]
                    within(keys@, i as int, k) && self@.orders.contains_key(k) && pick(
                        k,
                    ) implies told.contains(k) by {
                    if k == key@ {
                        assert(told.last() == key@);
                    } else {
                        assert(within(keys@, i - 1, k));
                        let a = choose|a: int| 0 <= a < told_before.len() && told_before[a] == k;
                        assert(told[a] == k);
                    }
                }
            }
        }
        proof {
            assert forall|k: Seq<char>| #[trigger]
                self@.orders.contains_key(k) && pick(k) implies told.contains(k) by {
                assert(within(keys@, i as int, k));
            }
            assert(self@.lists_as(pick, told, out@));
            let market = if symbol is Some {
                Some(symbol->0@)
            } else {
                None
            };
            let listed = |key: Seq<char>| self@.in_market(market, key);
            assert forall|n: int| 0 <= n < out@.len() implies self@.orders.contains_key(
                #[trigger] told[n],
            ) && listed(told[n]) && out@[n] == self@.orders[told[n]].order by {
                assert(pick(told[n]));
            }
            assert forall|k: Seq<char>| #[trigger]
                self@.orders.contains_key(k) && listed(k) implies told.contains(k) by {
                assert(pick(k));
            }
            assert(self@.lists_as(listed, told, out@));
        }
        out
    }
}

/// Whether every time is one of the readings.
spec fn taken_from(at: Map<Seq<char>, i64>, times: Seq<i64>) -> bool {
    forall|k: Seq<char>| #[trigger] at.contains_key(k) ==> times.contains(at[k])
}

/// One time more, which is a reading.
proof fn lemma_taken(at: Map<Seq<char>, i64>, times: Seq<i64>, key: Seq<char>, i: int)
    requires
        taken_from(at, times),
        times.len() > 0,
        0 <= i,
    ensures
        taken_from(at.insert(key, reading(times, i)), times),
{
    assert(times.contains(reading(times, i))) by {
        if i < times.len() {
            assert(times[i] == reading(times, i));
        } else {
            assert(times[times.len() - 1] == reading(times, i));
        }
    }
}

/// Whether `k` is among the first `n` keys.
pub open spec fn within(keys: Seq<String>, n: int, k: Seq<char>) -> bool {
    exists|a: int| 0 <= a < n && (#[trigger] keys[a])@ == k
}

/// One key more is among the first `n + 1`.
proof fn lemma_within_next(keys: Seq<String>, n: int)
    requires
        0 <= n < keys.len(),
    ensures
        forall|k: Seq<char>|
            #![trigger within(keys, n + 1, k)]
            #![trigger within(keys, n, k)]
            within(keys, n + 1, k) <==> within(keys, n, k) || k == keys[n]@,
{
    assert forall|k: Seq<char>| #[trigger] within(keys, n + 1, k) <==> within(keys, n, k) || k
        == keys[n]@ by {
        if within(keys, n, k) {
            let a = choose|a: int| 0 <= a < n && (#[trigger] keys[a])@ == k;
            assert(0 <= a < n + 1 && keys[a]@ == k);
        }
        if within(keys, n + 1, k) {
            let a = choose|a: int| 0 <= a < n + 1 && (#[trigger] keys[a])@ == k;
            if a < n {
                assert(within(keys, n, k));
            }
        }
    }
}

/// What a channel tells keeps what holds of every state.
proof fn lemma_settled_valid(b: Book, key: Seq<char>, order: Order, by_ws: bool)
    requires
        b.valid(),
        b.orders.contains_key(key),
        order.order_id == b.orders[key].order.order_id,
        order.wf(),
    ensures
        b.settled(key, order, by_ws).valid(),
{
    let after = b.settled(key, order, by_ws);
    assert(b.keeps(key));
    assert forall|id: (Seq<char>, u64)| #[trigger] after.ids.contains_key(id) implies after.leads(
        id,
    ) by {
        assert(b.ids.contains_key(id));
        assert(b.leads(id));
    }
    assert forall|k: Seq<char>| #[trigger] after.orders.contains_key(k) implies after.keeps(k) by {
        assert(b.orders.contains_key(k));
        assert(b.keeps(k));
    }
}

/// Taking on an order keeps what holds of every state.
proof fn lemma_prepared_valid(b: Book, key: Seq<char>, symbol: Seq<char>, order: Order)
    requires
        b.valid(),
        !b.ids.contains_key((symbol, order.order_id)),
        !b.orders.contains_key(key),
        b.prefix.is_prefix_of(key),
        order.wf(),
    ensures
        b.prepared(key, symbol, order).valid(),
{
    let after = b.prepared(key, symbol, order);
    assert forall|id: (Seq<char>, u64)| #[trigger] after.ids.contains_key(id) implies after.leads(
        id,
    ) by {
        if id != (symbol, order.order_id) {
            assert(b.ids.contains_key(id));
            assert(b.leads(id));
        }
    }
    assert forall|k: Seq<char>| #[trigger] after.orders.contains_key(k) implies after.keeps(k) by {
        if k != key {
            assert(b.orders.contains_key(k));
            assert(b.keeps(k));
        }
    }
}

/// Forgetting orders keeps what holds of every state.
proof fn lemma_collected_valid(b: Book, now: int)
    requires
        b.valid(),
    ensures
        b.collected(now).valid(),
{
    let after = b.collected(now);
    assert forall|id: (Seq<char>, u64)| #[trigger] after.ids.contains_key(id) implies after.leads(
        id,
    ) by {
        assert(b.ids.contains_key(id));
        assert(b.leads(id));
        assert(!b.stale(b.ids[id], now));
    }
    assert forall|key: Seq<char>| #[trigger] after.orders.contains_key(key) implies after.keeps(
        key,
    ) by {
        assert(b.orders.contains_key(key));
        assert(b.keeps(key));
    }
}

/// Canceling all orders of a symbol keeps what holds of every state.
proof fn lemma_cleared_valid(b: Book, symbol: Seq<char>, at: Map<Seq<char>, i64>)
    requires
        b.valid(),
    ensures
        b.cleared(symbol, at).valid(),
{
    let after = b.cleared(symbol, at);
    assert forall|id: (Seq<char>, u64)| #[trigger] after.ids.contains_key(id) implies after.leads(
        id,
    ) by {
        assert(b.ids.contains_key(id));
        assert(b.leads(id));
        assert(after.orders.contains_key(b.ids[id]));
    }
    assert forall|key: Seq<char>| #[trigger] after.orders.contains_key(key) implies after.keeps(
        key,
    ) by {
        assert(b.orders.contains_key(key));
        assert(b.keeps(key));
    }
}

/// Whether the exchange does not know the order that was to be canceled.
pub open spec fn unknown_order(e: BinanceSpotError) -> bool {
    e is OrderError && e->OrderError_code == -2011
}

/// What a failed request does: an order that is not stored stays so; else its state is that after
/// the failure, and a bot is told of it unless a channel had told that it is done.
pub open spec fn failed(
    before: Book,
    key: Seq<char>,
    status: Option<Status>,
    after: Book,
    told: Option<Order>,
) -> bool {
    if before.orders.contains_key(key) {
        let row = before.orders[key];
        let order = order_after_fail(row.order, status);
        &&& after == before.settled(key, order, false)
        &&& told == if row.removed() {
            None
        } else {
            Some(order)
        }
    } else {
        after == before && told is None
    }
}

/// What the answer to a request does: an order that is not stored stays so; else its state is that
/// after the answer.
pub open spec fn answered(
    before: Book,
    key: Seq<char>,
    resp: OrderResponse,
    after: Book,
    told: Option<Order>,
) -> bool {
    if before.orders.contains_key(key) {
        let row = before.orders[key];
        let order = order_after_rest(row.order, resp);
        &&& after == before.settled(key, order, false)
        &&& told == row.told(order)
    } else {
        after == before && told is None
    }
}

/// The quantity filled never shrinks, and whatever a channel knows to be filled is never lost,
/// however old its message is.
pub proof fn law_fills_never_shrink(
    o: Order,
    report: ExecutionReport,
    resp: OrderResponse,
    status: Option<Status>,
    time: i64,
)
    requires
        o.wf(),
        report.wf(),
        resp.wf(),
    ensures
        order_after_ws(o, report).filled() >= o.filled(),
        order_after_ws(o, report).filled() + 1 >= report.order_filled_accumulated_quantity,
        order_after_rest(o, resp).filled() >= o.filled(),
        order_after_rest(o, resp).filled() + 1 >= resp.executed_qty,
        order_after_fail(o, status).filled() == o.filled(),
        order_after_cancel(o, time).filled() == o.filled(),
{
}

/// A fill that arrives late is told, even after a channel has told that the order is done.
pub proof fn law_late_fill_is_told(row: Row, report: ExecutionReport, resp: OrderResponse)
    requires
        row.order.wf(),
        report.wf(),
        resp.wf(),
    ensures
        ({
            let order = order_after_ws(row.order, report);
            fills_more(row.order, report.order_filled_accumulated_quantity as int) ==> row.told(
                order,
            ) == Some(order) && order.filled() == report.order_filled_accumulated_quantity
        }),
        ({
            let order = order_after_rest(row.order, resp);
            fills_more(row.order, resp.executed_qty as int) ==> row.told(order) == Some(order)
                && order.filled() == resp.executed_qty
        }),
{
}

/// The time of an order never goes back, and an older message changes nothing but the fill.
pub proof fn law_time_never_goes_back(o: Order, report: ExecutionReport, resp: OrderResponse)
    requires
        report.wf(),
        resp.wf(),
    ensures
        order_after_ws(o, report).exch_timestamp >= o.exch_timestamp,
        order_after_rest(o, resp).exch_timestamp >= o.exch_timestamp,
        report.event_time * 1_000_000 < o.exch_timestamp ==> order_after_ws(o, report).status
            == o.status,
        resp.transact_time * 1_000_000 < o.exch_timestamp ==> order_after_rest(o, resp).status
            == o.status,
{
}

/// Whether a fill made or took liquidity is learned from reports that fill more, and from nothing
/// else.
pub proof fn law_maker_is_learned_from_fills(
    o: Order,
    report: ExecutionReport,
    resp: OrderResponse,
    status: Option<Status>,
    time: i64,
)
    ensures
        order_after_ws(o, report).maker == if fills_more(
            o,
            report.order_filled_accumulated_quantity as int,
        ) {
            report.is_maker
        } else {
            o.maker
        },
        order_after_rest(o, resp).maker == o.maker,
        order_after_fail(o, status).maker == o.maker,
        order_after_cancel(o, time).maker == o.maker,
{
}

/// A channel makes an order be forgotten only where the order is done and the other channel had
/// told so before.
pub proof fn law_forgotten_after_both_channels(b: Book, key: Seq<char>, order: Order, by_ws: bool)
    requires
        b.valid(),
        b.orders.contains_key(key),
    ensures
        !b.settled(key, order, by_ws).orders.contains_key(key) <==> {
            &&& !order.status.live()
            &&& if by_ws {
                b.orders[key].removed_by_rest
            } else {
                b.orders[key].removed_by_ws
            }
        },
{
    assert(b.keeps(key));
}

/// What a channel tells of one order leaves the other orders as they are.
pub proof fn law_other_orders_stay(b: Book, key: Seq<char>, order: Order, by_ws: bool, other: Seq<char>)
    requires
        b.orders.contains_key(key),
        other != key,
    ensures
        b.settled(key, order, by_ws).orders.contains_key(other) == b.orders.contains_key(other),
        b.orders.contains_key(other) ==> b.settled(key, order, by_ws).orders[other]
            == b.orders[other],
        b.settled(key, order, by_ws).prefix == b.prefix,
{
}

/// A report that comes again changes nothing. Where the order was done after the first, nothing is
/// told again either.
pub proof fn law_repeated_report_changes_nothing(b: Book, key: Seq<char>, report: ExecutionReport)
    requires
        b.valid(),
        b.orders.contains_key(key),
        report.wf(),
    ensures
        ({
            let order = order_after_ws(b.orders[key].order, report);
            let once = b.settled(key, order, true);
            once.orders.contains_key(key) ==> {
                let again = order_after_ws(once.orders[key].order, report);
                &&& once.settled(key, again, true) == once
                &&& !order.status.live() ==> once.orders[key].told(again) is None
            }
        }),
{
    assert(b.keeps(key));
    let order = order_after_ws(b.orders[key].order, report);
    let once = b.settled(key, order, true);
    if once.orders.contains_key(key) {
        let again = order_after_ws(once.orders[key].order, report);
        assert(again == order);
        assert(once.settled(key, again, true).orders =~= once.orders);
        assert(once.settled(key, again, true).ids =~= once.ids);
    }
}

/// An order that was taken on is found by its identifier.
pub proof fn law_prepared_order_is_found(b: Book, key: Seq<char>, symbol: Seq<char>, order: Order)
    ensures
        ({
            let after = b.prepared(key, symbol, order);
            let id = (symbol, order.order_id);
            &&& after.ids.contains_key(id)
            &&& after.ids[id] == key
            &&& after.leads(id)
            &&& after.orders[key].order == order
        }),
{
}

/// Taking on an order that is not in use keeps every open order reachable.
pub proof fn law_prepare_keeps_reachable(b: Book, key: Seq<char>, symbol: Seq<char>, order: Order)
    requires
        b.valid(),
        b.reachable(),
        !b.ids.contains_key((symbol, order.order_id)),
        !b.orders.contains_key(key),
    ensures
        b.prepared(key, symbol, order).reachable(),
{
    let after = b.prepared(key, symbol, order);
    assert forall|k: Seq<char>| #[trigger]
        after.orders.contains_key(k) && !after.orders[k].removed() implies after.ids.contains_key(
        after.orders[k].id(),
    ) && after.ids[after.orders[k].id()] == k by {
        if k != key {
            assert(b.orders.contains_key(k));
        }
    }
}

/// What a channel tells keeps every open order reachable, and an order that is done is no longer
/// found.
pub proof fn law_settling_keeps_reachable(b: Book, key: Seq<char>, order: Order, by_ws: bool)
    requires
        b.valid(),
        b.reachable(),
        b.orders.contains_key(key),
        order.order_id == b.orders[key].order.order_id,
    ensures
        b.settled(key, order, by_ws).reachable(),
        !order.status.live() ==> {
            let after = b.settled(key, order, by_ws);
            forall|id: (Seq<char>, u64)| #[trigger]
                after.ids.contains_key(id) ==> after.ids[id] != key
        },
{
    let after = b.settled(key, order, by_ws);
    assert forall|k: Seq<char>| #[trigger]
        after.orders.contains_key(k) && !after.orders[k].removed() implies after.ids.contains_key(
        after.orders[k].id(),
    ) && after.ids[after.orders[k].id()] == k by {
        assert(b.orders.contains_key(k));
        assert(!b.orders[k].removed());
        if !b.orders[key].removed() && k != key {
            assert(b.ids[b.orders[key].id()] == key);
            assert(b.ids[b.orders[k].id()] == k);
        }
    }
    assert forall|id: (Seq<char>, u64)| #[trigger]
        after.ids.contains_key(id) && !order.status.live() implies after.ids[id] != key by {
        assert(b.ids.contains_key(id));
        assert(b.leads(id));
    }
}

/// Canceling all orders of a symbol keeps every open order reachable, and leaves no open order of
/// the symbol.
pub proof fn law_cancel_all_keeps_reachable(
    b: Book,
    symbol: Seq<char>,
    at: Map<Seq<char>, i64>,
)
    requires
        b.valid(),
        b.reachable(),
    ensures
        b.cleared(symbol, at).reachable(),
        forall|key: Seq<char>| !#[trigger] b.cleared(symbol, at).open_for(symbol, key),
        forall|id: (Seq<char>, u64)| #[trigger]
            b.cleared(symbol, at).ids.contains_key(id) ==> id.0 != symbol,
{
    let after = b.cleared(symbol, at);
    assert forall|k: Seq<char>| #[trigger]
        after.orders.contains_key(k) && !after.orders[k].removed() implies after.ids.contains_key(
        after.orders[k].id(),
    ) && after.ids[after.orders[k].id()] == k by {
        assert(b.orders.contains_key(k));
        assert(b.orders[k].symbol != symbol);
        assert(after.orders[k] == b.orders[k]);
    }
    assert forall|key: Seq<char>| !#[trigger] after.open_for(symbol, key) by {
        if after.orders.contains_key(key) {
            assert(b.orders.contains_key(key));
        }
    }
}

/// Forgetting orders keeps every open order reachable.
pub proof fn law_gc_keeps_reachable(b: Book, now: int)
    requires
        b.valid(),
        b.reachable(),
    ensures
        b.collected(now).reachable(),
{
    let after = b.collected(now);
    assert forall|k: Seq<char>| #[trigger]
        after.orders.contains_key(k) && !after.orders[k].removed() implies after.ids.contains_key(
        after.orders[k].id(),
    ) && after.ids[after.orders[k].id()] == k by {
        assert(b.orders.contains_key(k));
        assert(!b.stale(k, now));
    }
}

/// Forgetting orders touches no order that is in the market and none that no channel has told to be
/// done, leaves none that is done for long, and leaves what is found by an identifier as it is.
pub proof fn law_gc_forgets_only_stale_orders(b: Book, now: int, key: Seq<char>)
    requires
        b.orders.contains_key(key),
    ensures
        b.collected(now).orders.contains_key(key) <==> !b.orders[key].stale(now),
        b.orders[key].order.status.live() || !b.orders[key].removed() ==> {
            &&& b.collected(now).orders.contains_key(key)
            &&& b.collected(now).orders[key] == b.orders[key]
        },
        b.collected(now).ids == b.ids,
{
    assert(b.stale(key, now) == b.orders[key].stale(now));
}

/// No two open orders have the same symbol and identifier.
pub proof fn law_open_orders_are_unique(b: Book, key: Seq<char>, other: Seq<char>)
    requires
        b.valid(),
        b.reachable(),
        b.orders.contains_key(key),
        b.orders.contains_key(other),
        !b.orders[key].removed(),
        !b.orders[other].removed(),
        b.orders[key].id() == b.orders[other].id(),
    ensures
        key == other,
{
}

/// An order was taken on.
pub open spec fn took_on(
    a: Book,
    b: Book,
    key: Seq<char>,
    symbol: Seq<char>,
    order: Order,
) -> bool {
    &&& a.prefix.is_prefix_of(key)
    &&& order.wf()
    &&& !a.ids.contains_key((symbol, order.order_id))
    &&& !a.orders.contains_key(key)
    &&& b == a.prepared(key, symbol, order)
}

/// The user-data stream told of an order.
pub open spec fn heard(a: Book, b: Book, key: Seq<char>, report: ExecutionReport) -> bool {
    &&& report.wf()
    &&& a.orders.contains_key(key)
    &&& b == a.settled(key, order_after_ws(a.orders[key].order, report), true)
}

/// A request for an order was answered.
pub open spec fn responded(a: Book, b: Book, key: Seq<char>, resp: OrderResponse) -> bool {
    &&& resp.wf()
    &&& a.orders.contains_key(key)
    &&& b == a.settled(key, order_after_rest(a.orders[key].order, resp), false)
}

/// A request for an order failed.
pub open spec fn gave_up(a: Book, b: Book, key: Seq<char>, status: Option<Status>) -> bool {
    &&& a.orders.contains_key(key)
    &&& b == a.settled(key, order_after_fail(a.orders[key].order, status), false)
}

/// All orders of a symbol were canceled.
pub open spec fn clears_all(
    a: Book,
    b: Book,
    symbol: Seq<char>,
    at: Map<Seq<char>, i64>,
) -> bool {
    b == a.cleared(symbol, at)
}

/// The orders that are done for long were forgotten.
pub open spec fn collects(a: Book, b: Book, now: int) -> bool {
    b == a.collected(now)
}

/// Whether a state follows another by one of the operations.
pub open spec fn follows(a: Book, b: Book) -> bool {
    ||| a == b
    ||| exists|key: Seq<char>, symbol: Seq<char>, order: Order| took_on(a, b, key, symbol, order)
    ||| exists|key: Seq<char>, report: ExecutionReport| heard(a, b, key, report)
    ||| exists|key: Seq<char>, resp: OrderResponse| responded(a, b, key, resp)
    ||| exists|key: Seq<char>, status: Option<Status>| gave_up(a, b, key, status)
    ||| exists|symbol: Seq<char>, at: Map<Seq<char>, i64>| clears_all(a, b, symbol, at)
    ||| exists|now: int| collects(a, b, now)
}

/// Whether an order of a state is, in a later one, the same order with no less filled, and done if
/// it was done.
pub open spec fn carries_on(a: Book, b: Book, key: Seq<char>) -> bool {
    a.orders.contains_key(key) && b.orders.contains_key(key) ==> {
        &&& b.orders[key].id() == a.orders[key].id()
        &&& b.orders[key].order.filled() >= a.orders[key].order.filled()
        &&& a.orders[key].removed() ==> b.orders[key].removed()
    }
}

/// Every operation keeps what holds of every state and every open order reachable, and every order
/// stays itself, keeps what is filled, and never comes back once it is done.
pub proof fn law_every_operation_keeps_the_orders(a: Book, b: Book, key: Seq<char>)
    requires
        a.valid(),
        a.reachable(),
        follows(a, b),
    ensures
        b.valid(),
        b.reachable(),
        b.prefix == a.prefix,
        carries_on(a, b, key),
{
    if a == b {
    } else if exists|k: Seq<char>, symbol: Seq<char>, order: Order|
        took_on(a, b, k, symbol, order) {
        let (k, symbol, order) = choose|k: Seq<char>, symbol: Seq<char>, order: Order|
            took_on(a, b, k, symbol, order);
        lemma_prepared_valid(a, k, symbol, order);
        law_prepare_keeps_reachable(a, k, symbol, order);
    } else if exists|k: Seq<char>, report: ExecutionReport| heard(a, b, k, report) {
        let (k, report) = choose|k: Seq<char>, report: ExecutionReport| heard(a, b, k, report);
        let order = order_after_ws(a.orders[k].order, report);
        assert(a.keeps(k));
        lemma_settled_valid(a, k, order, true);
        law_settling_keeps_reachable(a, k, order, true);
    } else if exists|k: Seq<char>, resp: OrderResponse| responded(a, b, k, resp) {
        let (k, resp) = choose|k: Seq<char>, resp: OrderResponse| responded(a, b, k, resp);
        let order = order_after_rest(a.orders[k].order, resp);
        assert(a.keeps(k));
        lemma_settled_valid(a, k, order, false);
        law_settling_keeps_reachable(a, k, order, false);
    } else if exists|k: Seq<char>, status: Option<Status>| gave_up(a, b, k, status) {
        let (k, status) = choose|k: Seq<char>, status: Option<Status>| gave_up(a, b, k, status);
        let order = order_after_fail(a.orders[k].order, status);
        assert(a.keeps(k));
        lemma_settled_valid(a, k, order, false);
        law_settling_keeps_reachable(a, k, order, false);
    } else if exists|symbol: Seq<char>, at: Map<Seq<char>, i64>| clears_all(a, b, symbol, at) {
        let (symbol, at) = choose|symbol: Seq<char>, at: Map<Seq<char>, i64>|
            clears_all(a, b, symbol, at);
        lemma_cleared_valid(a, symbol, at);
        law_cancel_all_keeps_reachable(a, symbol, at);
    } else {
        let now = choose|now: int| collects(a, b, now);
        lemma_collected_valid(a, now);
        law_gc_keeps_reachable(a, now);
    }
}

/// Whatever is done, one operation after the other, every open order stays reachable, and an order
/// that is stored throughout stays itself, keeps what is filled, and never comes back once it is
/// done.
pub proof fn law_every_history_keeps_the_orders(states: Seq<Book>, key: Seq<char>)
    requires
        states.len() > 0,
        states[0].valid(),
        states[0].reachable(),
        forall|i: int| 0 <= i < states.len() - 1 ==> follows(#[trigger] states[i], states[i + 1]),
        forall|i: int| 0 <= i < states.len() ==> (#[trigger] states[i]).orders.contains_key(key),
    ensures
        states.last().valid(),
        states.last().reachable(),
        carries_on(states[0], states.last(), key),
    decreases states.len(),
{
    if states.len() > 1 {
        let before = states.drop_last();
        assert forall|i: int| 0 <= i < before.len() - 1 implies follows(
            #[trigger] before[i],
            before[i + 1],
        ) by {
            assert(follows(states[i], states[i + 1]));
        }
        assert forall|i: int| 0 <= i < before.len() implies (
        #[trigger] before[i]).orders.contains_key(key) by {
            assert(states[i].orders.contains_key(key));
        }
        law_every_history_keeps_the_orders(before, key);
        let n = states.len() - 2;
        assert(follows(states[n], states[n + 1]));
        law_every_operation_keeps_the_orders(before.last(), states.last(), key);
    }
}

/// What a bot asked for stays as it was, whatever the exchange tells: the identifier of the order,
/// its price in ticks, the size of a tick and the time at which the bot made it. A report leaves the
/// request that is under way as it is, too.
pub proof fn law_what_was_asked_for_stays(
    o: Order,
    report: ExecutionReport,
    resp: OrderResponse,
    status: Option<Status>,
    time: i64,
    after: Order,
)
    requires
        after == order_after_ws(o, report) || after == order_after_rest(o, resp) || after
            == order_after_fail(o, status) || after == order_after_cancel(o, time),
    ensures
        after.order_id == o.order_id,
        after.price_tick == o.price_tick,
        after.tick_size == o.tick_size,
        after.local_timestamp == o.local_timestamp,
        after == order_after_ws(o, report) ==> after.req == o.req,
        after == order_after_cancel(o, time) ==> after.req == o.req,
{
}

/// A report that is not older than what is known is what the order then shows: its time, its
/// status, its side, its type and its time in force, and as what was executed the last fill alone,
/// at the price of that fill. A report that is older changes none of these.
pub proof fn law_report_shows_the_last_fill(o: Order, r: ExecutionReport)
    requires
        r.wf(),
    ensures
        ({
            let after = order_after_ws(o, r);
            r.event_time * 1_000_000 >= o.exch_timestamp ==> {
                &&& after.exec_qty == r.order_last_filled_quantity
                &&& after.exch_timestamp == r.event_time * 1_000_000
                &&& after.status == r.order_status
                &&& after.side == r.side
                &&& after.order_type == r.order_type
                &&& after.time_in_force == r.time_in_force
            }
        }),
        ({
            let after = order_after_ws(o, r);
            r.event_time * 1_000_000 < o.exch_timestamp ==> {
                &&& after.exec_qty == o.exec_qty
                &&& after.exec_price_tick == o.exec_price_tick
                &&& after.exch_timestamp == o.exch_timestamp
                &&& after.status == o.status
                &&& after.side == o.side
                &&& after.order_type == o.order_type
                &&& after.time_in_force == o.time_in_force
            }
        }),
{
}

/// The price of an execution, in ticks of the order, is that of the last fill: a fill at a whole
/// number of ticks is told at that number, and no whole number of ticks that fits is nearer to the
/// price of the fill than the one that is told.
pub proof fn law_fill_is_told_at_its_price(o: Order, r: ExecutionReport, n: i64)
    requires
        r.event_time * 1_000_000 >= o.exch_timestamp,
        o.tick_size != 0,
    ensures
        r.last_filled_price == n * o.tick_size ==> order_after_ws(o, r).exec_price_tick == n,
        ({
            let told = order_after_ws(o, r).exec_price_tick;
            abs(r.last_filled_price - told * o.tick_size) <= abs(
                r.last_filled_price - n * o.tick_size,
            )
        }),
{
    law_ticks_are_nearest(r.last_filled_price as int, o.tick_size as int, n as int);
    if r.last_filled_price == n * o.tick_size {
        law_ticks_of_a_price_are_its_ticks(n, o.tick_size as int);
    }
}

/// A report that knows of more filled sets the quantity of the order and what is left of it: what
/// is left and what is filled make up the quantity of the report, and what is filled is what it
/// accumulated. One that knows of no more leaves the quantities as they are.
pub proof fn law_report_sets_quantity_and_remainder(o: Order, r: ExecutionReport)
    requires
        o.wf(),
        r.wf(),
    ensures
        ({
            let after = order_after_ws(o, r);
            r.order_filled_accumulated_quantity > o.qty - o.leaves_qty + 1 ==> {
                &&& after.qty == r.quantity
                &&& after.leaves_qty + r.order_filled_accumulated_quantity == r.quantity
                &&& after.qty - after.leaves_qty == r.order_filled_accumulated_quantity
                &&& after.maker == r.is_maker
            }
        }),
        ({
            let after = order_after_ws(o, r);
            r.order_filled_accumulated_quantity <= o.qty - o.leaves_qty + 1 ==> {
                &&& after.qty == o.qty
                &&& after.leaves_qty == o.leaves_qty
                &&& after.maker == o.maker
            }
        }),
{
}

/// An answer that knows of more filled sets the quantity of the order and what is left of it: the
/// quantity is the one that was ordered, and what is left is what of it was not executed. One that
/// knows of no more leaves the quantities as they are.
pub proof fn law_answer_sets_quantity_and_remainder(o: Order, r: OrderResponse)
    requires
        o.wf(),
        r.wf(),
    ensures
        ({
            let after = order_after_rest(o, r);
            r.executed_qty > o.qty - o.leaves_qty + 1 ==> {
                &&& after.qty == r.orig_qty
                &&& after.leaves_qty == r.orig_qty - r.executed_qty
                &&& after.qty - after.leaves_qty == r.executed_qty
            }
        }),
        ({
            let after = order_after_rest(o, r);
            r.executed_qty <= o.qty - o.leaves_qty + 1 ==> {
                &&& after.qty == o.qty
                &&& after.leaves_qty == o.leaves_qty
            }
        }),
{
}

/// An answer that is not older than what is known is what the order then shows: its time, its
/// status, its side, its type and its time in force, as what was executed all that was, and that no
/// request is under way. An answer that is older changes none of these. The price and the liquidity
/// of a fill stay as they are either way.
pub proof fn law_answer_shows_what_was_executed(o: Order, r: OrderResponse)
    requires
        r.wf(),
    ensures
        ({
            let after = order_after_rest(o, r);
            r.transact_time * 1_000_000 >= o.exch_timestamp ==> {
                &&& after.exec_qty == r.executed_qty
                &&& after.exch_timestamp == r.transact_time * 1_000_000
                &&& after.status == r.status
                &&& after.side == r.side
                &&& after.order_type == r.order_type
                &&& after.time_in_force == r.time_in_force
                &&& after.req is Unset
            }
        }),
        ({
            let after = order_after_rest(o, r);
            r.transact_time * 1_000_000 < o.exch_timestamp ==> {
                &&& after.exec_qty == o.exec_qty
                &&& after.exch_timestamp == o.exch_timestamp
                &&& after.status == o.status
                &&& after.side == o.side
                &&& after.order_type == o.order_type
                &&& after.time_in_force == o.time_in_force
                &&& after.req == o.req
            }
        }),
        order_after_rest(o, r).exec_price_tick == o.exec_price_tick,
        order_after_rest(o, r).maker == o.maker,
{
}

/// The channels agree: a report and an answer that tell the same of an order leave it with the same
/// quantity, the same remainder, the same status, time, side, type and time in force, and in either
/// order both leave it as filled as the one of them that knows of more.
pub proof fn law_channels_agree(o: Order, report: ExecutionReport, resp: OrderResponse)
    requires
        o.wf(),
        report.wf(),
        resp.wf(),
        report.event_time == resp.transact_time,
        report.order_status == resp.status,
        report.side == resp.side,
        report.order_type == resp.order_type,
        report.time_in_force == resp.time_in_force,
        report.quantity == resp.orig_qty,
        report.order_filled_accumulated_quantity == resp.executed_qty,
    ensures
        ({
            let a = order_after_ws(o, report);
            let b = order_after_rest(o, resp);
            &&& a.qty == b.qty
            &&& a.leaves_qty == b.leaves_qty
            &&& a.status == b.status
            &&& a.exch_timestamp == b.exch_timestamp
            &&& a.side == b.side
            &&& a.order_type == b.order_type
            &&& a.time_in_force == b.time_in_force
        }),
        ({
            let a = order_after_rest(order_after_ws(o, report), resp);
            let b = order_after_ws(order_after_rest(o, resp), report);
            a.qty == b.qty && a.leaves_qty == b.leaves_qty && a.status == b.status
        }),
{
}

/// The order after reports of the user-data stream, one after the other.
pub open spec fn order_after_reports(o: Order, reports: Seq<ExecutionReport>) -> Order
    decreases reports.len(),
{
    if reports.len() == 0 {
        o
    } else {
        order_after_ws(order_after_reports(o, reports.drop_last()), reports.last())
    }
}

/// The sum of the quantities that are told as executed, one report after the other.
pub open spec fn executions_told(o: Order, reports: Seq<ExecutionReport>) -> int
    decreases reports.len(),
{
    if reports.len() == 0 {
        0
    } else {
        executions_told(o, reports.drop_last()) + order_after_reports(o, reports).exec_qty
    }
}

/// Whether the report at `i` is the next fill of an order: it is not older than the one before, and
/// it adds its own fill to what was filled before.
pub open spec fn fills_next(o: Order, reports: Seq<ExecutionReport>, i: int) -> bool {
    let r = reports[i];
    &&& r.wf()
    &&& r.order_last_filled_quantity > 1
    &&& r.order_filled_accumulated_quantity - r.order_last_filled_quantity == if i == 0 {
        o.qty - o.leaves_qty
    } else {
        reports[i - 1].order_filled_accumulated_quantity as int
    }
    &&& r.event_time * 1_000_000 >= if i == 0 {
        o.exch_timestamp as int
    } else {
        reports[i - 1].event_time * 1_000_000
    }
}

/// Whether reports are the fills of an order in their order.
pub open spec fn fills_in_order(o: Order, reports: Seq<ExecutionReport>) -> bool {
    forall|i: int| 0 <= i < reports.len() ==> #[trigger] fills_next(o, reports, i)
}

/// Over fills that come in their order, the executed quantities that are told add up to what the
/// order got filled, and the order knows what the last report accumulated.
pub proof fn law_executions_add_up_to_the_fill(o: Order, reports: Seq<ExecutionReport>)
    requires
        o.wf(),
        fills_in_order(o, reports),
    ensures
        ({
            let after = order_after_reports(o, reports);
            &&& executions_told(o, reports) == (after.qty - after.leaves_qty) - (o.qty
                - o.leaves_qty)
            &&& reports.len() > 0 ==> after.qty - after.leaves_qty
                == reports.last().order_filled_accumulated_quantity
            &&& reports.len() > 0 ==> after.exch_timestamp == reports.last().event_time * 1_000_000
        }),
    decreases reports.len(),
{
    if reports.len() > 0 {
        let before = reports.drop_last();
        assert forall|i: int| 0 <= i < before.len() implies #[trigger] fills_next(
            o,
            before,
            i,
        ) by {
            assert(fills_next(o, reports, i));
        }
        law_executions_add_up_to_the_fill(o, before);
        let n = reports.len() - 1;
        assert(fills_next(o, reports, n));
        let earlier = order_after_reports(o, before);
        law_report_shows_the_last_fill(earlier, reports[n]);
        assert(earlier.qty - earlier.leaves_qty + reports[n].order_last_filled_quantity
            == reports[n].order_filled_accumulated_quantity);
    }
}

/// A request that failed changes nothing but the request and, where a status is given, the status:
/// no request is under way then.
pub proof fn law_failure_changes_status_only(o: Order, status: Option<Status>)
    ensures
        ({
            let after = order_after_fail(o, status);
            &&& after.req is Unset
            &&& status is Some ==> after.status == status->0
            &&& status is None ==> after.status == o.status
            &&& after.qty == o.qty
            &&& after.leaves_qty == o.leaves_qty
            &&& after.exec_qty == o.exec_qty
            &&& after.exec_price_tick == o.exec_price_tick
            &&& after.exch_timestamp == o.exch_timestamp
            &&& after.side == o.side
            &&& after.order_type == o.order_type
            &&& after.time_in_force == o.time_in_force
        }),
{
}

/// An order that was canceled with all of its symbol is canceled at that time; its quantities and
/// its terms stay.
pub proof fn law_canceled_order_keeps_its_terms(o: Order, time: i64)
    ensures
        ({
            let after = order_after_cancel(o, time);
            &&& after.status is Canceled
            &&& after.exch_timestamp == time
            &&& after.qty == o.qty
            &&& after.leaves_qty == o.leaves_qty
            &&& after.exec_qty == o.exec_qty
            &&& after.exec_price_tick == o.exec_price_tick
            &&& after.side == o.side
            &&& after.order_type == o.order_type
            &&& after.time_in_force == o.time_in_force
        }),
{
}

/// A bot is told of every change of an order that no channel has told to be done, as the order then
/// is. Of one that is done it is told only where more has been filled than before.
pub proof fn law_done_orders_are_told_of_fills_only(row: Row, order: Order)
    ensures
        !row.removed_by_ws && !row.removed_by_rest ==> row.told(order) == Some(order),
        row.removed_by_ws || row.removed_by_rest ==> row.told(order) == if order.qty
            - order.leaves_qty > row.order.qty - row.order.leaves_qty + 1 {
            Some(order)
        } else {
            None
        },
{
}

/// What a channel tells of an order is what is stored of it. A channel that tells that the order is
/// done is noted as having told so, and the other channel is not; an order that is in the market
/// changes neither note. The identifier leads to the order as long as no channel has told that it is
/// done, and to no other order otherwise.
pub proof fn law_settling_notes_the_channel(b: Book, key: Seq<char>, order: Order, by_ws: bool)
    requires
        b.valid(),
        b.orders.contains_key(key),
        order.order_id == b.orders[key].order.order_id,
    ensures
        ({
            let row = b.orders[key];
            let after = b.settled(key, order, by_ws);
            let next = after.orders[key];
            let live = order.status is New || order.status is PartiallyFilled;
            &&& after.orders.contains_key(key) ==> {
                &&& next.order == order
                &&& next.symbol == row.symbol
                &&& next.removed_by_ws == (row.removed_by_ws || (by_ws && !live))
                &&& next.removed_by_rest == (row.removed_by_rest || (!by_ws && !live))
            }
            &&& after.orders.contains_key(key) <==> live || !(if by_ws {
                row.removed_by_rest
            } else {
                row.removed_by_ws
            })
        }),
        ({
            let row = b.orders[key];
            let id = (row.symbol, order.order_id);
            let after = b.settled(key, order, by_ws);
            let live = order.status is New || order.status is PartiallyFilled;
            &&& !row.removed_by_ws && !row.removed_by_rest && b.ids.contains_key(id) ==> (
            after.ids.contains_key(id) <==> live)
            &&& row.removed_by_ws || row.removed_by_rest ==> after.ids == b.ids
            &&& forall|other: (Seq<char>, u64)|
                other != id ==> (#[trigger] after.ids.contains_key(other)
                    == b.ids.contains_key(other)) && (b.ids.contains_key(other)
                    ==> after.ids[other] == b.ids[other])
        }),
{
    assert(b.keeps(key));
}

/// An order that was taken on is stored as it is under its client order identifier, with its symbol,
/// and no channel has told that it is done. Every other order and identifier stays.
pub proof fn law_prepared_order_is_open(
    b: Book,
    key: Seq<char>,
    symbol: Seq<char>,
    order: Order,
    other: Seq<char>,
    id: (Seq<char>, u64),
)
    requires
        other != key,
        id != (symbol, order.order_id),
    ensures
        ({
            let after = b.prepared(key, symbol, order);
            let row = after.orders[key];
            &&& after.orders.contains_key(key)
            &&& row.order == order
            &&& row.symbol == symbol
            &&& !row.removed_by_ws
            &&& !row.removed_by_rest
            &&& after.orders.contains_key(other) == b.orders.contains_key(other)
            &&& b.orders.contains_key(other) ==> after.orders[other] == b.orders[other]
            &&& after.ids.contains_key(id) == b.ids.contains_key(id)
            &&& b.ids.contains_key(id) ==> after.ids[id] == b.ids[id]
            &&& after.prefix == b.prefix
        }),
{
}

/// An order can be taken on where neither its identifier leads to an order nor its client order
/// identifier is stored; once taken on, neither can be taken on again.
pub proof fn law_identifiers_are_used_once(
    b: Book,
    symbol: Seq<char>,
    order: Order,
    suffix: Seq<char>,
    other: Seq<char>,
)
    ensures
        b.in_use(symbol, order.order_id, suffix) <==> b.ids.contains_key((symbol, order.order_id))
            || b.orders.contains_key(b.prefix + suffix),
        ({
            let after = b.prepared(b.prefix + suffix, symbol, order);
            &&& after.in_use(symbol, order.order_id, other)
            &&& after.in_use(other, order.order_id, suffix)
        }),
{
}

/// An order is forgotten after a while exactly where a channel has told that it is done, its status
/// is one of an order that is done, and five minutes and more have gone since its time. Every other
/// order stays as it is.
pub proof fn law_gc_waits_five_minutes(b: Book, now: int, key: Seq<char>)
    requires
        b.orders.contains_key(key),
    ensures
        !b.collected(now).orders.contains_key(key) <==> {
            let row = b.orders[key];
            let s = row.order.status;
            &&& row.removed_by_ws || row.removed_by_rest
            &&& s is Unset || s is Expired || s is Filled || s is Canceled || s is Rejected
                || s is Replaced
            &&& now - row.order.exch_timestamp > 300_000_000_000
        },
        b.collected(now).orders.contains_key(key) ==> b.collected(now).orders[key]
            == b.orders[key],
        b.collected(now).prefix == b.prefix,
{
    assert(b.stale(key, now) == b.orders[key].stale(now));
}

/// Forgetting orders at two times is forgetting them at the later one, and brings no order in.
pub proof fn law_gc_goes_by_the_later_time(b: Book, first: int, second: int)
    requires
        first <= second,
    ensures
        b.collected(first).collected(second) == b.collected(second),
        b.collected(first).orders.submap_of(b.orders),
{
    let after = b.collected(first).collected(second);
    assert forall|key: Seq<char>| after.orders.contains_key(key) == b.collected(
        second,
    ).orders.contains_key(key) by {
        if b.orders.contains_key(key) {
            law_gc_waits_five_minutes(b, first, key);
            law_gc_waits_five_minutes(b, second, key);
            if b.collected(first).orders.contains_key(key) {
                law_gc_waits_five_minutes(b.collected(first), second, key);
            }
        }
    }
    assert(after.orders =~= b.collected(second).orders);
}

/// Canceling all orders of a symbol leaves every order of another symbol, and what leads to it, as
/// it is. An order of the symbol is forgotten where the user-data stream had told that it is done;
/// else it is canceled at its own time, noted as done by the answer, and no longer found by its
/// identifier.
pub proof fn law_cancel_all_is_for_one_symbol(
    b: Book,
    symbol: Seq<char>,
    at: Map<Seq<char>, i64>,
    key: Seq<char>,
    id: (Seq<char>, u64),
)
    ensures
        ({
            let after = b.cleared(symbol, at);
            let row = b.orders[key];
            let next = after.orders[key];
            &&& after.prefix == b.prefix
            &&& after.orders.contains_key(key) <==> b.orders.contains_key(key) && !(row.symbol
                == symbol && row.removed_by_ws)
            &&& b.orders.contains_key(key) && row.symbol != symbol ==> next == row
            &&& b.orders.contains_key(key) && row.symbol == symbol && !row.removed_by_ws ==> {
                &&& next.symbol == symbol
                &&& next.removed_by_rest
                &&& !next.removed_by_ws
                &&& next.order.status is Canceled
                &&& next.order.exch_timestamp == at[key]
                &&& next.order.qty == row.order.qty
                &&& next.order.leaves_qty == row.order.leaves_qty
                &&& next.order.order_id == row.order.order_id
            }
            &&& after.ids.contains_key(id) <==> b.ids.contains_key(id) && id.0 != symbol
            &&& b.ids.contains_key(id) && id.0 != symbol ==> after.ids[id] == b.ids[id]
        }),
{
}

/// An order of a symbol is open as long as it is stored and neither channel has told that it is
/// done.
pub proof fn law_open_until_a_channel_tells(b: Book, symbol: Seq<char>, key: Seq<char>)
    ensures
        b.open_for(symbol, key) <==> b.orders.contains_key(key) && b.orders[key].symbol == symbol
            && !b.orders[key].removed_by_ws && !b.orders[key].removed_by_rest,
{
}

/// A list of orders holds, for every order that it is to hold, that order once, and no others.
pub proof fn law_lists_hold_every_order_once(
    b: Book,
    pick: spec_fn(Seq<char>) -> bool,
    out: Seq<Order>,
    key: Seq<char>,
)
    requires
        b.lists(pick, out),
    ensures
        b.orders.contains_key(key) && pick(key) ==> out.contains(b.orders[key].order),
        forall|i: int|
            0 <= i < out.len() ==> exists|k: Seq<char>|
                #![trigger b.orders[k]]
                b.orders.contains_key(k) && pick(k) && b.orders[k].order == #[trigger] out[i],
        exists|keys: Seq<Seq<char>>|
            keys.len() == out.len() && keys.no_duplicates() && forall|k: Seq<char>| #[trigger]
                keys.contains(k) <==> b.orders.contains_key(k) && pick(k),
{
    let keys = choose|keys: Seq<Seq<char>>| #[trigger] b.lists_as(pick, keys, out);
    if b.orders.contains_key(key) && pick(key) {
        assert(keys.contains(key));
        let i = choose|i: int| 0 <= i < keys.len() && keys[i] == key;
        assert(out[i] == b.orders[key].order);
    }
    assert forall|i: int| 0 <= i < out.len() implies exists|k: Seq<char>|
        #![trigger b.orders[k]]
        b.orders.contains_key(k) && pick(k) && b.orders[k].order == #[trigger] out[i] by {
        let k = keys[i];
        assert(b.orders[k].order == out[i]);
    }
    assert forall|k: Seq<char>| #[trigger] keys.contains(k) <==> b.orders.contains_key(k)
        && pick(k) by {
        if keys.contains(k) {
            let i = choose|i: int| 0 <= i < keys.len() && keys[i] == k;
            assert(b.orders.contains_key(keys[i]));
        }
    }
}

/// An answer to a request, and the failure of one, touch the order of the request alone: one that is
/// not stored is not made, and a bot is then told nothing. A failure tells a bot of the order with no
/// request under way, unless a channel had told that it is done.
pub proof fn law_requests_touch_their_order_only(
    before: Book,
    key: Seq<char>,
    resp: OrderResponse,
    status: Option<Status>,
    after: Book,
    told: Option<Order>,
    other: Seq<char>,
)
    requires
        answered(before, key, resp, after, told) || failed(before, key, status, after, told),
    ensures
        !before.orders.contains_key(key) ==> after == before && told is None,
        other != key ==> after.orders.contains_key(other) == before.orders.contains_key(other),
        other != key && before.orders.contains_key(other) ==> after.orders[other]
            == before.orders[other],
        told is Some ==> before.orders.contains_key(key),
        told is Some && after.orders.contains_key(key) ==> after.orders[key].order == told->0,
        told is Some ==> told->0.order_id == before.orders[key].order.order_id,
        after.prefix == before.prefix,
        failed(before, key, status, after, told) && before.orders.contains_key(key) ==> {
            let row = before.orders[key];
            &&& told is Some <==> !row.removed_by_ws && !row.removed_by_rest
            &&& told is Some ==> told->0.req is Unset && told->0.qty == row.order.qty
                && told->0.leaves_qty == row.order.leaves_qty
            &&& told is Some && status is Some ==> told->0.status == status->0
            &&& told is Some && status is None ==> told->0.status == row.order.status
        },
{
}

/// Only an exchange that refuses an order with the code for unknown orders does not know it.
pub proof fn law_only_one_code_means_unknown(e: BinanceSpotError)
    ensures
        unknown_order(e) <==> (e matches BinanceSpotError::OrderError { code, .. } && code == -2011),
{
}

/// An order that neither channel has told to be done is found by its symbol and identifier.
pub proof fn law_open_orders_are_found(b: Book, key: Seq<char>)
    requires
        b.reachable(),
        b.orders.contains_key(key),
        !b.orders[key].removed_by_ws,
        !b.orders[key].removed_by_rest,
    ensures
        b.ids.contains_key((b.orders[key].symbol, b.orders[key].order.order_id)),
        b.ids[(b.orders[key].symbol, b.orders[key].order.order_id)] == key,
{
}

/// Whatever an identifier leads to is stored under that symbol and identifier, and neither channel
/// has told that it is done; and every stored order has the prefix of the connector and has been told
/// to be done by one channel at most.
pub proof fn law_identifiers_lead_to_open_orders(b: Book, id: (Seq<char>, u64), key: Seq<char>)
    requires
        b.valid(),
    ensures
        b.ids.contains_key(id) ==> {
            let row = b.orders[b.ids[id]];
            &&& b.orders.contains_key(b.ids[id])
            &&& row.symbol == id.0
            &&& row.order.order_id == id.1
            &&& !row.removed_by_ws
            &&& !row.removed_by_rest
        },
        b.orders.contains_key(key) ==> {
            &&& b.prefix.is_prefix_of(key)
            &&& !b.orders[key].removed_by_ws || !b.orders[key].removed_by_rest
            &&& b.orders[key].order.wf()
        },
{
    if b.ids.contains_key(id) {
        assert(b.leads(id));
    }
    if b.orders.contains_key(key) {
        assert(b.keeps(key));
    }
}

/// An order that was canceled with all of its symbol gets a time that was read.
pub proof fn law_canceled_orders_have_a_time_that_was_read(
    b: Book,
    symbol: Seq<char>,
    at: Map<Seq<char>, i64>,
    times: Seq<i64>,
    key: Seq<char>,
)
    requires
        b.timed(symbol, at, times),
        b.orders.contains_key(key),
        b.orders[key].symbol == symbol,
        !b.orders[key].removed_by_ws,
    ensures
        times.contains(b.cleared(symbol, at).orders[key].order.exch_timestamp),
{
}

/// The answer to a cancellation, taken as the answer to an order, fills the order as far as the
/// cancellation tells and leaves the rest of what was ordered.
pub proof fn law_cancellation_keeps_what_was_filled(
    o: Order,
    c: CancelOrderResponse,
    r: OrderResponse,
)
    requires
        o.wf(),
        c.wf(),
        r.stands_for(c),
    ensures
        c.executed_qty > o.qty - o.leaves_qty + 1 ==> {
            let after = order_after_rest(o, r);
            &&& after.qty == c.orig_qty
            &&& after.leaves_qty == c.orig_qty - c.executed_qty
        },
        c.transact_time * 1_000_000 >= o.exch_timestamp ==> {
            let after = order_after_rest(o, r);
            &&& after.status == c.status
            &&& after.exch_timestamp == c.transact_time * 1_000_000
            &&& after.exec_qty == c.executed_qty
        },
{
}

/// The orders in the market are those that are new or partly filled, of the symbol where one is
/// given: each of them is listed, and no other order is.
pub proof fn law_market_lists_live_orders(
    b: Book,
    symbol: Option<Seq<char>>,
    out: Seq<Order>,
    key: Seq<char>,
)
    requires
        b.lists_market(symbol, out),
    ensures
        b.in_market(symbol, key) <==> {
            &&& b.orders.contains_key(key)
            &&& symbol is None || b.orders[key].symbol == symbol->0
            &&& b.orders[key].order.status is New || b.orders[key].order.status is PartiallyFilled
        },
        b.in_market(symbol, key) ==> out.contains(b.orders[key].order),
        forall|i: int|
            0 <= i < out.len() ==> (#[trigger] out[i]).status is New
                || out[i].status is PartiallyFilled,
{
    let pick = |key: Seq<char>| b.in_market(symbol, key);
    law_lists_hold_every_order_once(b, pick, out, key);
    assert forall|i: int| 0 <= i < out.len() implies (#[trigger] out[i]).status is New
        || out[i].status is PartiallyFilled by {
        let k = choose|k: Seq<char>|
            #![trigger b.orders[k]]
            b.orders.contains_key(k) && pick(k) && b.orders[k].order == out[i];
        assert(pick(k));
    }
}

} // verus!
