//! Orders, feed events and what the connectors publish.

use vstd::prelude::*;
use crate::decimal::{in_range, LIMIT};

verus! {

/// The side of an order.
#[derive(Clone, Copy, PartialEq, Eq, Structural, Debug)]
pub enum Side {
    Unset,
    Buy,
    Sell,
    Unsupported,
}

/// The type of an order.
#[derive(Clone, Copy, PartialEq, Eq, Structural, Debug)]
pub enum OrdType {
    Limit,
    Market,
    Unsupported,
}

/// How long an order stays in the market. `GTX` is a post-only order.
#[derive(Clone, Copy, PartialEq, Eq, Structural, Debug)]
pub enum TimeInForce {
    GTC,
    GTX,
    FOK,
    IOC,
    Unsupported,
}

/// The status of an order.
#[derive(Clone, Copy, PartialEq, Eq, Structural, Debug)]
pub enum Status {
    Unset,
    New,
    Expired,
    Filled,
    Canceled,
    PartiallyFilled,
    Rejected,
    Replaced,
    Unsupported,
}

impl Side {
    /// Whether the side has a name on the wire.
    pub open spec fn named(self) -> bool {
        self is Buy || self is Sell
    }

    /// The name on the wire.
    pub open spec fn name(self) -> Seq<char> {
        match self {
            Side::Buy => "BUY"@,
            _ => "SELL"@,
        }
    }

    /// Whether the side has a name on the wire.
    pub fn is_named(&self) -> (r: bool)
        ensures
            r == self.named(),
    {
        matches!(self, Side::Buy | Side::Sell)
    }

    /// The name on the wire.
    pub fn as_ref(&self) -> (s: &'static str)
        requires
            self.named(),
        ensures
            s@ == self.name(),
    {
        match self {
            Side::Buy => "BUY",
            _ => "SELL",
        }
    }
}

impl OrdType {
    /// Whether the type has a name on the wire.
    pub open spec fn named(self) -> bool {
        self is Limit || self is Market
    }

    /// The name on the wire.
    pub open spec fn name(self) -> Seq<char> {
        match self {
            OrdType::Limit => "LIMIT"@,
            _ => "MARKET"@,
        }
    }

    /// Whether the type has a name on the wire.
    pub fn is_named(&self) -> (r: bool)
        ensures
            r == self.named(),
    {
        matches!(self, OrdType::Limit | OrdType::Market)
    }

    /// The name on the wire.
    pub fn as_ref(&self) -> (s: &'static str)
        requires
            self.named(),
        ensures
            s@ == self.name(),
    {
        match self {
            OrdType::Limit => "LIMIT",
            _ => "MARKET",
        }
    }
}

impl TimeInForce {
    /// Whether the instruction has a name on the wire.
    pub open spec fn named(self) -> bool {
        !(self is Unsupported)
    }

    /// The name on the wire.
    pub open spec fn name(self) -> Seq<char> {
        match self {
            TimeInForce::GTC => "GTC"@,
            TimeInForce::GTX => "GTX"@,
            TimeInForce::FOK => "FOK"@,
            _ => "IOC"@,
        }
    }

    /// Whether the instruction has a name on the wire.
    pub fn is_named(&self) -> (r: bool)
        ensures
            r == self.named(),
    {
        !matches!(self, TimeInForce::Unsupported)
    }

    /// The name on the wire.
    pub fn as_ref(&self) -> (s: &'static str)
        requires
            self.named(),
        ensures
            s@ == self.name(),
    {
        match self {
            TimeInForce::GTC => "GTC",
            TimeInForce::GTX => "GTX",
            TimeInForce::FOK => "FOK",
            _ => "IOC",
        }
    }
}

impl Status {
    /// Whether an order of this status is in the market.
    pub open spec fn live(self) -> bool {
        self is New || self is PartiallyFilled
    }

    /// Whether an order of this status is in the market.
    pub fn is_live(&self) -> (r: bool)
        ensures
            r == self.live(),
    {
        match self {
            Status::New => true,
            Status::PartiallyFilled => true,
            _ => false,
        }
    }
}

/// The identifier that a bot gives an order.
pub type OrderId = u64;

/// An order. Quantities and the tick size are decimals, prices are numbers of ticks.
#[derive(Clone, Copy, PartialEq, Eq, Structural, Debug)]
pub struct Order {
    pub qty: i128,
    pub leaves_qty: i128,
    pub exec_qty: i128,
    pub exec_price_tick: i64,
    pub price_tick: i64,
    pub tick_size: i128,
    pub exch_timestamp: i64,
    pub local_timestamp: i64,
    pub order_id: OrderId,
    pub maker: bool,
    pub order_type: OrdType,
    pub req: Status,
    pub status: Status,
    pub side: Side,
    pub time_in_force: TimeInForce,
}

impl Order {
    /// The quantity filled so far.
    pub open spec fn filled(self) -> int {
        self.qty - self.leaves_qty
    }

    /// The limit price.
    pub open spec fn price_units(self) -> int {
        self.price_tick * self.tick_size
    }

    /// Whether the decimals of the order are within the limits that its arithmetic needs.
    pub open spec fn wf(self) -> bool {
        &&& in_range(self.qty as int)
        &&& -2 * LIMIT <= self.leaves_qty <= 2 * LIMIT
        &&& in_range(self.tick_size as int)
        &&& in_range(self.price_units())
    }

    /// Whether the decimals of the order are within the limits that its arithmetic needs.
    pub fn is_wf(&self) -> (r: bool)
        ensures
            r == self.wf(),
    {
        if self.qty < -LIMIT || self.qty > LIMIT || self.leaves_qty < -2 * LIMIT || self.leaves_qty
            > 2 * LIMIT || self.tick_size < -LIMIT || self.tick_size > LIMIT {
            return false;
        }
        if self.tick_size == 0 {
            return true;
        }
        let n: i128 = if self.price_tick < 0 {
            -(self.price_tick as i128)
        } else {
            self.price_tick as i128
        };
        let t: i128 = if self.tick_size < 0 {
            -self.tick_size
        } else {
            self.tick_size
        };
        proof {
            let most = LIMIT as int / t as int;
            vstd::arithmetic::div_mod::lemma_fundamental_div_mod(LIMIT as int, t as int);
            vstd::arithmetic::div_mod::lemma_mod_bound(LIMIT as int, t as int);
            assert(n <= most <==> n * t <= LIMIT) by (nonlinear_arith)
                requires
                    t > 0,
                    LIMIT == t * most + LIMIT as int % t as int,
                    0 <= LIMIT as int % (t as int) < t,
            ;
            let price = self.price_units();
            assert(price == n * t || price == -(n * t)) by (nonlinear_arith)
                requires
                    price == self.price_tick * self.tick_size,
                    n == self.price_tick || n == -self.price_tick,
                    t == self.tick_size || t == -self.tick_size,
            ;
            assert(n * t >= 0) by (nonlinear_arith)
                requires
                    n >= 0,
                    t >= 0,
            ;
        }
        n <= LIMIT / t
    }

    /// A new order that has not been filled.
    pub open spec fn fresh(
        order_id: OrderId,
        price_tick: i64,
        tick_size: i128,
        qty: i128,
        side: Side,
        order_type: OrdType,
        time_in_force: TimeInForce,
    ) -> Order {
        Order {
            qty,
            leaves_qty: qty,
            exec_qty: 0,
            exec_price_tick: 0,
            price_tick,
            tick_size,
            exch_timestamp: 0,
            local_timestamp: 0,
            order_id,
            maker: false,
            order_type,
            req: Status::Unset,
            status: Status::Unset,
            side,
            time_in_force,
        }
    }

    /// A new order that has not been filled.
    pub fn new(
        order_id: OrderId,
        price_tick: i64,
        tick_size: i128,
        qty: i128,
        side: Side,
        order_type: OrdType,
        time_in_force: TimeInForce,
    ) -> (order: Order)
        ensures
            order == Order::fresh(
                order_id,
                price_tick,
                tick_size,
                qty,
                side,
                order_type,
                time_in_force,
            ),
    {
        Order {
            qty,
            leaves_qty: qty,
            exec_qty: 0,
            exec_price_tick: 0,
            price_tick,
            tick_size,
            exch_timestamp: 0,
            local_timestamp: 0,
            order_id,
            maker: false,
            order_type,
            req: Status::Unset,
            status: Status::Unset,
            side,
            time_in_force,
        }
    }

    /// Whether the order is in the market.
    pub fn active(&self) -> (r: bool)
        ensures
            r == self.status.live(),
    {
        self.status.is_live()
    }

    /// The limit price.
    pub fn price(&self) -> (p: i128)
        requires
            self.wf(),
        ensures
            p == self.price_units(),
            in_range(p as int),
    {
        self.price_tick as i128 * self.tick_size
    }
}

/// What a feed event tells.
#[derive(Clone, Copy, PartialEq, Eq, Structural, Debug)]
pub enum FeedKind {
    BidDepth,
    AskDepth,
    BidDepthClear,
    AskDepthClear,
    BidDepthBbo,
    AskDepthBbo,
    BuyTrade,
    SellTrade,
}

/// A feed event. An event that clears a side of the book has no price.
#[derive(Clone, Copy, PartialEq, Eq, Structural, Debug)]
pub struct Event {
    pub ev: FeedKind,
    pub exch_ts: i64,
    pub local_ts: i64,
    pub order_id: OrderId,
    pub px: Option<i128>,
    pub qty: i128,
    pub ival: i64,
    pub fval: i128,
}

impl Event {
    /// The event that tells of one price level or one trade.
    pub open spec fn level(
        ev: FeedKind,
        exch_ts: i64,
        local_ts: i64,
        px: Option<i128>,
        qty: i128,
    ) -> Event {
        Event { ev, exch_ts, local_ts, order_id: 0, px, qty, ival: 0, fval: 0 }
    }

    /// The event that tells of one price level or one trade.
    pub fn new(ev: FeedKind, exch_ts: i64, local_ts: i64, px: Option<i128>, qty: i128) -> (event:
        Event)
        ensures
            event == Event::level(ev, exch_ts, local_ts, px, qty),
    {
        Event { ev, exch_ts, local_ts, order_id: 0, px, qty, ival: 0, fval: 0 }
    }
}

/// The kind of an error that a bot is told of.
#[derive(Clone, Copy, PartialEq, Eq, Structural, Debug)]
pub enum ErrorKind {
    ConnectionInterrupted,
    OrderError,
}

/// The details of an error.
#[derive(Debug)]
pub enum Detail {
    Text(String),
    Int(i64),
    Fields(Vec<(String, Detail)>),
}

/// What a [`Detail`] holds.
pub enum DetailView {
    Text(Seq<char>),
    Int(i64),
    Fields(Seq<(Seq<char>, DetailView)>),
}

impl View for Detail {
    type V = DetailView;

    open spec fn view(&self) -> DetailView
        decreases self,
    {
        match self {
            Detail::Text(s) => DetailView::Text(s@),
            Detail::Int(i) => DetailView::Int(*i),
            Detail::Fields(v) => DetailView::Fields(
                Seq::new(
                    v@.len(),
                    |i: int|
                        if 0 <= i < v@.len() {
                            (v@[i].0@, v@[i].1.view())
                        } else {
                            (Seq::empty(), DetailView::Int(0))
                        },
                ),
            ),
        }
    }
}

/// What named details hold.
pub proof fn lemma_detail_fields(v: Vec<(String, Detail)>)
    ensures
        Detail::Fields(v)@ == DetailView::Fields(v@.map_values(|x: (String, Detail)| (x.0@, x.1@))),
{
    reveal_with_fuel(<Detail as View>::view, 2);
    assert(Detail::Fields(v)@->Fields_0 =~= v@.map_values(|x: (String, Detail)| (x.0@, x.1@)));
}

/// An error that a bot is told of.
#[derive(Debug)]
pub struct LiveError {
    pub kind: ErrorKind,
    pub value: Detail,
}

impl LiveError {
    /// An error of a kind with its details.
    pub fn with(kind: ErrorKind, value: Detail) -> (e: LiveError)
        ensures
            e.kind == kind,
            e.value == value,
    {
        LiveError { kind, value }
    }
}

/// What a bot is told.
#[derive(Debug)]
pub enum LiveEvent {
    Feed { symbol: String, event: Event },
    Order { symbol: String, order: Order },
    Position { symbol: String, qty: i128, exch_ts: i64 },
    Error(LiveError),
    Reconciled { symbol: String, open_orders: u32 },
}

/// The recipient that stands for every bot.
pub const TO_ALL: u64 = 0;

/// What a connector publishes. The events between a batch start and its end belong together.
#[derive(Debug)]
pub enum PublishEvent {
    BatchStart(u64),
    BatchEnd(u64),
    LiveEvent(LiveEvent),
}

/// What a [`PublishEvent`] holds.
pub enum Published {
    BatchStart(u64),
    BatchEnd(u64),
    Feed(Seq<char>, Event),
    Order(Seq<char>, Order),
    Position(Seq<char>, int, i64),
    Error(ErrorKind, DetailView),
    Reconciled(Seq<char>, u32),
}

impl View for PublishEvent {
    type V = Published;

    open spec fn view(&self) -> Published {
        match self {
            PublishEvent::BatchStart(to) => Published::BatchStart(*to),
            PublishEvent::BatchEnd(to) => Published::BatchEnd(*to),
            PublishEvent::LiveEvent(e) => match e {
                LiveEvent::Feed { symbol, event } => Published::Feed(symbol@, *event),
                LiveEvent::Order { symbol, order } => Published::Order(symbol@, *order),
                LiveEvent::Position { symbol, qty, exch_ts } => Published::Position(
                    symbol@,
                    *qty as int,
                    *exch_ts,
                ),
                LiveEvent::Error(e) => Published::Error(e.kind, e.value@),
                LiveEvent::Reconciled { symbol, open_orders } => Published::Reconciled(
                    symbol@,
                    *open_orders,
                ),
            },
        }
    }
}

/// What a sequence of events holds.
pub open spec fn published(v: Seq<PublishEvent>) -> Seq<Published> {
    v.map_values(|e: PublishEvent| e@)
}

/// Whether the nanoseconds of a time in milliseconds fit 64 bits.
pub open spec fn time_fits(ms: int) -> bool {
    i64::MIN <= ms * 1_000_000 <= i64::MAX
}

/// A time in milliseconds as nanoseconds.
pub fn to_nanos(ms: i64) -> (ns: i64)
    requires
        time_fits(ms as int),
    ensures
        ns == ms * 1_000_000,
{
    ms * 1_000_000
}

/// A new order has the terms it was made with: nothing of it is filled, all of its quantity is left,
/// nothing was executed or requested, it has no status and no time yet, and its price is its ticks
/// times the size of a tick.
pub proof fn law_new_orders_are_unfilled(
    order_id: OrderId,
    price_tick: i64,
    tick_size: i128,
    qty: i128,
    side: Side,
    order_type: OrdType,
    time_in_force: TimeInForce,
)
    ensures
        ({
            let o = Order::fresh(
                order_id,
                price_tick,
                tick_size,
                qty,
                side,
                order_type,
                time_in_force,
            );
            &&& o.filled() == 0
            &&& o.qty == qty
            &&& o.leaves_qty == qty
            &&& o.exec_qty == 0
            &&& o.exec_price_tick == 0
            &&& o.order_id == order_id
            &&& o.price_tick == price_tick
            &&& o.tick_size == tick_size
            &&& o.price_units() == price_tick * tick_size
            &&& o.side == side
            &&& o.order_type == order_type
            &&& o.time_in_force == time_in_force
            &&& o.status is Unset
            &&& o.req is Unset
            &&& !o.maker
            &&& o.exch_timestamp == 0
            &&& o.local_timestamp == 0
        }),
{
}

/// What is filled of an order and what is left of it make up its quantity, and its price is its ticks
/// times the size of a tick.
pub proof fn law_filled_and_left_make_up_the_order(o: Order)
    ensures
        o.filled() + o.leaves_qty == o.qty,
        o.price_units() == o.price_tick * o.tick_size,
{
}

/// An order is in the market while it is new or partly filled, and in no other status.
pub proof fn law_live_orders_are_new_or_partly_filled(s: Status)
    ensures
        s.live() <==> s is New || s is PartiallyFilled,
        s is Filled || s is Canceled || s is Expired || s is Rejected || s is Replaced || s is Unset
            || s is Unsupported ==> !s.live(),
{
}

/// The event of a price level or a trade tells what it was made with, and nothing of an order.
pub proof fn law_events_tell_what_they_were_made_with(
    ev: FeedKind,
    exch_ts: i64,
    local_ts: i64,
    px: Option<i128>,
    qty: i128,
)
    ensures
        ({
            let e = Event::level(ev, exch_ts, local_ts, px, qty);
            &&& e.ev == ev
            &&& e.exch_ts == exch_ts
            &&& e.local_ts == local_ts
            &&& e.px == px
            &&& e.qty == qty
            &&& e.order_id == 0
            &&& e.ival == 0
            &&& e.fval == 0
        }),
{
}

/// Events are published one by one, in their order.
pub proof fn law_events_are_published_in_order(a: Seq<PublishEvent>, b: Seq<PublishEvent>, i: int)
    ensures
        published(a).len() == a.len(),
        0 <= i < a.len() ==> published(a)[i] == a[i]@,
        published(a + b) == published(a) + published(b),
{
    assert(published(a + b) =~= published(a) + published(b));
}

/// What is published holds what it was made with: the symbol of an event, of an order or of a
/// position, and the whole of each of them.
pub proof fn law_published_events_hold_what_they_were_made_with(
    to: u64,
    symbol: String,
    event: Event,
    order: Order,
    qty: i128,
    exch_ts: i64,
    error: LiveError,
    open_orders: u32,
)
    ensures
        PublishEvent::BatchStart(to)@ == Published::BatchStart(to),
        PublishEvent::BatchEnd(to)@ == Published::BatchEnd(to),
        ({
            let told = PublishEvent::LiveEvent(LiveEvent::Feed { symbol, event })@;
            told is Feed && told->Feed_0 == symbol@ && told->Feed_1 == event
        }),
        ({
            let told = PublishEvent::LiveEvent(LiveEvent::Order { symbol, order })@;
            told is Order && told->Order_0 == symbol@ && told->Order_1 == order
        }),
        ({
            let told = PublishEvent::LiveEvent(LiveEvent::Position { symbol, qty, exch_ts })@;
            told is Position && told->Position_0 == symbol@ && told->Position_1 == qty
                && told->Position_2 == exch_ts
        }),
        ({
            let told = PublishEvent::LiveEvent(LiveEvent::Error(error))@;
            told is Error && told->Error_0 == error.kind && told->Error_1 == error.value@
        }),
        ({
            let told = PublishEvent::LiveEvent(LiveEvent::Reconciled { symbol, open_orders })@;
            told is Reconciled && told->Reconciled_0 == symbol@ && told->Reconciled_1 == open_orders
        }),
{
}

} // verus!
