//! A connector for Binance Spot.

pub mod market_data_stream;
pub mod msg;
pub mod ordermanager;
pub mod rows;
pub mod socket;
pub mod user_data_stream;
pub mod wsapi;

use vstd::prelude::*;
use vstd::string::*;
use crate::decimal::{
    abs, decimal_value, get_precision, law_precision_is_enough, law_ticks_of_a_price_are_its_ticks,
    pow10, precision, ticks,
};
use crate::double::{fixed_chars, fixed_text, law_decimals_read_back, MANTISSA_MIN};
use crate::json::{quoted, written_member, ToJson};
use crate::table::TextSet;
use crate::text::{
    holds, i64_text, int_chars, lemma_holds_more, lemma_holds_trans, lemma_holds_within, lowercase,
    nat_chars, to_lower, to_upper, uppercase,
};
use crate::types::{
    lemma_detail_fields, published, Detail, DetailView, ErrorKind, LiveError, LiveEvent, OrdType,
    Order, PublishEvent, Published, Side, Status, TimeInForce,
};
use self::msg::rest::OrderResponse;
use self::msg::wsapi::{
    law_cancel_params_are_written, law_place_params_are_written, law_request_holds_its_parts,
    OrderCancelParams, OrderPlaceParams, WsApiOrderResult, WsApiRequest,
};
use self::msg::{law_names_read_back, side_named, tif_named, type_named};
use self::ordermanager::{answered, failed, unknown_order, Book, OrderManager};
use self::wsapi::WsApiCommand;

verus! {

/// Why a request or a connection failed. An error of the HTTP client carries its status line where
/// it has one, its message and its debug form; an error of the socket its message and its debug
/// form; an error of the configuration its debug form.
#[derive(Debug)]
pub enum BinanceSpotError {
    InstrumentNotFound,
    InvalidRequest,
    ListenKeyExpired,
    ConnectionInterrupted,
    ConnectionAbort(String),
    ReqError { status: Option<String>, msg: String, debug: String },
    OrderError { code: i64, msg: String },
    PrefixUnmatched,
    OrderNotFound,
    Tunstenite { msg: String, debug: String },
    Config(String),
}

impl BinanceSpotError {
    /// The message of the error.
    pub open spec fn message(self) -> Seq<char> {
        match self {
            BinanceSpotError::InstrumentNotFound => "InstrumentNotFound"@,
            BinanceSpotError::InvalidRequest => "InvalidRequest"@,
            BinanceSpotError::ListenKeyExpired => "ListenKeyExpired"@,
            BinanceSpotError::ConnectionInterrupted => "ConnectionInterrupted"@,
            BinanceSpotError::ConnectionAbort(reason) => "ConnectionAbort: "@ + reason@,
            BinanceSpotError::ReqError { debug, .. } => "ReqError: "@ + debug@,
            BinanceSpotError::OrderError { code, msg } => "OrderError: "@ + int_chars(code as int)
                + " - "@ + msg@ + ")"@,
            BinanceSpotError::PrefixUnmatched => "PrefixUnmatched"@,
            BinanceSpotError::OrderNotFound => "OrderNotFound"@,
            BinanceSpotError::Tunstenite { debug, .. } => "Tunstenite: "@ + debug@,
            BinanceSpotError::Config(debug) => "Config: "@ + debug@,
        }
    }

    /// The message of the error.
    pub fn to_text(&self) -> (s: String)
        ensures
            s@ == self.message(),
    {
        match self {
            BinanceSpotError::InstrumentNotFound => "InstrumentNotFound".to_owned(),
            BinanceSpotError::InvalidRequest => "InvalidRequest".to_owned(),
            BinanceSpotError::ListenKeyExpired => "ListenKeyExpired".to_owned(),
            BinanceSpotError::ConnectionInterrupted => "ConnectionInterrupted".to_owned(),
            BinanceSpotError::ConnectionAbort(reason) => "ConnectionAbort: ".to_owned().concat(
                reason.as_str(),
            ),
            BinanceSpotError::ReqError { debug, .. } => "ReqError: ".to_owned().concat(
                debug.as_str(),
            ),
            BinanceSpotError::OrderError { code, msg } => "OrderError: ".to_owned().concat(
                i64_text(*code).as_str(),
            ).concat(" - ").concat(msg.as_str()).concat(")"),
            BinanceSpotError::PrefixUnmatched => "PrefixUnmatched".to_owned(),
            BinanceSpotError::OrderNotFound => "OrderNotFound".to_owned(),
            BinanceSpotError::Tunstenite { debug, .. } => "Tunstenite: ".to_owned().concat(
                debug.as_str(),
            ),
            BinanceSpotError::Config(debug) => "Config: ".to_owned().concat(debug.as_str()),
        }
    }

    /// What a bot is told of the error: the fields of a failed request or a refused order, else
    /// a message.
    pub open spec fn detail(self) -> DetailView {
        match self {
            BinanceSpotError::ReqError { status: Some(status), msg, .. } => DetailView::Fields(
                seq![
                    ("status_code"@, DetailView::Text(status@)),
                    ("msg"@, DetailView::Text(msg@)),
                ],
            ),
            BinanceSpotError::ReqError { status: None, msg, .. } => DetailView::Fields(
                seq![("msg"@, DetailView::Text(msg@))],
            ),
            BinanceSpotError::OrderError { code, msg } => DetailView::Fields(
                seq![("code"@, DetailView::Int(code)), ("msg"@, DetailView::Text(msg@))],
            ),
            BinanceSpotError::Tunstenite { msg, .. } => DetailView::Text(msg@),
            _ => DetailView::Text(self.message()),
        }
    }
}

impl Detail {
    /// What a bot is told of an error.
    pub fn from(value: BinanceSpotError) -> (d: Detail)
        ensures
            d@ == value.detail(),
    {
        let text = value.to_text();
        match value {
            BinanceSpotError::ReqError { status, msg, .. } => {
                let mut fields: Vec<(String, Detail)> = Vec::new();
                if let Some(status) = status {
                    fields.push(("status_code".to_owned(), Detail::Text(status)));
                }
                fields.push(("msg".to_owned(), Detail::Text(msg)));
                proof {
                    lemma_detail_fields(fields);
                    assert(Detail::Fields(fields)@->Fields_0 =~= value.detail()->Fields_0);
                }
                Detail::Fields(fields)
            },
            BinanceSpotError::OrderError { code, msg } => {
                let mut fields: Vec<(String, Detail)> = Vec::new();
                fields.push(("code".to_owned(), Detail::Int(code)));
                fields.push(("msg".to_owned(), Detail::Text(msg)));
                proof {
                    lemma_detail_fields(fields);
                    assert(Detail::Fields(fields)@->Fields_0 =~= value.detail()->Fields_0);
                }
                Detail::Fields(fields)
            },
            BinanceSpotError::Tunstenite { msg, .. } => Detail::Text(msg),
            _ => Detail::Text(text),
        }
    }
}

/// The configuration of a connector.
#[derive(Clone, Debug)]
pub struct Config {
    pub stream_url: String,
    pub api_url: String,
    pub order_prefix: String,
    pub api_key: String,
    pub secret: String,
    pub ws_api_url: String,
}

impl Config {
    /// Whether there are a key and a secret.
    pub open spec fn signs(self) -> bool {
        self.api_key@.len() > 0 && self.secret@.len() > 0
    }

    /// Whether the user-data stream is connected to: only with a key and a secret.
    pub fn has_credentials(&self) -> (r: bool)
        ensures
            r == self.signs(),
    {
        !self.api_key.as_str().is_empty() && !self.secret.as_str().is_empty()
    }
}

/// What a registration asks for, with the symbol in lower case: its market data is to be subscribed
/// to where it is new, and it is to be swept every time.
#[derive(Debug)]
pub struct Registration {
    pub subscribe: Option<String>,
    pub sweep: String,
}

/// Whether `r` and `after` are what the registration of a symbol does to the symbols `before`.
pub open spec fn registered(
    before: Set<Seq<char>>,
    symbol: Seq<char>,
    after: Set<Seq<char>>,
    r: Registration,
) -> bool {
    &&& after == before.insert(lowercase(symbol))
    &&& r.sweep@ == lowercase(symbol)
    &&& match r.subscribe {
        Some(s) => !before.contains(lowercase(symbol)) && s@ == lowercase(symbol),
        None => before.contains(lowercase(symbol)),
    }
}

/// Registers a symbol.
pub fn register(symbols: &mut TextSet, symbol: &str) -> (r: Registration)
    requires
        old(symbols).wf(),
    ensures
        final(symbols).wf(),
        registered(old(symbols)@, symbol@, final(symbols)@, r),
{
    let symbol = to_lower(symbol);
    let subscribe = if symbols.insert(symbol.as_str()) {
        Some(symbol.clone())
    } else {
        None
    };
    Registration { subscribe, sweep: symbol }
}

/// Every registration asks for a sweep. Once a symbol is registered, registering it again asks for
/// nothing else, and leaves the symbols as they are.
pub proof fn law_every_registration_sweeps(
    before: Set<Seq<char>>,
    symbol: Seq<char>,
    after: Set<Seq<char>>,
    r: Registration,
    last: Set<Seq<char>>,
    again: Registration,
)
    requires
        registered(before, symbol, after, r),
        registered(after, symbol, last, again),
    ensures
        r.sweep@ == lowercase(symbol),
        again.sweep@ == lowercase(symbol),
        again.subscribe is None,
        last == after,
{
    assert(last =~= after);
}

/// What a bot is told where a connection failed.
pub open spec fn connection_told(error: BinanceSpotError) -> Published {
    Published::Error(ErrorKind::ConnectionInterrupted, error.detail())
}

/// What a bot is told where a connection failed.
pub fn connection_error(error: BinanceSpotError) -> (e: PublishEvent)
    ensures
        e@ == connection_told(error),
{
    PublishEvent::LiveEvent(
        LiveEvent::Error(LiveError::with(ErrorKind::ConnectionInterrupted, Detail::from(error))),
    )
}

/// How long to wait for the answer to a request over the session, in milliseconds. An answer that
/// takes longer makes the request go over REST.
pub const WS_API_TIMEOUT_MILLIS: u64 = 500;

/// What comes of a request that was handed to the session.
#[derive(Debug)]
pub enum WsApiReply {
    /// The answer.
    Answer(WsApiOrderResult),
    /// The session has ended before the request could be handed over.
    Unsent,
    /// No answer came in time.
    TimedOut,
    /// The session ended before an answer came.
    Dropped,
}

/// What to do next for an order.
#[derive(Debug)]
pub enum OrderAction {
    /// Publish events; nothing else is to be done.
    Finish(Vec<PublishEvent>),
    /// Hand a request for the client order identifier to the session.
    Session(String, WsApiCommand),
    /// Make the request for the client order identifier over REST.
    Rest(String),
}

/// Whether an order can be written as a request: its side, and but for a post-only order its type
/// and time in force, have names.
pub open spec fn placeable(order: Order) -> bool {
    &&& order.wf()
    &&& order.side.named()
    &&& order.time_in_force is GTX || (order.order_type.named() && order.time_in_force.named())
}

/// Whether an order can be written as a request.
pub fn is_placeable(order: &Order) -> (r: bool)
    ensures
        r == placeable(*order),
{
    order.is_wf() && order.side.is_named() && (matches!(order.time_in_force, TimeInForce::GTX) || (
    order.order_type.is_named() && order.time_in_force.is_named()))
}

/// Whether `p` are the parameters of the request to place an order. A post-only order is a limit
/// maker without a time in force.
pub open spec fn places(
    p: OrderPlaceParams,
    symbol: Seq<char>,
    order: Order,
    client_order_id: Seq<char>,
    timestamp: u64,
) -> bool {
    &&& p.symbol@ == uppercase(symbol)
    &&& p.side@ == order.side.name()
    &&& if order.time_in_force is GTX {
        p.order_type@ == "LIMIT_MAKER"@ && p.time_in_force is None
    } else {
        &&& p.order_type@ == order.order_type.name()
        &&& p.time_in_force is Some
        &&& p.time_in_force->0@ == order.time_in_force.name()
    }
    &&& p.quantity@ == fixed_chars(order.qty as int, 5)
    &&& p.price@ == fixed_chars(order.price_units(), precision(order.tick_size as int))
    &&& p.new_client_order_id@ == client_order_id
    &&& p.new_order_resp_type@ == "FULL"@
    &&& p.timestamp == timestamp
}

/// Whether a command is the request to place an order.
pub open spec fn place_command(
    cmd: WsApiCommand,
    symbol: Seq<char>,
    order: Order,
    client_order_id: Seq<char>,
    id: Seq<char>,
    timestamp: u64,
) -> bool {
    &&& cmd.id@ == id
    &&& exists|req: WsApiRequest<OrderPlaceParams>|
        cmd.text@ == #[trigger] req.json() && req.id@ == id && req.method@ == "order.place"@
            && places(req.params, symbol, order, client_order_id, timestamp)
}

/// Whether a command is the request to cancel an order.
pub open spec fn cancel_command(
    cmd: WsApiCommand,
    symbol: Seq<char>,
    client_order_id: Seq<char>,
    id: Seq<char>,
    timestamp: u64,
) -> bool {
    &&& cmd.id@ == id
    &&& exists|req: WsApiRequest<OrderCancelParams>|
        cmd.text@ == #[trigger] req.json() && req.id@ == id && req.method@ == "order.cancel"@
            && req.params.symbol@ == uppercase(symbol) && req.params.orig_client_order_id@
            == client_order_id && req.params.timestamp == timestamp
}

/// The parameters of the request to place an order.
fn place_params(symbol: &str, order: &Order, client_order_id: &str, timestamp: u64) -> (p:
    OrderPlaceParams)
    requires
        placeable(*order),
    ensures
        places(p, symbol@, *order, client_order_id@, timestamp),
{
    let (order_type, time_in_force): (String, Option<String>) = if matches!(
        order.time_in_force,
        TimeInForce::GTX
    ) {
        ("LIMIT_MAKER".to_owned(), None)
    } else {
        (
            order.order_type.as_ref().to_owned(),
            Some(order.time_in_force.as_ref().to_owned()),
        )
    };
    let price = order.price();
    let precision: usize = get_precision(order.tick_size);
    OrderPlaceParams {
        symbol: to_upper(symbol),
        side: order.side.as_ref().to_owned(),
        order_type,
        time_in_force,
        quantity: fixed_text(order.qty, 5),
        price: fixed_text(price, precision),
        new_client_order_id: client_order_id.to_owned(),
        new_order_resp_type: "FULL".to_owned(),
        timestamp,
    }
}

/// The request to place an order.
pub fn place_request(
    symbol: &str,
    order: &Order,
    client_order_id: &str,
    id: &str,
    timestamp: u64,
) -> (cmd: WsApiCommand)
    requires
        placeable(*order),
    ensures
        place_command(cmd, symbol@, *order, client_order_id@, id@, timestamp),
{
    let req = WsApiRequest {
        id: id.to_owned(),
        method: "order.place".to_owned(),
        params: place_params(symbol, order, client_order_id, timestamp),
    };
    let text = req.to_json();
    assert(text@ == req.json());
    WsApiCommand { id: id.to_owned(), text }
}

/// The request to cancel an order.
pub fn cancel_request(symbol: &str, client_order_id: &str, id: &str, timestamp: u64) -> (cmd:
    WsApiCommand)
    ensures
        cancel_command(cmd, symbol@, client_order_id@, id@, timestamp),
{
    let req = WsApiRequest {
        id: id.to_owned(),
        method: "order.cancel".to_owned(),
        params: OrderCancelParams {
            symbol: to_upper(symbol),
            orig_client_order_id: client_order_id.to_owned(),
            timestamp,
        },
    };
    let text = req.to_json();
    assert(text@ == req.json());
    WsApiCommand { id: id.to_owned(), text }
}

/// An order as it is submitted over REST, with the decimals of its price and quantity and the
/// fraction digits of its price.
#[derive(Clone, Debug)]
pub struct RestOrder {
    pub client_order_id: String,
    pub symbol: String,
    pub side: Side,
    pub price: i128,
    pub price_prec: usize,
    pub qty: i128,
    pub order_type: OrdType,
    pub time_in_force: TimeInForce,
}

impl RestOrder {
    /// Whether this is how an order is submitted over REST.
    pub open spec fn submits(self, order: Order, symbol: Seq<char>, client_order_id: Seq<char>) -> bool {
        &&& self.client_order_id@ == client_order_id
        &&& self.symbol@ == symbol
        &&& self.side == order.side
        &&& self.price == order.price_units()
        &&& self.price_prec == precision(order.tick_size as int)
        &&& self.qty == order.qty
        &&& self.order_type == order.order_type
        &&& self.time_in_force == order.time_in_force
    }
}

/// The order as it is submitted over REST.
pub fn rest_order(order: &Order, symbol: &str, client_order_id: &str) -> (r: RestOrder)
    requires
        order.wf(),
    ensures
        r.client_order_id@ == client_order_id@,
        r.symbol@ == symbol@,
        r.side == order.side,
        r.price == order.price_units(),
        r.price_prec == precision(order.tick_size as int),
        r.qty == order.qty,
        r.order_type == order.order_type,
        r.time_in_force == order.time_in_force,
        r.submits(*order, symbol@, client_order_id@),
{
    RestOrder {
        client_order_id: client_order_id.to_owned(),
        symbol: symbol.to_owned(),
        side: order.side,
        price: order.price(),
        price_prec: get_precision(order.tick_size),
        qty: order.qty,
        order_type: order.order_type,
        time_in_force: order.time_in_force,
    }
}

/// What is told of an order, where there is something to tell.
pub open spec fn order_told(symbol: Seq<char>, told: Option<Order>) -> Seq<Published> {
    match told {
        Some(order) => seq![Published::Order(symbol, order)],
        None => seq![],
    }
}

/// What is told of an order that was refused for having an identifier in use: it expired.
pub open spec fn expired(order: Order) -> Order {
    Order { req: Status::Unset, status: Status::Expired, ..order }
}

/// Whether `after` and `told` are what the outcome of a submission does to the orders `before`.
pub open spec fn submitted(
    before: Book,
    symbol: Seq<char>,
    key: Seq<char>,
    result: WsApiOrderResult,
    after: Book,
    told: Seq<Published>,
) -> bool {
    match result {
        WsApiOrderResult::Accepted(resp) => exists|order: Option<Order>|
            told == #[trigger] order_told(symbol, order) && answered(
                before,
                key,
                resp,
                after,
                order,
            ),
        WsApiOrderResult::Refused(error) => exists|order: Option<Order>|
            told == (#[trigger] order_told(symbol, order)).push(
                Published::Error(ErrorKind::OrderError, error.detail()),
            ) && failed(before, key, Some(Status::Expired), after, order),
    }
}

/// Whether `after` and `told` are what the outcome of a cancellation does to the orders `before`.
pub open spec fn cancelled(
    before: Book,
    symbol: Seq<char>,
    key: Seq<char>,
    result: WsApiOrderResult,
    after: Book,
    told: Seq<Published>,
) -> bool {
    match result {
        WsApiOrderResult::Accepted(resp) => exists|order: Option<Order>|
            told == #[trigger] order_told(symbol, order) && answered(
                before,
                key,
                resp,
                after,
                order,
            ),
        WsApiOrderResult::Refused(error) => exists|order: Option<Order>|
            told == (#[trigger] order_told(symbol, order)).push(
                Published::Error(ErrorKind::OrderError, error.detail()),
            ) && failed(
                before,
                key,
                if unknown_order(error) {
                    Some(Status::Unset)
                } else {
                    None
                },
                after,
                order,
            ),
    }
}

/// The events that tell of an order, where there is something to tell.
fn order_events(symbol: &str, order: Option<Order>) -> (r: Vec<PublishEvent>)
    ensures
        published(r@) == order_told(symbol@, order),
{
    let mut out: Vec<PublishEvent> = Vec::new();
    if let Some(order) = order {
        out.push(
            PublishEvent::LiveEvent(LiveEvent::Order { symbol: symbol.to_owned(), order }),
        );
    }
    assert(published(out@) =~= order_told(symbol@, order));
    out
}

/// Appends the event that tells of an error of an order.
fn push_order_error(out: &mut Vec<PublishEvent>, error: BinanceSpotError)
    ensures
        published(final(out)@) == published(old(out)@).push(
            Published::Error(ErrorKind::OrderError, error.detail()),
        ),
{
    let ghost before = out@;
    out.push(
        PublishEvent::LiveEvent(
            LiveEvent::Error(LiveError::with(ErrorKind::OrderError, Detail::from(error))),
        ),
    );
    assert(published(out@) =~= published(before).push(
        Published::Error(ErrorKind::OrderError, error.detail()),
    ));
}

/// Whether `r` and `after` are what the start of a submission does to the orders `before`: an order
/// whose identifier is in use expires; else it is taken on, and goes through the session where there
/// is one.
pub open spec fn submission(
    before: Book,
    symbol: Seq<char>,
    order: Order,
    session: bool,
    suffix: Seq<char>,
    id: Seq<char>,
    timestamp: u64,
    after: Book,
    r: OrderAction,
) -> bool {
    let key = before.prefix + suffix;
    if before.in_use(symbol, order.order_id, suffix) {
        &&& after == before
        &&& r is Finish
        &&& published(r->Finish_0@) == seq![Published::Order(symbol, expired(order))]
    } else {
        &&& after == before.prepared(key, symbol, order)
        &&& if session {
            &&& r is Session
            &&& r->Session_0@ == key
            &&& place_command(r->Session_1, symbol, order, key, id, timestamp)
        } else {
            r is Rest && r->Rest_0@ == key
        }
    }
}

/// Starts the submission of an order. The order is taken on under a client order identifier that
/// ends in `suffix`; it goes through the session where there is one, else over REST. An order whose
/// identifier is in use expires. The suffix and the identifier of the request are drawn at random.
pub fn submit(
    orders: &mut OrderManager,
    symbol: &str,
    order: Order,
    session: bool,
    suffix: &str,
    id: &str,
    timestamp: u64,
) -> (r: OrderAction)
    requires
        old(orders).wf(),
        old(orders)@.in_use(symbol@, order.order_id, suffix@) || order.wf(),
        session ==> old(orders)@.in_use(symbol@, order.order_id, suffix@) || placeable(order),
    ensures
        final(orders).wf(),
        submission(
            old(orders)@,
            symbol@,
            order,
            session,
            suffix@,
            id@,
            timestamp,
            final(orders)@,
            r,
        ),
{
    match orders.prepare_client_order_id(symbol.to_owned(), order, suffix) {
        Some(client_order_id) => {
            if session {
                let cmd = place_request(symbol, &order, client_order_id.as_str(), id, timestamp);
                OrderAction::Session(client_order_id, cmd)
            } else {
                OrderAction::Rest(client_order_id)
            }
        },
        None => {
            let mut order = order;
            order.req = Status::Unset;
            order.status = Status::Expired;
            let events = order_events(symbol, Some(order));
            OrderAction::Finish(events)
        },
    }
}

/// Whether `r` and `after` are what the reply of the session to a submission does to the orders
/// `before`: an answer is its outcome; without one the request goes over REST, under the same client
/// order identifier.
pub open spec fn submission_went_on(
    before: Book,
    symbol: Seq<char>,
    client_order_id: String,
    reply: WsApiReply,
    after: Book,
    r: OrderAction,
) -> bool {
    match reply {
        WsApiReply::Answer(result) => {
            &&& r is Finish
            &&& submitted(
                before,
                symbol,
                client_order_id@,
                result,
                after,
                published(r->Finish_0@),
            )
        },
        _ => {
            &&& after == before
            &&& r == OrderAction::Rest(client_order_id)
        },
    }
}

/// Goes on with a submission that was handed to the session. Where no answer came the request is
/// made over REST, under the same client order identifier.
pub fn submit_replied(
    orders: &mut OrderManager,
    symbol: &str,
    client_order_id: String,
    reply: WsApiReply,
) -> (r: OrderAction)
    requires
        old(orders).wf(),
        reply is Answer ==> reply->Answer_0.wf(),
    ensures
        final(orders).wf(),
        submission_went_on(old(orders)@, symbol@, client_order_id, reply, final(orders)@, r),
{
    match reply {
        WsApiReply::Answer(result) => OrderAction::Finish(
            submit_done(orders, symbol, &client_order_id, result),
        ),
        _ => OrderAction::Rest(client_order_id),
    }
}

/// Records the outcome of a submission, and gives what is to be told.
pub fn submit_done(
    orders: &mut OrderManager,
    symbol: &str,
    client_order_id: &String,
    result: WsApiOrderResult,
) -> (r: Vec<PublishEvent>)
    requires
        old(orders).wf(),
        result.wf(),
    ensures
        final(orders).wf(),
        submitted(
            old(orders)@,
            symbol@,
            client_order_id@,
            result,
            final(orders)@,
            published(r@),
        ),
{
    match result {
        WsApiOrderResult::Accepted(resp) => {
            let order = orders.update_from_rest(client_order_id, &resp);
            order_events(symbol, order)
        },
        WsApiOrderResult::Refused(error) => {
            let order = orders.update_submit_fail(client_order_id, &error);
            let mut events = order_events(symbol, order);
            push_order_error(&mut events, error);
            events
        },
    }
}

/// Whether `r` is what the start of a cancellation does, where the orders are `book`: there is nothing
/// to do for an order that is not found; else the request goes through the session where there is one.
pub open spec fn cancellation(
    book: Book,
    symbol: Seq<char>,
    order_id: u64,
    session: bool,
    id: Seq<char>,
    timestamp: u64,
    r: OrderAction,
) -> bool {
    let key = book.ids[(symbol, order_id)];
    if !book.ids.contains_key((symbol, order_id)) {
        r is Finish && r->Finish_0@.len() == 0
    } else if session {
        &&& r is Session
        &&& r->Session_0@ == key
        &&& cancel_command(r->Session_1, symbol, key, id, timestamp)
    } else {
        r is Rest && r->Rest_0@ == key
    }
}

/// Starts the cancellation of an order: through the session where there is one, else over REST.
/// There is nothing to do for an order that is not found. The identifier of the request is drawn at
/// random.
pub fn cancel(
    orders: &OrderManager,
    symbol: &str,
    order: &Order,
    session: bool,
    id: &str,
    timestamp: u64,
) -> (r: OrderAction)
    ensures
        cancellation(orders@, symbol@, order.order_id, session, id@, timestamp, r),
{
    match orders.get_client_order_id(symbol, order.order_id) {
        Some(client_order_id) => {
            if session {
                let cmd = cancel_request(symbol, client_order_id.as_str(), id, timestamp);
                OrderAction::Session(client_order_id, cmd)
            } else {
                OrderAction::Rest(client_order_id)
            }
        },
        None => OrderAction::Finish(Vec::new()),
    }
}

/// Whether `r` and `after` are what the reply of the session to a cancellation does to the orders
/// `before`: an answer is its outcome; without one the request goes over REST, under the same client
/// order identifier.
pub open spec fn cancellation_went_on(
    before: Book,
    symbol: Seq<char>,
    client_order_id: String,
    reply: WsApiReply,
    after: Book,
    r: OrderAction,
) -> bool {
    match reply {
        WsApiReply::Answer(result) => {
            &&& r is Finish
            &&& cancelled(
                before,
                symbol,
                client_order_id@,
                result,
                after,
                published(r->Finish_0@),
            )
        },
        _ => {
            &&& after == before
            &&& r == OrderAction::Rest(client_order_id)
        },
    }
}

/// Goes on with a cancellation that was handed to the session. Where no answer came the request is
/// made over REST.
pub fn cancel_replied(
    orders: &mut OrderManager,
    symbol: &str,
    client_order_id: String,
    reply: WsApiReply,
) -> (r: OrderAction)
    requires
        old(orders).wf(),
        reply is Answer ==> reply->Answer_0.wf(),
    ensures
        final(orders).wf(),
        cancellation_went_on(old(orders)@, symbol@, client_order_id, reply, final(orders)@, r),
{
    match reply {
        WsApiReply::Answer(result) => OrderAction::Finish(
            cancel_done(orders, symbol, &client_order_id, result),
        ),
        _ => OrderAction::Rest(client_order_id),
    }
}

/// Records the outcome of a cancellation, and gives what is to be told.
pub fn cancel_done(
    orders: &mut OrderManager,
    symbol: &str,
    client_order_id: &String,
    result: WsApiOrderResult,
) -> (r: Vec<PublishEvent>)
    requires
        old(orders).wf(),
        result.wf(),
    ensures
        final(orders).wf(),
        cancelled(
            old(orders)@,
            symbol@,
            client_order_id@,
            result,
            final(orders)@,
            published(r@),
        ),
{
    match result {
        WsApiOrderResult::Accepted(resp) => {
            let order = orders.update_from_rest(client_order_id, &resp);
            order_events(symbol, order)
        },
        WsApiOrderResult::Refused(error) => {
            let order = orders.update_cancel_fail(client_order_id, &error);
            let mut events = order_events(symbol, order);
            push_order_error(&mut events, error);
            events
        },
    }
}

/// Every outcome of a submission or a cancellation that failed is told as an error, after whatever
/// is told of the order.
pub proof fn law_failures_are_told(
    before: Book,
    symbol: Seq<char>,
    key: Seq<char>,
    error: BinanceSpotError,
    after: Book,
    told: Seq<Published>,
)
    requires
        submitted(before, symbol, key, WsApiOrderResult::Refused(error), after, told) || cancelled(
            before,
            symbol,
            key,
            WsApiOrderResult::Refused(error),
            after,
            told,
        ),
    ensures
        told.len() > 0,
        told.last() == Published::Error(ErrorKind::OrderError, error.detail()),
{
}

/// A submission that failed expires: the order is told as expired, once, and is no longer found.
pub proof fn law_failed_submission_expires(
    before: Book,
    symbol: Seq<char>,
    key: Seq<char>,
    error: BinanceSpotError,
    after: Book,
    told: Seq<Published>,
)
    requires
        before.valid(),
        before.orders.contains_key(key),
        !before.orders[key].removed(),
        submitted(before, symbol, key, WsApiOrderResult::Refused(error), after, told),
    ensures
        told[0] is Order,
        told[0]->Order_1.status is Expired,
        told[0]->Order_1.req is Unset,
        forall|id: (Seq<char>, u64)| #[trigger]
            after.ids.contains_key(id) ==> after.ids[id] != key,
{
    let order = choose|order: Option<Order>|
        told == (#[trigger] order_told(symbol, order)).push(
            Published::Error(ErrorKind::OrderError, error.detail()),
        ) && failed(before, key, Some(Status::Expired), after, order);
    assert(told[0] == order_told(symbol, order)[0]);
    assert forall|id: (Seq<char>, u64)| #[trigger] after.ids.contains_key(id) implies after.ids[id]
        != key by {
        assert(before.ids.contains_key(id));
        assert(before.leads(id));
    }
}

/// The price that a request to place an order carries is the price of the order, digit for digit,
/// where its digits are no more than a double holds; and so is the quantity, where it also is a
/// multiple of the fifth digit.
pub proof fn law_placed_numbers_read_back(
    p: OrderPlaceParams,
    symbol: Seq<char>,
    order: Order,
    client_order_id: Seq<char>,
    timestamp: u64,
)
    requires
        order.wf(),
        places(p, symbol, order, client_order_id, timestamp),
    ensures
        abs(order.price_units()) < MANTISSA_MIN * pow10(
            (12 - precision(order.tick_size as int)) as nat,
        ) ==> decimal_value(p.price@) == Some(order.price_units()),
        order.qty as int % 10_000_000 == 0 && abs(order.qty as int) < MANTISSA_MIN * 10_000_000
            ==> decimal_value(p.quantity@) == Some(order.qty as int),
{
    let prec = precision(order.tick_size as int);
    law_precision_is_enough(order.tick_size as int, order.price_tick as int);
    if abs(order.price_units()) < MANTISSA_MIN * pow10((12 - prec) as nat) {
        if prec == 12 {
            assert(order.price_units() % 1 == 0);
        }
        law_decimals_read_back(order.price_units(), prec);
    }
    assert(pow10(7) == 10_000_000) by {
        reveal_with_fuel(pow10, 8);
    }
    if order.qty as int % 10_000_000 == 0 && abs(order.qty as int) < MANTISSA_MIN * 10_000_000 {
        law_decimals_read_back(order.qty as int, 5);
    }
}

/// What a request to place an order says of it reads back as the order: its side, and but for a
/// post-only order its type and its time in force. A post-only order is a limit order without a time
/// in force.
pub proof fn law_request_reads_back_as_the_order(
    p: OrderPlaceParams,
    symbol: Seq<char>,
    order: Order,
    client_order_id: Seq<char>,
    timestamp: u64,
)
    requires
        placeable(order),
        places(p, symbol, order, client_order_id, timestamp),
    ensures
        side_named(p.side@) == order.side,
        !(order.time_in_force is GTX) ==> {
            &&& p.time_in_force is Some
            &&& tif_named(p.time_in_force->0@) == order.time_in_force
            &&& type_named(p.order_type@) == order.order_type
        },
        order.time_in_force is GTX ==> {
            &&& p.time_in_force is None
            &&& p.order_type@ == "LIMIT_MAKER"@
            &&& type_named(p.order_type@) is Limit
        },
        p.symbol@ == uppercase(symbol),
        p.new_client_order_id@ == client_order_id,
        p.timestamp == timestamp,
{
    law_names_read_back(order.side, order.order_type, order.time_in_force);
}

/// Two orders that differ in side, in type, in time in force or in being post-only are never placed
/// by the same request.
pub proof fn law_different_orders_are_placed_differently(
    p: OrderPlaceParams,
    q: OrderPlaceParams,
    symbol: Seq<char>,
    a: Order,
    b: Order,
    client_order_id: Seq<char>,
    timestamp: u64,
)
    requires
        placeable(a),
        placeable(b),
        places(p, symbol, a, client_order_id, timestamp),
        places(q, symbol, b, client_order_id, timestamp),
    ensures
        a.side != b.side ==> p.side@ != q.side@,
        a.time_in_force is GTX != b.time_in_force is GTX ==> p.time_in_force is Some
            != q.time_in_force is Some,
        !(a.time_in_force is GTX) && !(b.time_in_force is GTX) && a.time_in_force
            != b.time_in_force ==> p.time_in_force->0@ != q.time_in_force->0@,
        !(a.time_in_force is GTX) && !(b.time_in_force is GTX) && a.order_type != b.order_type
            ==> p.order_type@ != q.order_type@,
{
    law_request_reads_back_as_the_order(p, symbol, a, client_order_id, timestamp);
    law_request_reads_back_as_the_order(q, symbol, b, client_order_id, timestamp);
}

/// An order can be placed just where its decimals are within the limits, it is bought or sold, and it
/// is post-only or a limit or market order whose time in force is known.
pub proof fn law_only_named_orders_are_placed(order: Order)
    requires
        order.wf(),
    ensures
        placeable(order) <==> {
            &&& order.side is Buy || order.side is Sell
            &&& order.time_in_force is GTX || {
                &&& order.order_type is Limit || order.order_type is Market
                &&& order.time_in_force is GTC || order.time_in_force is FOK
                    || order.time_in_force is IOC
            }
        },
{
}

/// The frame that places an order carries its own identifier, the method that places orders, and
/// under its key each of: the symbol in upper case, the names of the side, the type and the time in
/// force, the client order identifier and the time. The parameters that it holds read back as the
/// order.
pub proof fn law_place_frame_carries_the_order(
    cmd: WsApiCommand,
    symbol: Seq<char>,
    order: Order,
    client_order_id: Seq<char>,
    id: Seq<char>,
    timestamp: u64,
)
    requires
        placeable(order),
        place_command(cmd, symbol, order, client_order_id, id, timestamp),
    ensures
        cmd.id@ == id,
        holds(cmd.text@, written_member("id"@, quoted(id))),
        holds(cmd.text@, written_member("method"@, quoted("order.place"@))),
        holds(cmd.text@, written_member("symbol"@, quoted(uppercase(symbol)))),
        order.side is Buy ==> holds(cmd.text@, written_member("side"@, quoted("BUY"@))),
        order.side is Sell ==> holds(cmd.text@, written_member("side"@, quoted("SELL"@))),
        order.time_in_force is GTX ==> holds(
            cmd.text@,
            written_member("type"@, quoted("LIMIT_MAKER"@)),
        ),
        !(order.time_in_force is GTX) && order.order_type is Limit ==> holds(
            cmd.text@,
            written_member("type"@, quoted("LIMIT"@)),
        ),
        !(order.time_in_force is GTX) && order.order_type is Market ==> holds(
            cmd.text@,
            written_member("type"@, quoted("MARKET"@)),
        ),
        order.time_in_force is GTC ==> holds(
            cmd.text@,
            written_member("timeInForce"@, quoted("GTC"@)),
        ),
        order.time_in_force is FOK ==> holds(
            cmd.text@,
            written_member("timeInForce"@, quoted("FOK"@)),
        ),
        order.time_in_force is IOC ==> holds(
            cmd.text@,
            written_member("timeInForce"@, quoted("IOC"@)),
        ),
        holds(
            cmd.text@,
            written_member("price"@, quoted(fixed_chars(
                order.price_tick * order.tick_size,
                precision(order.tick_size as int),
            ))),
        ),
        holds(cmd.text@, written_member("quantity"@, quoted(fixed_chars(order.qty as int, 5)))),
        holds(cmd.text@, written_member("newClientOrderId"@, quoted(client_order_id))),
        holds(cmd.text@, written_member("newOrderRespType"@, quoted("FULL"@))),
        holds(cmd.text@, written_member("timestamp"@, nat_chars(timestamp as nat))),
{
    let req = choose|req: WsApiRequest<OrderPlaceParams>|
        cmd.text@ == #[trigger] req.json() && req.id@ == id && req.method@ == "order.place"@
            && places(req.params, symbol, order, client_order_id, timestamp);
    let params = req.params.json();
    law_request_holds_its_parts(req);
    law_place_params_are_written(req.params);
    assert forall|part: Seq<char>| holds(params, part) implies #[trigger] holds(cmd.text@, part) by {
        lemma_holds_trans(cmd.text@, params, part);
    }
}

/// The frame that cancels an order carries its own identifier, the method that cancels orders, the
/// symbol in upper case, the client order identifier of the order and the time.
pub proof fn law_cancel_frame_names_the_order(
    cmd: WsApiCommand,
    symbol: Seq<char>,
    client_order_id: Seq<char>,
    id: Seq<char>,
    timestamp: u64,
)
    requires
        cancel_command(cmd, symbol, client_order_id, id, timestamp),
    ensures
        cmd.id@ == id,
        holds(cmd.text@, written_member("id"@, quoted(id))),
        holds(cmd.text@, written_member("method"@, quoted("order.cancel"@))),
        holds(cmd.text@, written_member("symbol"@, quoted(uppercase(symbol)))),
        holds(cmd.text@, written_member("origClientOrderId"@, quoted(client_order_id))),
        holds(cmd.text@, written_member("timestamp"@, nat_chars(timestamp as nat))),
{
    let req = choose|req: WsApiRequest<OrderCancelParams>|
        cmd.text@ == #[trigger] req.json() && req.id@ == id && req.method@ == "order.cancel"@
            && req.params.symbol@ == uppercase(symbol) && req.params.orig_client_order_id@
            == client_order_id && req.params.timestamp == timestamp;
    let params = req.params.json();
    law_request_holds_its_parts(req);
    law_cancel_params_are_written(req.params);
    assert forall|part: Seq<char>| holds(params, part) implies #[trigger] holds(cmd.text@, part) by {
        lemma_holds_trans(cmd.text@, params, part);
    }
}

/// An order goes over REST on the terms that it has: its side, its type, its time in force and its
/// quantity, and its price, which is so many ticks of its tick size and has no digits beyond the ones
/// that are written.
pub proof fn law_rest_order_has_the_terms_of_the_order(
    r: RestOrder,
    order: Order,
    symbol: Seq<char>,
    client_order_id: Seq<char>,
)
    requires
        order.wf(),
        r.submits(order, symbol, client_order_id),
    ensures
        r.client_order_id@ == client_order_id,
        r.symbol@ == symbol,
        r.side == order.side,
        r.order_type == order.order_type,
        r.time_in_force == order.time_in_force,
        r.qty == order.qty,
        r.price == order.price_tick * order.tick_size,
        order.tick_size != 0 ==> ticks(r.price as int, order.tick_size as int) == order.price_tick,
        r.price_prec <= 12,
        r.price_prec < 12 ==> r.price as int % (pow10((12 - r.price_prec) as nat) as int) == 0,
{
    law_precision_is_enough(order.tick_size as int, order.price_tick as int);
    if order.tick_size != 0 {
        law_ticks_of_a_price_are_its_ticks(order.price_tick, order.tick_size as int);
    }
}

/// What starts a submission does one of two things. An order whose identifier or client order
/// identifier is in use is told as expired, with no request under way and otherwise as it is, and the
/// orders stay. Any other order is stored as it is under the prefix and the suffix, its identifier
/// leads there, and its request goes under that same client order identifier: through the session
/// just where there is one.
pub proof fn law_submission_stores_the_order_or_expires_it(
    before: Book,
    symbol: Seq<char>,
    order: Order,
    session: bool,
    suffix: Seq<char>,
    id: Seq<char>,
    timestamp: u64,
    after: Book,
    r: OrderAction,
)
    requires
        submission(before, symbol, order, session, suffix, id, timestamp, after, r),
    ensures
        ({
            let used = before.ids.contains_key((symbol, order.order_id))
                || before.orders.contains_key(before.prefix + suffix);
            let told = published(r->Finish_0@);
            &&& used ==> {
                &&& after == before
                &&& r is Finish
                &&& told.len() == 1
                &&& told[0] is Order
                &&& told[0]->Order_0 == symbol
                &&& told[0]->Order_1.status is Expired
                &&& told[0]->Order_1.req is Unset
                &&& told[0]->Order_1.order_id == order.order_id
                &&& told[0]->Order_1.qty == order.qty
                &&& told[0]->Order_1.leaves_qty == order.leaves_qty
                &&& told[0]->Order_1.exec_qty == order.exec_qty
                &&& told[0]->Order_1.exec_price_tick == order.exec_price_tick
                &&& told[0]->Order_1.price_tick == order.price_tick
                &&& told[0]->Order_1.tick_size == order.tick_size
                &&& told[0]->Order_1.side == order.side
                &&& told[0]->Order_1.order_type == order.order_type
                &&& told[0]->Order_1.time_in_force == order.time_in_force
                &&& told[0]->Order_1.exch_timestamp == order.exch_timestamp
                &&& told[0]->Order_1.local_timestamp == order.local_timestamp
                &&& told[0]->Order_1.maker == order.maker
            }
            &&& !used ==> {
                &&& after.orders.contains_key(before.prefix + suffix)
                &&& after.orders[before.prefix + suffix].order == order
                &&& after.orders[before.prefix + suffix].symbol == symbol
                &&& after.ids.contains_key((symbol, order.order_id))
                &&& after.ids[(symbol, order.order_id)] == before.prefix + suffix
                &&& r is Session <==> session
                &&& r is Rest <==> !session
                &&& session ==> r->Session_0@ == before.prefix + suffix && r->Session_1.id@ == id
                &&& !session ==> r->Rest_0@ == before.prefix + suffix
            }
        }),
{
    let told = published(r->Finish_0@);
    if before.in_use(symbol, order.order_id, suffix) {
        assert(told.len() == 1);
        assert(told[0] == Published::Order(symbol, expired(order)));
    }
}

/// An order that was taken on can be canceled: the cancellation goes under the client order
/// identifier that the submission went under, through the session just where there is one. There is
/// nothing to do, and nothing to tell, for an order that its identifier does not lead to.
pub proof fn law_submitted_order_can_be_canceled(
    before: Book,
    symbol: Seq<char>,
    order: Order,
    session: bool,
    suffix: Seq<char>,
    id: Seq<char>,
    timestamp: u64,
    after: Book,
    first: OrderAction,
    again: bool,
    r: OrderAction,
)
    requires
        submission(before, symbol, order, session, suffix, id, timestamp, after, first),
        !(first is Finish),
        cancellation(after, symbol, order.order_id, again, id, timestamp, r),
    ensures
        r is Session <==> again,
        r is Rest <==> !again,
        again ==> r->Session_0@ == before.prefix + suffix,
        !again ==> r->Rest_0@ == before.prefix + suffix,
{
}

/// A cancellation of an order that its identifier does not lead to does nothing and tells nothing;
/// any other goes under the client order identifier that it leads to.
pub proof fn law_cancellation_goes_to_the_order(
    book: Book,
    symbol: Seq<char>,
    order_id: u64,
    session: bool,
    id: Seq<char>,
    timestamp: u64,
    r: OrderAction,
)
    requires
        cancellation(book, symbol, order_id, session, id, timestamp, r),
    ensures
        r is Finish <==> !book.ids.contains_key((symbol, order_id)),
        r is Finish ==> r->Finish_0@.len() == 0,
        r is Session ==> session && r->Session_0@ == book.ids[(symbol, order_id)]
            && r->Session_1.id@ == id,
        r is Rest ==> !session && r->Rest_0@ == book.ids[(symbol, order_id)],
{
}

/// A request that the session did not answer goes over REST under the same client order identifier,
/// and the orders stay; an answer is never followed by another request.
pub proof fn law_unanswered_requests_go_over_rest(
    before: Book,
    symbol: Seq<char>,
    client_order_id: String,
    reply: WsApiReply,
    after: Book,
    r: OrderAction,
)
    requires
        submission_went_on(before, symbol, client_order_id, reply, after, r)
            || cancellation_went_on(before, symbol, client_order_id, reply, after, r),
    ensures
        reply is Answer <==> r is Finish,
        reply is Unsent || reply is TimedOut || reply is Dropped ==> r is Rest && r->Rest_0@
            == client_order_id@ && after == before,
{
}

/// A submission or a cancellation that was accepted does the same: a bot is told of the order alone,
/// for its symbol and as it is then stored, and of nothing where it is not stored or was told to be
/// done with no more filled.
pub proof fn law_accepted_requests_tell_the_order(
    before: Book,
    symbol: Seq<char>,
    key: Seq<char>,
    resp: OrderResponse,
    after: Book,
    told: Seq<Published>,
)
    ensures
        submitted(before, symbol, key, WsApiOrderResult::Accepted(resp), after, told) == cancelled(
            before,
            symbol,
            key,
            WsApiOrderResult::Accepted(resp),
            after,
            told,
        ),
        submitted(before, symbol, key, WsApiOrderResult::Accepted(resp), after, told) ==> {
            &&& told.len() <= 1
            &&& !before.orders.contains_key(key) ==> told.len() == 0 && after == before
            &&& before.orders.contains_key(key) && !before.orders[key].removed_by_ws
                && !before.orders[key].removed_by_rest ==> told.len() == 1
            &&& told.len() == 1 ==> {
                let o = told[0]->Order_1;
                &&& told[0] is Order
                &&& told[0]->Order_0 == symbol
                &&& o.order_id == before.orders[key].order.order_id
                &&& after.orders.contains_key(key) ==> after.orders[key].order == o
                &&& resp.transact_time * 1_000_000 >= before.orders[key].order.exch_timestamp
                    ==> o.status == resp.status && o.req is Unset
            }
        },
{
    if submitted(before, symbol, key, WsApiOrderResult::Accepted(resp), after, told) {
        let order = choose|order: Option<Order>|
            told == #[trigger] order_told(symbol, order) && answered(
                before,
                key,
                resp,
                after,
                order,
            );
        assert(told == order_told(symbol, order));
    }
}

/// A cancellation that was refused tells of the order first, where it is stored and was not told to
/// be done: with no request under way, with its quantities as they are, and with its status as it is
/// but where the exchange does not know the order, whose status is then unset.
pub proof fn law_refused_cancellation_keeps_the_order(
    before: Book,
    symbol: Seq<char>,
    key: Seq<char>,
    error: BinanceSpotError,
    after: Book,
    told: Seq<Published>,
)
    requires
        cancelled(before, symbol, key, WsApiOrderResult::Refused(error), after, told),
        before.orders.contains_key(key),
        !before.orders[key].removed_by_ws,
        !before.orders[key].removed_by_rest,
    ensures
        told.len() == 2,
        told[0] is Order,
        told[0]->Order_0 == symbol,
        ({
            let was = before.orders[key].order;
            let o = told[0]->Order_1;
            let unknown = error is OrderError && error->OrderError_code == -2011;
            &&& o.req is Unset
            &&& o.order_id == was.order_id
            &&& o.qty == was.qty
            &&& o.leaves_qty == was.leaves_qty
            &&& unknown ==> o.status is Unset
            &&& !unknown ==> o.status == was.status
        }),
        told[1] == Published::Error(ErrorKind::OrderError, error.detail()),
{
    let status = if unknown_order(error) {
        Some(Status::Unset)
    } else {
        None
    };
    let order = choose|order: Option<Order>|
        told == (#[trigger] order_told(symbol, order)).push(
            Published::Error(ErrorKind::OrderError, error.detail()),
        ) && failed(before, key, status, after, order);
    assert(told[0] == order_told(symbol, order)[0]);
}

/// What a bot is told of an error names what failed: a refused order its code and its message, a
/// failed request its message and, where it has one, its status line, the socket its message, and
/// every other error the message of the error alone.
pub proof fn law_errors_are_told_in_detail(e: BinanceSpotError)
    ensures
        e is OrderError ==> {
            let f = e.detail()->Fields_0;
            &&& e.detail() is Fields
            &&& f.len() == 2
            &&& f[0] == ("code"@, DetailView::Int(e->OrderError_code))
            &&& f[1] == ("msg"@, DetailView::Text(e->OrderError_msg@))
        },
        e is ReqError ==> {
            let f = e.detail()->Fields_0;
            &&& e.detail() is Fields
            &&& f.len() == if e->ReqError_status is Some {
                2int
            } else {
                1
            }
            &&& f.last() == ("msg"@, DetailView::Text(e->ReqError_msg@))
            &&& e->ReqError_status is Some ==> f[0] == (
                "status_code"@,
                DetailView::Text(e->ReqError_status->0@),
            )
        },
        e is Tunstenite ==> e.detail() == DetailView::Text(e->Tunstenite_msg@),
        !(e is OrderError) && !(e is ReqError) && !(e is Tunstenite) ==> e.detail()
            == DetailView::Text(e.message()),
{
}

/// The message of an error begins with the name of its kind and holds what it carries: the reason of
/// a connection that was closed, the code and the message of a refused order, the debug form of the
/// others.
pub proof fn law_messages_hold_what_errors_carry(e: BinanceSpotError)
    ensures
        e is InstrumentNotFound ==> e.message() == "InstrumentNotFound"@,
        e is InvalidRequest ==> e.message() == "InvalidRequest"@,
        e is ListenKeyExpired ==> e.message() == "ListenKeyExpired"@,
        e is ConnectionInterrupted ==> e.message() == "ConnectionInterrupted"@,
        e is PrefixUnmatched ==> e.message() == "PrefixUnmatched"@,
        e is OrderNotFound ==> e.message() == "OrderNotFound"@,
        e is ConnectionAbort ==> {
            &&& "ConnectionAbort"@.is_prefix_of(e.message())
            &&& holds(e.message(), e->ConnectionAbort_0@)
        },
        e is ReqError ==> "ReqError"@.is_prefix_of(e.message()) && holds(
            e.message(),
            e->ReqError_debug@,
        ),
        e is OrderError ==> {
            &&& "OrderError"@.is_prefix_of(e.message())
            &&& holds(e.message(), int_chars(e->OrderError_code as int) + " - "@)
            &&& holds(e.message(), e->OrderError_msg@)
        },
        e is Tunstenite ==> "Tunstenite"@.is_prefix_of(e.message()) && holds(
            e.message(),
            e->Tunstenite_debug@,
        ),
        e is Config ==> "Config"@.is_prefix_of(e.message()) && holds(e.message(), e->Config_0@),
{
    assert forall|a: Seq<char>, part: Seq<char>| #[trigger] holds(a + part, part) by {
        assert(part.subrange(0, 0int + part.len()) =~= part);
        lemma_holds_within(a, part, part);
    }
    match e {
        BinanceSpotError::ConnectionAbort(reason) => {
            reveal_strlit("ConnectionAbort");
            reveal_strlit("ConnectionAbort: ");
            assert("ConnectionAbort"@ =~= e.message().subrange(0, 15));
        },
        BinanceSpotError::ReqError { debug, .. } => {
            reveal_strlit("ReqError");
            reveal_strlit("ReqError: ");
            assert("ReqError"@ =~= e.message().subrange(0, 8));
        },
        BinanceSpotError::OrderError { code, msg } => {
            let head = "OrderError: "@;
            let told = int_chars(code as int) + " - "@;
            assert(head + int_chars(code as int) + " - "@ =~= head + told);
            lemma_holds_more(head + told, msg@, told);
            lemma_holds_more(head + told + msg@, ")"@, told);
            lemma_holds_more(head + told + msg@, ")"@, msg@);
            reveal_strlit("OrderError");
            reveal_strlit("OrderError: ");
            assert("OrderError"@ =~= e.message().subrange(0, 10));
        },
        BinanceSpotError::Tunstenite { debug, .. } => {
            reveal_strlit("Tunstenite");
            reveal_strlit("Tunstenite: ");
            assert("Tunstenite"@ =~= e.message().subrange(0, 10));
        },
        BinanceSpotError::Config(debug) => {
            reveal_strlit("Config");
            reveal_strlit("Config: ");
            assert("Config"@ =~= e.message().subrange(0, 6));
        },
        _ => {},
    }
}

/// A symbol is subscribed to just where it is registered for the first time, and the other symbols
/// stay registered or not as they were.
pub proof fn law_registration_subscribes_once(
    before: Set<Seq<char>>,
    symbol: Seq<char>,
    after: Set<Seq<char>>,
    r: Registration,
    other: Seq<char>,
)
    requires
        registered(before, symbol, after, r),
    ensures
        after.contains(lowercase(symbol)),
        other != lowercase(symbol) ==> after.contains(other) == before.contains(other),
        r.subscribe is Some <==> !before.contains(lowercase(symbol)),
        r.subscribe is Some ==> r.subscribe->0@ == lowercase(symbol),
        r.sweep@ == lowercase(symbol),
{
}

/// A connection that failed is told as interrupted, with the details of its error; and a connection
/// is signed only where there are both a key and a secret.
pub proof fn law_lost_connections_are_told(error: BinanceSpotError, config: Config)
    ensures
        connection_told(error) is Error,
        connection_told(error)->Error_0 is ConnectionInterrupted,
        connection_told(error)->Error_1 == error.detail(),
        config.signs() <==> config.api_key@.len() != 0 && config.secret@.len() != 0,
{
}

} // verus!
