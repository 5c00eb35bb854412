//! The user-data stream: balances, what becomes of orders, and the session that orders go through.
//!
//! A connection logs on, subscribes to user data, and only then lets orders through its session,
//! so that whatever becomes of an order is heard. From then on each registered symbol is swept: its
//! open orders are canceled, and how many are left is reported.

use vstd::prelude::*;
use vstd::string::*;
use crate::json::{quoted, written_member, ToJson};
use crate::table::{distinct, holds, TextSet};
use crate::text::nat_chars;
use crate::types::{
    published, time_fits, to_nanos, LiveEvent, Order, PublishEvent, Published,
};
use super::msg::rest::{AccountInfomation, BalanceEntry};
use super::msg::{from_text, Message};
use super::msg::stream::{
    law_logon_payload_is_signed_first, law_signed_requests_hold_their_parameters,
    law_subscriptions_hold_their_method, Balance,
    ExecutionReport, SignParams, SignRequest, SubscribeRequest, UserDataRequest, UserEventStream,
    UserStream, UserStreamSubscribeRequest,
};
use super::msg::wsapi::{WsApiOrderResponse, WsApiOrderResult};
use super::ordermanager::{order_after_ws, Book, OrderManager};
use super::socket::{timed_out, SocketEvent, PING_TIMEOUT_NANOS};
use super::wsapi::{frame_id, ws_api_response_id, WsApiCommand};
use super::BinanceSpotError;

verus! {

/// What is told of orders of a symbol.
pub open spec fn orders_told(symbol: Seq<char>, orders: Seq<Order>) -> Seq<Published> {
    orders.map_values(|o: Order| Published::Order(symbol, o))
}

/// What is told of balances.
pub open spec fn balances_told(balances: Seq<Balance>, event_time: i64) -> Seq<Published> {
    balances.map_values(
        |b: Balance|
            Published::Position(b.asset@, b.free as int, (event_time * 1_000_000) as i64),
    )
}

/// Whether `after` and `told` are what a report does to the orders `before`: one that is not of an
/// order of this connector does nothing.
pub open spec fn reported(
    before: Book,
    report: ExecutionReport,
    after: Book,
    told: Seq<Published>,
) -> bool {
    let key = report.client_order_id@;
    if before.prefix.is_prefix_of(key) && before.orders.contains_key(key) {
        let row = before.orders[key];
        let order = order_after_ws(row.order, report);
        &&& after == before.settled(key, order, true)
        &&& told == match row.told(order) {
            Some(order) => seq![Published::Order(report.symbol@, order)],
            None => seq![],
        }
    } else {
        after == before && told.len() == 0
    }
}

/// Whether `after` and `told` are what an event does to the orders `before`.
pub open spec fn user_event(
    before: Book,
    event: UserEventStream,
    after: Book,
    told: Seq<Published>,
) -> bool {
    match event {
        UserEventStream::OutboundAccountPosition(data) => {
            &&& after == before
            &&& told == balances_told(data.balances@, data.event_time)
        },
        UserEventStream::ExecutionReport(data) => reported(before, data, after, told),
        UserEventStream::BalanceUpdate(_) => after == before && told.len() == 0,
        UserEventStream::ListStatus(_) => after == before && told.len() == 0,
    }
}

/// Takes in an event.
pub fn process_message(stream: UserEventStream, orders: &mut OrderManager) -> (r: Vec<PublishEvent>)
    requires
        old(orders).wf(),
        stream.wf(),
    ensures
        final(orders).wf(),
        user_event(old(orders)@, stream, final(orders)@, published(r@)),
{
    let mut out: Vec<PublishEvent> = Vec::new();
    match stream {
        UserEventStream::OutboundAccountPosition(data) => {
            let exch_ts = to_nanos(data.event_time);
            let ghost all = data.balances@;
            let mut i: usize = 0;
            while i < data.balances.len()
                invariant
                    i <= data.balances@.len(),
                    all == data.balances@,
                    exch_ts == data.event_time * 1_000_000,
                    out@.len() == i,
                    forall|k: int|
                        0 <= k < i ==> (#[trigger] out@[k])@ == Published::Position(
                            all[k].asset@,
                            all[k].free as int,
                            exch_ts,
                        ),
                decreases data.balances.len() - i,
            {
                out.push(
                    PublishEvent::LiveEvent(
                        LiveEvent::Position {
                            symbol: data.balances[i].asset.clone(),
                            qty: data.balances[i].free,
                            exch_ts,
                        },
                    ),
                );
                i += 1;
            }
            assert(published(out@) =~= balances_told(all, data.event_time));
        },
        UserEventStream::BalanceUpdate(_) => {},
        UserEventStream::ExecutionReport(data) => {
            let r = orders.update_from_ws(&data);
            if let Ok(Some(order)) = r {
                out.push(
                    PublishEvent::LiveEvent(LiveEvent::Order { symbol: data.symbol.clone(), order }),
                );
                assert(published(out@) =~= seq![Published::Order(data.symbol@, order)]);
            } else {
                assert(published(out@) =~= seq![]);
            }
        },
        UserEventStream::ListStatus(_) => {},
    }
    out
}

/// Whether `text` is the request to log on.
pub open spec fn logs_on(
    text: Seq<char>,
    id: Seq<char>,
    api_key: Seq<char>,
    signature: Seq<char>,
    timestamp: u64,
) -> bool {
    exists|req: SignRequest|
        text == #[trigger] req.json() && req.id@ == id && req.method@ == "session.logon"@
            && req.params.api_key@ == api_key && req.params.signature is Some
            && req.params.signature->0@ == signature && req.params.timestamp == timestamp
}

/// The request to log on: the signature is that of the payload of its parameters.
pub fn logon_message(id: String, api_key: String, signature: String, timestamp: u64) -> (s: String)
    ensures
        logs_on(s@, id@, api_key@, signature@, timestamp),
{
    let req = SignRequest {
        id,
        method: "session.logon".to_owned(),
        params: SignParams { api_key, signature: Some(signature), timestamp },
    };
    req.to_json()
}

/// The text that the signature of a logon is made of.
pub open spec fn logon_chars(api_key: Seq<char>, timestamp: u64) -> Seq<char> {
    "apiKey="@ + api_key + "&timestamp="@ + nat_chars(timestamp as nat)
}

/// The text that the signature of a logon is made of.
pub fn logon_payload(api_key: String, timestamp: u64) -> (s: String)
    ensures
        s@ == logon_chars(api_key@, timestamp),
{
    SignParams { api_key, signature: None, timestamp }.payload()
}

/// What a [`UserDataStream`] holds: the identifiers of the requests that wait for an answer, and
/// whether user data is subscribed to.
pub struct UserView {
    pub pending: Set<Seq<char>>,
    pub subscribed: bool,
}

/// A connection of the user-data stream.
#[derive(Debug)]
pub struct UserDataStream {
    pending: TextSet,
    subscribed: bool,
}

impl View for UserDataStream {
    type V = UserView;

    closed spec fn view(&self) -> UserView {
        UserView { pending: self.pending@, subscribed: self.subscribed }
    }
}

/// What a connection of the user-data stream does next.
#[derive(Debug)]
pub enum UserAction {
    /// Publish events and go on.
    Continue(Vec<PublishEvent>),
    /// Send a text and go on.
    Send(String),
    /// Answer a ping, take the time of it, and go on.
    Pong,
    /// Hand the outcome of a request to whoever waits for it, and go on.
    Resolve(String, WsApiOrderResult),
    /// Let whoever waits for a request know that no answer will come, and go on.
    Drop(String),
    /// Let orders through the session, sweep the symbols, and go on.
    Ready(Vec<String>),
    /// Sweep a symbol and go on.
    Sweep(String),
    /// End without an error.
    Finish,
    /// End with an error.
    Fail(BinanceSpotError),
}

impl UserAction {
    /// Whether the connection goes on and nothing else is done.
    pub open spec fn idle(self) -> bool {
        self is Continue && self->Continue_0@.len() == 0
    }
}

/// Whether `text` is the request to subscribe to user data.
pub open spec fn subscribes(text: Seq<char>, id: Seq<char>) -> bool {
    exists|req: UserStreamSubscribeRequest|
        text == #[trigger] req.json() && req.id@ == id && req.method@
            == "userDataStream.subscribe"@
}

/// Whether `swept` are the symbols whose sweep starts, where those `before` are being swept
/// already and `after` are then.
pub open spec fn sweeps(
    symbols: Set<Seq<char>>,
    before: Set<Seq<char>>,
    swept: Seq<String>,
    after: Set<Seq<char>>,
) -> bool {
    &&& distinct(swept)
    &&& forall|s: Seq<char>| #[trigger]
        holds(swept, s) <==> symbols.contains(s) && !before.contains(s)
    &&& after == before.union(symbols)
}

/// What the parts of a user-data connection hold.
pub struct UserState {
    pub stream: UserView,
    pub orders: Book,
    pub inflight: Set<Seq<char>>,
}

/// Whether `r` and `after` are what a frame does.
pub open spec fn user_framed(
    before: UserState,
    frame: UserStream,
    id: Seq<char>,
    symbols: Set<Seq<char>>,
    after: UserState,
    r: UserAction,
) -> bool {
    match frame {
        UserStream::EventStream(e) => {
            &&& r is Continue
            &&& user_event(before.orders, e.event, after.orders, published(r->Continue_0@))
            &&& after == UserState { orders: after.orders, ..before }
        },
        UserStream::AuthResponse(resp) => {
            &&& after == before
            &&& if resp.status == 200 {
                r is Send && subscribes(r->Send_0@, id)
            } else {
                r == UserAction::Fail(BinanceSpotError::ConnectionInterrupted)
            }
        },
        UserStream::SubscribeResponse(resp) => if resp.status == 200 {
            &&& r is Ready
            &&& sweeps(symbols, before.inflight, r->Ready_0@, after.inflight)
            &&& after == UserState {
                stream: UserView { subscribed: true, ..before.stream },
                inflight: after.inflight,
                ..before
            }
        } else {
            after == before && r == UserAction::Fail(BinanceSpotError::ConnectionInterrupted)
        },
    }
}

/// Whether a frame answers a request that waits for it.
pub open spec fn answers(stream: UserView, text: Seq<char>) -> bool {
    frame_id(text) is Some && stream.pending.contains(frame_id(text)->0)
}

/// Whether `r` and `after` are what a text does. An answer to a request is handed to whoever waits
/// for it, or dropped where it cannot be read; any other text is a frame, or is ignored.
pub open spec fn user_text(
    before: UserState,
    text: Seq<char>,
    id: Seq<char>,
    symbols: Set<Seq<char>>,
    after: UserState,
    r: UserAction,
) -> bool {
    if answers(before.stream, text) {
        let key = frame_id(text)->0;
        &&& after == UserState {
            stream: UserView { pending: before.stream.pending.remove(key), ..before.stream },
            ..before
        }
        &&& if WsApiOrderResponse::shape(text) {
            &&& r is Resolve
            &&& r->Resolve_0@ == key
            &&& r->Resolve_1.wf()
            &&& exists|resp: WsApiOrderResponse| #[trigger]
                resp.reads(text) && resp.says(r->Resolve_1)
        } else {
            r is Drop && r->Drop_0@ == key
        }
    } else if UserStream::shape(text) {
        exists|frame: UserStream| #[trigger]
            frame.reads(text) && user_framed(before, frame, id, symbols, after, r)
    } else {
        after == before && r.idle()
    }
}

/// The state of the parts.
pub open spec fn user_state(
    stream: UserDataStream,
    orders: OrderManager,
    inflight: TextSet,
) -> UserState {
    UserState { stream: stream@, orders: orders@, inflight: inflight@ }
}

/// Whether `r` and `after` are what the socket does.
pub open spec fn user_socket(
    before: UserState,
    event: SocketEvent,
    id: Seq<char>,
    symbols: Set<Seq<char>>,
    after: UserState,
    r: UserAction,
) -> bool {
    match event {
        SocketEvent::Text(text) => user_text(before, text@, id, symbols, after, r),
        SocketEvent::Ping => after == before && r is Pong,
        SocketEvent::Close(frame) => {
            &&& after == before
            &&& r is Fail
            &&& r->Fail_0 is ConnectionAbort
            &&& r->Fail_0->ConnectionAbort_0@ == match frame {
                Some(text) => text@,
                None => ""@,
            }
        },
        SocketEvent::Other => after == before && r.idle(),
        SocketEvent::Failed(error) => after == before && r == UserAction::Fail(error),
        SocketEvent::Ended => after == before && r == UserAction::Fail(
            BinanceSpotError::ConnectionInterrupted,
        ),
    }
}

/// Whether `r` and `after` are what a tick of the timer does to the connection `before`.
pub open spec fn ticked(
    before: UserView,
    elapsed: u128,
    abandoned: Seq<String>,
    after: UserView,
    r: UserAction,
) -> bool {
    if elapsed > PING_TIMEOUT_NANOS {
        &&& r == UserAction::Fail(BinanceSpotError::ConnectionInterrupted)
        &&& after == before
    } else {
        &&& r.idle()
        &&& after.subscribed == before.subscribed
        &&& forall|id: Seq<char>| #[trigger]
            after.pending.contains(id) <==> before.pending.contains(id) && !holds(abandoned, id)
    }
}

/// Whether `r` and `after` are what a request to place or cancel an order does to the connection
/// `before`.
pub open spec fn commanded(
    before: UserView,
    cmd: WsApiCommand,
    abandoned: bool,
    after: UserView,
    r: UserAction,
) -> bool {
    if abandoned {
        after == before && r.idle()
    } else {
        &&& after == (UserView { pending: before.pending.insert(cmd.id@), ..before })
        &&& r == UserAction::Send(cmd.text)
    }
}

/// Whether `r` and `after` are what the wish to sweep a symbol does, where the symbols `before` are
/// being swept.
pub open spec fn wished(
    stream: UserView,
    before: Set<Seq<char>>,
    symbol: String,
    after: Set<Seq<char>>,
    r: UserAction,
) -> bool {
    if stream.subscribed && !before.contains(symbol@) {
        r == UserAction::Sweep(symbol) && after == before.insert(symbol@)
    } else {
        r.idle() && after == before
    }
}

/// Starts the sweep of a symbol, and tells whether it starts: it does not where the symbol is being
/// swept already.
pub fn spawn_reconcile(inflight: &mut TextSet, symbol: &str) -> (r: bool)
    requires
        old(inflight).wf(),
    ensures
        final(inflight).wf(),
        final(inflight)@ == old(inflight)@.insert(symbol@),
        r == !old(inflight)@.contains(symbol@),
{
    inflight.insert(symbol)
}

/// Ends the sweep of a symbol.
pub fn reconcile_done(inflight: &mut TextSet, symbol: &str)
    requires
        old(inflight).wf(),
    ensures
        final(inflight).wf(),
        final(inflight)@ == old(inflight)@.remove(symbol@),
{
    let _ = inflight.remove(symbol);
}

impl UserDataStream {
    /// What holds of every connection.
    pub closed spec fn wf(self) -> bool {
        self.pending.wf()
    }

    /// A connection that has not logged on yet.
    pub fn new() -> (s: UserDataStream)
        ensures
            s.wf(),
            s@.pending == Set::<Seq<char>>::empty(),
            !s@.subscribed,
    {
        UserDataStream { pending: TextSet::new(), subscribed: false }
    }

    /// Takes in a tick of the timer, so many nanoseconds after the last ping. The requests that
    /// nobody waits for any more are forgotten.
    pub fn on_tick(&mut self, elapsed: u128, abandoned: &Vec<String>) -> (r: UserAction)
        requires
            old(self).wf(),
        ensures
            final(self).wf(),
            ticked(old(self)@, elapsed, abandoned@, final(self)@, r),
    {
        if timed_out(elapsed) {
            return UserAction::Fail(BinanceSpotError::ConnectionInterrupted);
        }
        let ghost before = self@;
        let mut i: usize = 0;
        while i < abandoned.len()
            invariant
                i <= abandoned@.len(),
                self.wf(),
                self@.subscribed == before.subscribed,
                forall|id: Seq<char>| #[trigger]
                    self@.pending.contains(id) <==> before.pending.contains(id) && !holds(
                        abandoned@.take(i as int),
                        id,
                    ),
            decreases abandoned.len() - i,
        {
            let ghost here = self@;
            let _ = self.pending.remove(abandoned[i].as_str());
            proof {
                let now = abandoned@.take(i + 1);
                assert(now[i as int] == abandoned@[i as int]);
                assert forall|id: Seq<char>| #[trigger]
                    self@.pending.contains(id) <==> before.pending.contains(id) && !holds(
                        now,
                        id,
                    ) by {
                    if holds(abandoned@.take(i as int), id) {
                        let k = choose|k: int|
                            0 <= k < i && (#[trigger] abandoned@.take(i as int)[k])@ == id;
                        assert(now[k]@ == id);
                    }
                    if holds(now, id) {
                        let k = choose|k: int| 0 <= k < i + 1 && (#[trigger] now[k])@ == id;
                        if k < i {
                            assert(abandoned@.take(i as int)[k]@ == id);
                        }
                    }
                    assert(here.pending.contains(id) <==> before.pending.contains(id) && !holds(
                        abandoned@.take(i as int),
                        id,
                    ));
                }
            }
            i += 1;
        }
        assert(abandoned@.take(i as int) =~= abandoned@);
        UserAction::Continue(Vec::new())
    }

    /// Takes in a request to place or cancel an order. One that nobody waits for any more is not
    /// sent.
    pub fn on_command(&mut self, cmd: WsApiCommand, abandoned: bool) -> (r: UserAction)
        requires
            old(self).wf(),
        ensures
            final(self).wf(),
            commanded(old(self)@, cmd, abandoned, final(self)@, r),
    {
        if abandoned {
            return UserAction::Continue(Vec::new());
        }
        let _ = self.pending.insert(cmd.id.as_str());
        UserAction::Send(cmd.text)
    }

    /// Takes in the wish to sweep a symbol. Before user data is subscribed to it is ignored, as
    /// each registered symbol is swept then.
    pub fn on_reconcile(&self, symbol: String, inflight: &mut TextSet) -> (r: UserAction)
        requires
            old(inflight).wf(),
        ensures
            final(inflight).wf(),
            wished(self@, old(inflight)@, symbol, final(inflight)@, r),
    {
        if self.subscribed {
            let ghost before = inflight@;
            if spawn_reconcile(inflight, symbol.as_str()) {
                return UserAction::Sweep(symbol);
            }
            assert(inflight@ =~= before);
        }
        UserAction::Continue(Vec::new())
    }

    /// Takes in that wishes to sweep were missed.
    pub fn on_missed(&self) -> (r: UserAction)
        ensures
            r.idle(),
    {
        UserAction::Continue(Vec::new())
    }

    /// Takes in that no wish to sweep will come any more.
    pub fn on_closed(&self) -> (r: UserAction)
        ensures
            r is Finish,
    {
        UserAction::Finish
    }

    /// Takes in a frame. The identifier is for the request that may follow.
    pub fn on_frame(
        &mut self,
        frame: UserStream,
        id: String,
        orders: &mut OrderManager,
        symbols: &TextSet,
        inflight: &mut TextSet,
    ) -> (r: UserAction)
        requires
            old(self).wf(),
            frame.wf(),
            old(orders).wf(),
            symbols.wf(),
            old(inflight).wf(),
        ensures
            final(self).wf(),
            final(orders).wf(),
            final(inflight).wf(),
            user_framed(
                user_state(*old(self), *old(orders), *old(inflight)),
                frame,
                id@,
                symbols@,
                user_state(*final(self), *final(orders), *final(inflight)),
                r,
            ),
    {
        match frame {
            UserStream::EventStream(e) => UserAction::Continue(process_message(e.event, orders)),
            UserStream::AuthResponse(resp) => {
                if resp.status == 200 {
                    let req = UserStreamSubscribeRequest {
                        id,
                        method: "userDataStream.subscribe".to_owned(),
                    };
                    let text = req.to_json();
                    assert(text@ == req.json());
                    UserAction::Send(text)
                } else {
                    UserAction::Fail(BinanceSpotError::ConnectionInterrupted)
                }
            },
            UserStream::SubscribeResponse(resp) => {
                if resp.status == 200 {
                    self.subscribed = true;
                    UserAction::Ready(start_sweeps(symbols, inflight))
                } else {
                    UserAction::Fail(BinanceSpotError::ConnectionInterrupted)
                }
            },
        }
    }

    /// Takes in a text. The identifier is for the request that may follow.
    pub fn on_text(
        &mut self,
        text: String,
        id: String,
        orders: &mut OrderManager,
        symbols: &TextSet,
        inflight: &mut TextSet,
    ) -> (r: UserAction)
        requires
            old(self).wf(),
            old(orders).wf(),
            symbols.wf(),
            old(inflight).wf(),
        ensures
            final(self).wf(),
            final(orders).wf(),
            final(inflight).wf(),
            user_text(
                user_state(*old(self), *old(orders), *old(inflight)),
                text@,
                id@,
                symbols@,
                user_state(*final(self), *final(orders), *final(inflight)),
                r,
            ),
    {
        if let Some(key) = ws_api_response_id(text.as_str(), &self.pending) {
            let _ = self.pending.remove(key.as_str());
            return match from_text::<WsApiOrderResponse>(text.as_str()) {
                Some(resp) => {
                    let ghost read = resp;
                    let result = resp.into_result();
                    assert(read.reads(text@) && read.says(result));
                    UserAction::Resolve(key, result)
                },
                None => UserAction::Drop(key),
            };
        }
        match from_text::<UserStream>(text.as_str()) {
            Some(frame) => {
                let ghost read = frame;
                let r = self.on_frame(frame, id, orders, symbols, inflight);
                assert(read.reads(text@));
                r
            },
            None => UserAction::Continue(Vec::new()),
        }
    }

    /// Takes in what the socket delivered. The identifier is for the request that may follow.
    pub fn on_socket(
        &mut self,
        event: SocketEvent,
        id: String,
        orders: &mut OrderManager,
        symbols: &TextSet,
        inflight: &mut TextSet,
    ) -> (r: UserAction)
        requires
            old(self).wf(),
            old(orders).wf(),
            symbols.wf(),
            old(inflight).wf(),
        ensures
            final(self).wf(),
            final(orders).wf(),
            final(inflight).wf(),
            user_socket(
                user_state(*old(self), *old(orders), *old(inflight)),
                event,
                id@,
                symbols@,
                user_state(*final(self), *final(orders), *final(inflight)),
                r,
            ),
    {
        match event {
            SocketEvent::Text(text) => self.on_text(text, id, orders, symbols, inflight),
            SocketEvent::Ping => UserAction::Pong,
            SocketEvent::Close(frame) => UserAction::Fail(
                BinanceSpotError::ConnectionAbort(
                    match frame {
                        Some(text) => text,
                        None => "".to_owned(),
                    },
                ),
            ),
            SocketEvent::Other => UserAction::Continue(Vec::new()),
            SocketEvent::Failed(error) => UserAction::Fail(error),
            SocketEvent::Ended => UserAction::Fail(BinanceSpotError::ConnectionInterrupted),
        }
    }
}

/// Starts the sweep of every symbol that is not being swept already.
fn start_sweeps(symbols: &TextSet, inflight: &mut TextSet) -> (r: Vec<String>)
    requires
        symbols.wf(),
        old(inflight).wf(),
    ensures
        final(inflight).wf(),
        sweeps(symbols@, old(inflight)@, r@, final(inflight)@),
{
    let ghost before = inflight@;
    let all = symbols.items();
    let mut out: Vec<String> = Vec::new();
    let mut i: usize = 0;
    while i < all.len()
        invariant
            i <= all@.len(),
            inflight.wf(),
            distinct(all@),
            distinct(out@),
            forall|s: Seq<char>| #[trigger]
                inflight@.contains(s) <==> before.contains(s) || holds(all@.take(i as int), s),
            forall|s: Seq<char>| #[trigger]
                holds(out@, s) <==> holds(all@.take(i as int), s) && !before.contains(s),
        decreases all.len() - i,
    {
        let ghost told = out@;
        let ghost seen = all@.take(i as int);
        let ghost key = all@[i as int]@;
        let symbol = all[i].clone();
        proof {
            lemma_holds_next(all@, i as int);
            if holds(seen, key) {
                let k = choose|k: int| 0 <= k < seen.len() && (#[trigger] seen[k])@ == key;
                assert(all@[k]@ != all@[i as int]@);
            }
        }
        if spawn_reconcile(inflight, symbol.as_str()) {
            out.push(symbol);
            proof {
                lemma_holds_push(told, symbol);
                assert forall|a: int, b: int| 0 <= a < b < out@.len() implies (
                #[trigger] out@[a])@ != (#[trigger] out@[b])@ by {
                    if b == told.len() {
                        assert(holds(told, told[a]@));
                    }
                }
            }
        }
        i += 1;
    }
    proof {
        assert(all@.take(i as int) =~= all@);
        assert(inflight@ =~= before.union(symbols@));
    }
    out
}

/// One item more is among the first `n + 1`.
proof fn lemma_holds_next(items: Seq<String>, n: int)
    requires
        0 <= n < items.len(),
    ensures
        forall|k: Seq<char>|
            #![trigger holds(items.take(n + 1), k)]
            #![trigger holds(items.take(n), k)]
            holds(items.take(n + 1), k) <==> holds(items.take(n), k) || k == items[n]@,
{
    assert(items.take(n + 1) =~= items.take(n).push(items[n]));
    lemma_holds_push(items.take(n), items[n]);
}

/// What items hold after one more.
proof fn lemma_holds_push(items: Seq<String>, s: String)
    ensures
        forall|k: Seq<char>|
            #![trigger holds(items.push(s), k)]
            #![trigger holds(items, k)]
            holds(items.push(s), k) <==> holds(items, k) || k == s@,
{
    assert forall|k: Seq<char>| #[trigger]
        holds(items.push(s), k) <==> holds(items, k) || k == s@ by {
        if holds(items, k) {
            let i = choose|i: int| 0 <= i < items.len() && (#[trigger] items[i])@ == k;
            assert(items.push(s)[i]@ == k);
        }
        if k == s@ {
            assert(items.push(s)[items.len() as int]@ == k);
        }
        if holds(items.push(s), k) {
            let i = choose|i: int|
                0 <= i < items.push(s).len() && (#[trigger] items.push(s)[i])@ == k;
            if i < items.len() {
                assert(items[i]@ == k);
            }
        }
    }
}

/// Records that all orders of a symbol were canceled at the exchange, and tells of each that no
/// channel had told to be done. The clock of the system is read for each.
pub fn cancel_all(orders: &mut OrderManager, symbol: &str) -> (r: Vec<PublishEvent>)
    requires
        old(orders).wf(),
    ensures
        final(orders).wf(),
        exists|at: Map<Seq<char>, i64>| #[trigger]
            canceled_all(old(orders)@, symbol@, at, final(orders)@, published(r@)),
{
    let times = orders.times();
    cancel_all_at(orders, symbol, &times)
}

/// Whether `after` and `told` are what the cancellation of all orders of a symbol does to the orders
/// `before`, where `at` gives the time of each.
pub open spec fn canceled_all(
    before: Book,
    symbol: Seq<char>,
    at: Map<Seq<char>, i64>,
    after: Book,
    told: Seq<Published>,
) -> bool {
    &&& after == before.cleared(symbol, at)
    &&& exists|canceled: Seq<Order>|
        told == #[trigger] orders_told(symbol, canceled) && after.lists(
            |key: Seq<char>| before.open_for(symbol, key),
            canceled,
        )
}

/// Records that all orders of a symbol were canceled at the exchange, each at one of the times.
pub fn cancel_all_at(orders: &mut OrderManager, symbol: &str, times: &Vec<i64>) -> (r: Vec<
    PublishEvent,
>)
    requires
        old(orders).wf(),
        times@.len() > 0,
    ensures
        final(orders).wf(),
        exists|at: Map<Seq<char>, i64>| #[trigger]
            canceled_all(old(orders)@, symbol@, at, final(orders)@, published(r@)) && old(
                orders,
            )@.timed(symbol@, at, times@),
{
    let canceled = orders.cancel_all_from_rest_at(symbol, times);
    let ghost at = choose|at: Map<Seq<char>, i64>|
        orders@ == #[trigger] old(orders)@.cleared(symbol@, at) && old(orders)@.timed(
            symbol@,
            at,
            times@,
        );
    let mut out: Vec<PublishEvent> = Vec::new();
    let mut i: usize = 0;
    while i < canceled.len()
        invariant
            i <= canceled@.len(),
            out@.len() == i,
            forall|k: int|
                0 <= k < i ==> (#[trigger] out@[k])@ == Published::Order(symbol@, canceled@[k]),
        decreases canceled.len() - i,
    {
        out.push(
            PublishEvent::LiveEvent(
                LiveEvent::Order { symbol: symbol.to_owned(), order: canceled[i] },
            ),
        );
        i += 1;
    }
    assert(published(out@) =~= orders_told(symbol@, canceled@));
    assert(canceled_all(old(orders)@, symbol@, at, orders@, published(out@)));
    out
}

/// How often the open orders of a symbol are counted after they were canceled.
pub const SWEEP_TRIES: usize = 5;

/// How long to wait before each count, in milliseconds. The exchange takes a while to show what
/// was canceled.
pub const SWEEP_PAUSE_MILLIS: u64 = 300;

/// The number of open orders that is reported where no count succeeded.
pub const SWEEP_UNKNOWN: u32 = u32::MAX;

/// A count of open orders as it is reported.
pub open spec fn count_of(n: usize) -> u32 {
    (n as int % 0x1_0000_0000) as u32
}

/// The last count that succeeded.
pub open spec fn last_count(counts: Seq<Option<usize>>) -> u32
    decreases counts.len(),
{
    if counts.len() == 0 {
        SWEEP_UNKNOWN
    } else {
        match counts.last() {
            Some(n) => count_of(n),
            None => last_count(counts.drop_last()),
        }
    }
}

/// Whether a sweep is over: no order is left, or no more counts are made.
pub open spec fn sweep_over(counts: Seq<Option<usize>>) -> bool {
    counts.len() >= SWEEP_TRIES || (counts.len() > 0 && counts.last() is Some && count_of(
        counts.last()->0,
    ) == 0)
}

/// The number of open orders that a sweep reports after the counts so far, where none stands for a
/// count that failed; nothing while another count is to be made.
pub open spec fn sweep_told(counts: Seq<Option<usize>>) -> Option<u32> {
    if sweep_over(counts) {
        Some(last_count(counts))
    } else {
        None
    }
}

/// The number of open orders that a sweep reports after the counts so far, where none stands for a
/// count that failed; nothing while another count is to be made.
pub fn sweep_count(counts: &Vec<Option<usize>>) -> (r: Option<u32>)
    ensures
        r == sweep_told(counts@),
{
    let mut open_orders: u32 = SWEEP_UNKNOWN;
    let mut i: usize = 0;
    let mut clean = false;
    while i < counts.len()
        invariant
            i <= counts@.len(),
            open_orders == last_count(counts@.take(i as int)),
            clean == (i > 0 && counts@[i - 1] is Some && count_of(counts@[i - 1]->0) == 0),
        decreases counts.len() - i,
    {
        proof {
            let now = counts@.take(i + 1);
            assert(now.last() == counts@[i as int]);
            assert(now.drop_last() =~= counts@.take(i as int));
        }
        clean = false;
        if let Some(n) = counts[i] {
            let n: usize = n;
            open_orders = (n as u64 % 0x1_0000_0000) as u32;
            clean = open_orders == 0;
        }
        i += 1;
    }
    assert(counts@.take(i as int) =~= counts@);
    if counts.len() >= SWEEP_TRIES || clean {
        Some(open_orders)
    } else {
        None
    }
}

/// What a bot is told at the end of a sweep.
pub open spec fn sweep_reported(symbol: Seq<char>, open_orders: u32) -> Published {
    Published::Reconciled(symbol, open_orders)
}

/// What a bot is told at the end of a sweep.
pub fn sweep_report(symbol: &str, open_orders: u32) -> (e: PublishEvent)
    ensures
        e@ == sweep_reported(symbol@, open_orders),
{
    PublishEvent::LiveEvent(LiveEvent::Reconciled { symbol: symbol.to_owned(), open_orders })
}

/// What is told of the balances of an account.
pub open spec fn account_told(balances: Seq<BalanceEntry>, update_time: i64) -> Seq<Published> {
    balances.map_values(
        |b: BalanceEntry|
            Published::Position(b.asset@, b.free as int, (update_time * 1_000_000) as i64),
    )
}

/// Whether a balance is that of a symbol.
pub open spec fn has_balance(balances: Seq<BalanceEntry>, symbol: Seq<char>) -> bool {
    exists|i: int| 0 <= i < balances.len() && (#[trigger] balances[i]).asset@ == symbol
}

/// What is told of symbols that an account holds nothing of.
pub open spec fn nothing_told(symbols: Seq<String>) -> Seq<Published> {
    symbols.map_values(|s: String| Published::Position(s@, 0, 0))
}

/// Whether `told` is what is told of an account: its balances, and then, in any order, that nothing
/// is held of the registered symbols that have none.
pub open spec fn positions_told(
    balances: Seq<BalanceEntry>,
    update_time: i64,
    symbols: Set<Seq<char>>,
    told: Seq<Published>,
) -> bool {
    exists|rest: Seq<String>|
        told == account_told(balances, update_time) + #[trigger] nothing_told(rest) && distinct(
            rest,
        ) && forall|s: Seq<char>| #[trigger]
            holds(rest, s) <==> symbols.contains(s) && !has_balance(balances, s)
}

/// What is told of an account: its balances, and then, in any order, that nothing is held of the
/// registered symbols that have none.
pub fn get_position_information(account: &AccountInfomation, symbols: &TextSet) -> (r: Vec<
    PublishEvent,
>)
    requires
        account.wf(),
        symbols.wf(),
    ensures
        positions_told(account.balances@, account.update_time, symbols@, published(r@)),
{
    let exch_ts = to_nanos(account.update_time);
    let ghost balances = account.balances@;
    let mut out: Vec<PublishEvent> = Vec::new();
    let mut left = TextSet::new();
    let all = symbols.items();
    let mut a: usize = 0;
    while a < all.len()
        invariant
            a <= all@.len(),
            left.wf(),
            forall|s: Seq<char>| #[trigger] left@.contains(s) <==> holds(all@.take(a as int), s),
        decreases all.len() - a,
    {
        proof {
            lemma_holds_next(all@, a as int);
        }
        let _ = left.insert(all[a].as_str());
        a += 1;
    }
    assert(all@.take(a as int) =~= all@);
    let mut i: usize = 0;
    while i < account.balances.len()
        invariant
            i <= account.balances@.len(),
            balances == account.balances@,
            exch_ts == account.update_time * 1_000_000,
            left.wf(),
            out@.len() == i,
            forall|k: int|
                0 <= k < i ==> (#[trigger] out@[k])@ == Published::Position(
                    balances[k].asset@,
                    balances[k].free as int,
                    exch_ts,
                ),
            forall|s: Seq<char>| #[trigger]
                left@.contains(s) <==> symbols@.contains(s) && !has_balance(
                    balances.take(i as int),
                    s,
                ),
        decreases account.balances.len() - i,
    {
        let ghost here = left@;
        let _ = left.remove(account.balances[i].asset.as_str());
        out.push(
            PublishEvent::LiveEvent(
                LiveEvent::Position {
                    symbol: account.balances[i].asset.clone(),
                    qty: account.balances[i].free,
                    exch_ts,
                },
            ),
        );
        proof {
            let seen = balances.take(i as int);
            let now = balances.take(i + 1);
            assert forall|s: Seq<char>| #[trigger]
                left@.contains(s) <==> symbols@.contains(s) && !has_balance(now, s) by {
                assert(here.contains(s) <==> symbols@.contains(s) && !has_balance(seen, s));
                if has_balance(seen, s) {
                    let k = choose|k: int| 0 <= k < seen.len() && (#[trigger] seen[k]).asset@ == s;
                    assert(now[k].asset@ == s);
                }
                if has_balance(now, s) {
                    let k = choose|k: int| 0 <= k < now.len() && (#[trigger] now[k]).asset@ == s;
                    if k < i {
                        assert(seen[k].asset@ == s);
                    }
                }
                if s == balances[i as int].asset@ {
                    assert(now[i as int].asset@ == s);
                }
            }
        }
        i += 1;
    }
    assert(balances.take(i as int) =~= balances);
    assert(published(out@) =~= account_told(balances, account.update_time));
    let ghost told = out@;
    let rest = left.items();
    let mut j: usize = 0;
    while j < rest.len()
        invariant
            j <= rest@.len(),
            published(out@) == published(told) + nothing_told(rest@).take(j as int),
        decreases rest.len() - j,
    {
        let ghost here = out@;
        out.push(
            PublishEvent::LiveEvent(
                LiveEvent::Position { symbol: rest[j].clone(), qty: 0, exch_ts: 0 },
            ),
        );
        proof {
            let one = Published::Position(rest@[j as int]@, 0, 0);
            assert(nothing_told(rest@)[j as int] == one);
            assert(nothing_told(rest@).take(j + 1) =~= nothing_told(rest@).take(j as int).push(one));
            assert(published(out@) =~= published(here).push(one));
            assert(published(out@) =~= published(told) + nothing_told(rest@).take(j + 1));
        }
        j += 1;
    }
    proof {
        assert(nothing_told(rest@).take(j as int) =~= nothing_told(rest@));
        assert(published(out@) == account_told(account.balances@, account.update_time)
            + nothing_told(rest@));
    }
    out
}

/// Orders go through a session only once user data is subscribed to: a frame makes the session
/// ready only where it accepts the subscription, and only then is user data subscribed to.
pub proof fn law_ready_only_after_subscription(
    before: UserState,
    text: Seq<char>,
    id: Seq<char>,
    symbols: Set<Seq<char>>,
    after: UserState,
    r: UserAction,
)
    requires
        user_text(before, text, id, symbols, after, r),
    ensures
        r is Ready ==> {
            &&& UserStream::shape(text)
            &&& exists|frame: UserStream| #[trigger]
                frame.reads(text) && frame is SubscribeResponse
                    && frame->SubscribeResponse_0.status == 200
        },
        after.stream.subscribed != before.stream.subscribed ==> r is Ready
            && after.stream.subscribed,
        r is Ready ==> after.stream.subscribed,
{
}

/// An answer to a request is never taken for a frame, and no request is answered twice.
pub proof fn law_answers_reach_their_request_once(
    before: UserState,
    text: Seq<char>,
    id: Seq<char>,
    symbols: Set<Seq<char>>,
    after: UserState,
    r: UserAction,
)
    requires
        user_text(before, text, id, symbols, after, r),
    ensures
        answers(before.stream, text) <==> r is Resolve || r is Drop,
        answers(before.stream, text) ==> !answers(after.stream, text),
        !answers(before.stream, text) ==> after.stream.pending == before.stream.pending,
{
}

/// No symbol is swept twice at a time: the sweeps that start are those of symbols that are not
/// being swept, and starting them again starts none.
pub proof fn law_one_sweep_at_a_time(
    symbols: Set<Seq<char>>,
    before: Set<Seq<char>>,
    swept: Seq<String>,
    after: Set<Seq<char>>,
    again: Seq<String>,
    last: Set<Seq<char>>,
)
    requires
        sweeps(symbols, before, swept, after),
        sweeps(symbols, after, again, last),
    ensures
        forall|i: int| 0 <= i < swept.len() ==> !before.contains((#[trigger] swept[i])@),
        again.len() == 0,
        last == after,
{
    assert forall|i: int| 0 <= i < swept.len() implies !before.contains(
        (#[trigger] swept[i])@,
    ) by {
        assert(holds(swept, swept[i]@));
    }
    if again.len() > 0 {
        assert(holds(again, again[0]@));
    }
    assert(last =~= after);
}

/// A sweep never reports a clean market unless it was last counted to be clean: where every count
/// failed the report says so.
pub proof fn law_sweep_fails_closed(counts: Seq<Option<usize>>)
    ensures
        last_count(counts) == 0 ==> exists|i: int|
            0 <= i < counts.len() && (#[trigger] counts[i]) is Some && count_of(counts[i]->0) == 0
                && forall|k: int| i < k < counts.len() ==> (#[trigger] counts[k]) is None,
        (forall|i: int| 0 <= i < counts.len() ==> (#[trigger] counts[i]) is None) ==> last_count(
            counts,
        ) == SWEEP_UNKNOWN,
    decreases counts.len(),
{
    if counts.len() > 0 {
        let rest = counts.drop_last();
        law_sweep_fails_closed(rest);
        assert(counts.last() == counts[counts.len() - 1]);
        if counts.last() is None {
            assert(forall|i: int| 0 <= i < rest.len() ==> rest[i] == counts[i]);
            if last_count(rest) == 0 {
                let i = choose|i: int|
                    0 <= i < rest.len() && (#[trigger] rest[i]) is Some && count_of(rest[i]->0) == 0
                        && forall|k: int| i < k < rest.len() ==> (#[trigger] rest[k]) is None;
                assert(counts[i] == rest[i]);
                assert forall|k: int| i < k < counts.len() implies (
                #[trigger] counts[k]) is None by {
                    if k < rest.len() {
                        assert(rest[k] is None);
                    }
                }
            }
            if forall|i: int| 0 <= i < counts.len() ==> (#[trigger] counts[i]) is None {
                assert forall|i: int| 0 <= i < rest.len() implies (#[trigger] rest[i]) is None by {
                    assert(counts[i] is None);
                }
            }
        } else if last_count(counts) == 0 {
            let i = counts.len() - 1;
            assert(counts[i] is Some && count_of(counts[i]->0) == 0);
        }
    }
}

/// The positions of an account are those of its balances, one by one: the event at a place tells of
/// the asset of the balance at that place and of the free amount of that same balance, at the time
/// of the account, whatever the other balances are.
pub proof fn law_positions_are_those_of_their_balances(
    balances: Seq<BalanceEntry>,
    update_time: i64,
    i: int,
)
    requires
        time_fits(update_time as int),
        0 <= i < balances.len(),
    ensures
        account_told(balances, update_time).len() == balances.len(),
        account_told(balances, update_time)[i] is Position,
        account_told(balances, update_time)[i]->Position_0 == balances[i].asset@,
        account_told(balances, update_time)[i]->Position_1 == balances[i].free,
        account_told(balances, update_time)[i]->Position_2 == update_time * 1_000_000,
{
}

/// The positions that an event of the account tells of are those of its balances, one by one: the
/// asset and the free amount of the balance at the same place, at the time of the event.
pub proof fn law_told_positions_are_those_of_their_balances(
    balances: Seq<Balance>,
    event_time: i64,
    i: int,
)
    requires
        time_fits(event_time as int),
        0 <= i < balances.len(),
    ensures
        balances_told(balances, event_time).len() == balances.len(),
        balances_told(balances, event_time)[i] is Position,
        balances_told(balances, event_time)[i]->Position_0 == balances[i].asset@,
        balances_told(balances, event_time)[i]->Position_1 == balances[i].free,
        balances_told(balances, event_time)[i]->Position_2 == event_time * 1_000_000,
{
}

/// What is told of a balance does not depend on the balances around it: exchanging two balances
/// exchanges what is told of them, and changing one changes what is told of that one alone.
pub proof fn law_balances_are_told_independently(
    balances: Seq<BalanceEntry>,
    update_time: i64,
    i: int,
    j: int,
    other: BalanceEntry,
)
    requires
        0 <= i < balances.len(),
        0 <= j < balances.len(),
    ensures
        ({
            let told = account_told(balances, update_time);
            let swapped = balances.update(i, balances[j]).update(j, balances[i]);
            account_told(swapped, update_time) == told.update(i, told[j]).update(j, told[i])
        }),
        i != j ==> account_told(balances.update(j, other), update_time)[i] == account_told(
            balances,
            update_time,
        )[i],
{
    let told = account_told(balances, update_time);
    let swapped = balances.update(i, balances[j]).update(j, balances[i]);
    assert(account_told(swapped, update_time) =~= told.update(i, told[j]).update(j, told[i]));
}

/// An account is told whole: first the position of every balance, in their order; then, once each,
/// the registered symbols that have no balance, with nothing held. Whatever else is told is none.
pub proof fn law_account_is_told_whole(
    balances: Seq<BalanceEntry>,
    update_time: i64,
    symbols: Set<Seq<char>>,
    told: Seq<Published>,
    symbol: Seq<char>,
)
    requires
        time_fits(update_time as int),
        positions_told(balances, update_time, symbols, told),
    ensures
        told.len() >= balances.len(),
        forall|i: int|
            0 <= i < balances.len() ==> {
                &&& (#[trigger] told[i]) is Position
                &&& told[i]->Position_0 == balances[i].asset@
                &&& told[i]->Position_1 == balances[i].free
                &&& told[i]->Position_2 == update_time * 1_000_000
            },
        forall|i: int|
            balances.len() <= i < told.len() ==> {
                &&& (#[trigger] told[i]) is Position
                &&& told[i]->Position_1 == 0
                &&& told[i]->Position_2 == 0
                &&& symbols.contains(told[i]->Position_0)
                &&& forall|k: int|
                    0 <= k < balances.len() ==> (#[trigger] balances[k]).asset@
                        != told[i]->Position_0
            },
        forall|i: int, j: int|
            balances.len() <= i < j < told.len() ==> (#[trigger] told[i])->Position_0 != (
            #[trigger] told[j])->Position_0,
        symbols.contains(symbol) ==> exists|i: int|
            0 <= i < told.len() && (#[trigger] told[i])->Position_0 == symbol,
{
    let rest = choose|rest: Seq<String>|
        told == account_told(balances, update_time) + #[trigger] nothing_told(rest) && distinct(
            rest,
        ) && forall|s: Seq<char>| #[trigger]
            holds(rest, s) <==> symbols.contains(s) && !has_balance(balances, s);
    let n = balances.len() as int;
    assert forall|i: int| n <= i < told.len() implies {
        &&& (#[trigger] told[i]) is Position
        &&& told[i]->Position_1 == 0
        &&& told[i]->Position_2 == 0
        &&& symbols.contains(told[i]->Position_0)
        &&& forall|k: int|
            0 <= k < balances.len() ==> (#[trigger] balances[k]).asset@ != told[i]->Position_0
    } by {
        let s = rest[i - n]@;
        assert(told[i] == nothing_told(rest)[i - n]);
        assert(holds(rest, s));
        assert forall|k: int| 0 <= k < balances.len() implies (#[trigger] balances[k]).asset@
            != told[i]->Position_0 by {
            if balances[k].asset@ == s {
                assert(has_balance(balances, s));
            }
        }
    }
    assert forall|i: int, j: int| n <= i < j < told.len() implies (#[trigger] told[i])->Position_0
        != (#[trigger] told[j])->Position_0 by {
        assert(told[i] == nothing_told(rest)[i - n]);
        assert(told[j] == nothing_told(rest)[j - n]);
        assert(rest[i - n]@ != rest[j - n]@);
    }
    if symbols.contains(symbol) {
        if has_balance(balances, symbol) {
            let k = choose|k: int|
                0 <= k < balances.len() && (#[trigger] balances[k]).asset@ == symbol;
            assert(told[k]->Position_0 == symbol);
        } else {
            assert(holds(rest, symbol));
            let k = choose|k: int| 0 <= k < rest.len() && (#[trigger] rest[k])@ == symbol;
            assert(told[n + k] == nothing_told(rest)[k]);
            assert(told[n + k]->Position_0 == symbol);
        }
    }
}

/// A report of an order of this connector is recorded as what the stream told of that order alone,
/// and told, where it is told, for the symbol of the report as the order is then. A report of any
/// other order does nothing. No other event touches the orders.
pub proof fn law_reports_touch_their_order_only(
    before: Book,
    event: UserEventStream,
    after: Book,
    told: Seq<Published>,
    other: Seq<char>,
)
    requires
        event.wf(),
        user_event(before, event, after, told),
    ensures
        !(event is ExecutionReport) ==> after == before,
        event is BalanceUpdate || event is ListStatus ==> told.len() == 0,
        event is OutboundAccountPosition ==> {
            let data = event->OutboundAccountPosition_0;
            &&& told.len() == data.balances@.len()
            &&& forall|i: int|
                0 <= i < told.len() ==> {
                    &&& (#[trigger] told[i]) is Position
                    &&& told[i]->Position_0 == data.balances@[i].asset@
                    &&& told[i]->Position_1 == data.balances@[i].free
                    &&& told[i]->Position_2 == data.event_time * 1_000_000
                }
        },
        event is ExecutionReport ==> {
            let report = event->ExecutionReport_0;
            let key = report.client_order_id@;
            let mine = before.prefix.is_prefix_of(key) && before.orders.contains_key(key);
            &&& !mine ==> after == before && told.len() == 0
            &&& told.len() <= 1
            &&& other != key ==> after.orders.contains_key(other) == before.orders.contains_key(
                other,
            )
            &&& other != key && before.orders.contains_key(other) ==> after.orders[other]
                == before.orders[other]
            &&& mine && !before.orders[key].removed_by_ws && !before.orders[key].removed_by_rest
                ==> told.len() == 1
            &&& told.len() == 1 ==> {
                let o = told[0]->Order_1;
                &&& told[0] is Order
                &&& told[0]->Order_0 == report.symbol@
                &&& o.order_id == before.orders[key].order.order_id
                &&& after.orders.contains_key(key) ==> after.orders[key].order == o
                &&& report.event_time * 1_000_000 >= before.orders[key].order.exch_timestamp
                    ==> o.status == report.order_status && o.exec_qty
                    == report.order_last_filled_quantity
            }
        },
{
}

/// A logon carries its identifier, the method that logs on, the key of the account, the signature and
/// the time, each under its key.
pub proof fn law_logon_carries_the_signature(
    text: Seq<char>,
    id: Seq<char>,
    api_key: Seq<char>,
    signature: Seq<char>,
    timestamp: u64,
)
    requires
        logs_on(text, id, api_key, signature, timestamp),
    ensures
        crate::text::holds(text, written_member("id"@, quoted(id))),
        crate::text::holds(text, written_member("method"@, quoted("session.logon"@))),
        crate::text::holds(text, written_member("apiKey"@, quoted(api_key))),
        crate::text::holds(text, written_member("signature"@, quoted(signature))),
        crate::text::holds(text, written_member("timestamp"@, nat_chars(timestamp as nat))),
{
    let req = choose|req: SignRequest|
        text == #[trigger] req.json() && req.id@ == id && req.method@ == "session.logon"@
            && req.params.api_key@ == api_key && req.params.signature is Some
            && req.params.signature->0@ == signature && req.params.timestamp == timestamp;
    let data = UserDataRequest { id: req.id, method: req.method, params: req.params };
    law_signed_requests_hold_their_parameters(req, data, text, id, req.method@, req.params);
}

/// The subscription of user data carries its identifier and the method that subscribes.
pub proof fn law_subscription_carries_its_method(text: Seq<char>, id: Seq<char>)
    requires
        subscribes(text, id),
    ensures
        crate::text::holds(text, written_member("id"@, quoted(id))),
        crate::text::holds(text, written_member("method"@, quoted("userDataStream.subscribe"@))),
{
    let req = choose|req: UserStreamSubscribeRequest|
        text == #[trigger] req.json() && req.id@ == id && req.method@
            == "userDataStream.subscribe"@;
    let market = SubscribeRequest { id: req.id, method: req.method };
    law_subscriptions_hold_their_method(market, req);
}

/// A request waits for its answer from when it is sent until it is answered or nobody waits for it
/// any more: one that is sent is the text of the command and waits by its identifier, one that nobody
/// waits for is not sent, and a tick forgets the abandoned requests and no others. Whether user data
/// is subscribed to stays as it is.
pub proof fn law_requests_wait_until_abandoned(
    before: UserView,
    cmd: WsApiCommand,
    abandoned: bool,
    sent: UserView,
    first: UserAction,
    elapsed: u128,
    gone: Seq<String>,
    after: UserView,
    second: UserAction,
    id: Seq<char>,
)
    requires
        commanded(before, cmd, abandoned, sent, first),
        ticked(sent, elapsed, gone, after, second),
    ensures
        first is Send <==> !abandoned,
        first is Send ==> first->Send_0@ == cmd.text@,
        !(first is Send) ==> first is Continue && first->Continue_0@.len() == 0,
        sent.pending.contains(id) <==> before.pending.contains(id) || (!abandoned && id == cmd.id@),
        after.subscribed == before.subscribed,
        second is Fail <==> elapsed > 300_000_000_000,
        second is Fail ==> second->Fail_0 is ConnectionInterrupted,
        !(second is Fail) ==> second is Continue && second->Continue_0@.len() == 0,
        !(second is Fail) ==> (after.pending.contains(id) <==> sent.pending.contains(id)
            && forall|k: int| 0 <= k < gone.len() ==> (#[trigger] gone[k])@ != id),
        second is Fail ==> after == sent,
{
    if !(second is Fail) {
        assert(after.pending.contains(id) <==> sent.pending.contains(id) && !holds(gone, id));
        if holds(gone, id) {
            let k = choose|k: int| 0 <= k < gone.len() && (#[trigger] gone[k])@ == id;
            assert(gone[k]@ == id);
        } else {
            assert forall|k: int| 0 <= k < gone.len() implies (#[trigger] gone[k])@ != id by {
                if gone[k]@ == id {
                    assert(holds(gone, id));
                }
            }
        }
    }
}

/// A symbol is swept when that is wished for just where user data is subscribed to and it is not
/// being swept; the same wish again starts no other sweep.
pub proof fn law_wishes_sweep_once(
    stream: UserView,
    before: Set<Seq<char>>,
    symbol: String,
    after: Set<Seq<char>>,
    r: UserAction,
    last: Set<Seq<char>>,
    again: UserAction,
)
    requires
        wished(stream, before, symbol, after, r),
        wished(stream, after, symbol, last, again),
    ensures
        r is Sweep <==> stream.subscribed && !before.contains(symbol@),
        r is Sweep ==> r->Sweep_0@ == symbol@,
        !(r is Sweep) ==> r is Continue && r->Continue_0@.len() == 0,
        stream.subscribed ==> after.contains(symbol@),
        !(again is Sweep),
        last == after,
        forall|s: Seq<char>|
            s != symbol@ ==> #[trigger] after.contains(s) == before.contains(s),
{
}

/// Sweeps that start together are of every registered symbol that is not being swept, each once, and
/// from then on the registered symbols are being swept, and those that were.
pub proof fn law_every_idle_symbol_is_swept(
    symbols: Set<Seq<char>>,
    before: Set<Seq<char>>,
    swept: Seq<String>,
    after: Set<Seq<char>>,
    s: Seq<char>,
)
    requires
        sweeps(symbols, before, swept, after),
    ensures
        symbols.contains(s) && !before.contains(s) ==> exists|i: int|
            0 <= i < swept.len() && (#[trigger] swept[i])@ == s && forall|j: int|
                0 <= j < swept.len() && (#[trigger] swept[j])@ == s ==> j == i,
        forall|i: int| 0 <= i < swept.len() ==> symbols.contains((#[trigger] swept[i])@),
        after.contains(s) <==> before.contains(s) || symbols.contains(s),
{
    assert forall|i: int| 0 <= i < swept.len() implies symbols.contains(
        (#[trigger] swept[i])@,
    ) by {
        assert(holds(swept, swept[i]@));
    }
    if symbols.contains(s) && !before.contains(s) {
        assert(holds(swept, s));
        let i = choose|i: int| 0 <= i < swept.len() && (#[trigger] swept[i])@ == s;
        assert forall|j: int| 0 <= j < swept.len() && (#[trigger] swept[j])@ == s implies j == i by {
            assert(j < i ==> swept[j]@ != swept[i]@);
            assert(i < j ==> swept[i]@ != swept[j]@);
        }
    }
}

/// What a frame makes of a connection: one that accepts the logon is followed by the subscription,
/// one that accepts the subscription makes the session ready, and one that refuses either ends the
/// connection. Frames touch no request that waits, and only events touch the orders.
pub proof fn law_frames_lead_to_the_session(
    before: UserState,
    frame: UserStream,
    id: Seq<char>,
    symbols: Set<Seq<char>>,
    after: UserState,
    r: UserAction,
)
    requires
        user_framed(before, frame, id, symbols, after, r),
    ensures
        after.stream.pending == before.stream.pending,
        !(frame is EventStream) ==> after.orders == before.orders,
        !(frame is SubscribeResponse) ==> after.inflight == before.inflight,
        after.stream.subscribed <==> before.stream.subscribed || (frame is SubscribeResponse
            && frame->SubscribeResponse_0.status == 200),
        r is Send <==> frame is AuthResponse && frame->AuthResponse_0.status == 200,
        r is Send ==> subscribes(r->Send_0@, id),
        r is Ready <==> frame is SubscribeResponse && frame->SubscribeResponse_0.status == 200,
        r is Ready ==> sweeps(symbols, before.inflight, r->Ready_0@, after.inflight),
        r is Fail <==> (frame is AuthResponse && frame->AuthResponse_0.status != 200) || (
        frame is SubscribeResponse && frame->SubscribeResponse_0.status != 200),
        r is Fail ==> r->Fail_0 is ConnectionInterrupted && after == before,
        r is Continue <==> frame is EventStream,
{
}

/// An answer goes, by its identifier, to the request that waits for it, which then waits no longer;
/// the other requests wait on. What it came to is what the answer says, and where it cannot be read
/// whoever waits is let know. Nothing else changes.
pub proof fn law_answers_go_to_their_request(
    before: UserState,
    text: Seq<char>,
    id: Seq<char>,
    symbols: Set<Seq<char>>,
    after: UserState,
    r: UserAction,
    other: Seq<char>,
)
    requires
        user_text(before, text, id, symbols, after, r),
        frame_id(text) is Some,
        before.stream.pending.contains(frame_id(text)->0),
    ensures
        r is Resolve <==> WsApiOrderResponse::shape(text),
        r is Drop <==> !WsApiOrderResponse::shape(text),
        r is Resolve ==> r->Resolve_0@ == frame_id(text)->0,
        r is Resolve ==> exists|resp: WsApiOrderResponse| #[trigger]
            resp.reads(text) && resp.says(r->Resolve_1),
        r is Drop ==> r->Drop_0@ == frame_id(text)->0,
        !after.stream.pending.contains(frame_id(text)->0),
        other != frame_id(text)->0 ==> after.stream.pending.contains(other)
            == before.stream.pending.contains(other),
        after.stream.subscribed == before.stream.subscribed,
        after.orders == before.orders,
        after.inflight == before.inflight,
{
}

/// The socket ends a connection only where the other side closed it, with its reason, where it
/// failed, with that error, and where it ended; a ping is answered; and nothing but a text changes
/// anything.
pub proof fn law_socket_ends_for_a_reason(
    before: UserState,
    event: SocketEvent,
    id: Seq<char>,
    symbols: Set<Seq<char>>,
    after: UserState,
    r: UserAction,
)
    requires
        user_socket(before, event, id, symbols, after, r),
    ensures
        !(event is Text) ==> after == before,
        r is Pong <==> event is Ping,
        event is Close || event is Failed || event is Ended ==> r is Fail,
        event is Failed ==> r->Fail_0 == event->Failed_0,
        event is Ended ==> r->Fail_0 is ConnectionInterrupted,
        event is Close ==> r->Fail_0 is ConnectionAbort,
        event is Close && event->Close_0 is Some ==> r->Fail_0->ConnectionAbort_0@
            == event->Close_0->0@,
        event is Close && event->Close_0 is None ==> r->Fail_0->ConnectionAbort_0@.len() == 0,
        event is Other ==> r is Continue && r->Continue_0@.len() == 0,
        !(r is Finish),
        !(r is Sweep),
{
    reveal_strlit("");
}

/// Where all orders of a symbol were canceled, a bot is told once of each that was open, for the
/// symbol, as canceled and with its quantities as they were, and of no other.
pub proof fn law_cancel_all_tells_every_open_order(
    before: Book,
    symbol: Seq<char>,
    at: Map<Seq<char>, i64>,
    after: Book,
    told: Seq<Published>,
    key: Seq<char>,
)
    requires
        before.valid(),
        canceled_all(before, symbol, at, after, told),
    ensures
        forall|i: int|
            0 <= i < told.len() ==> {
                &&& (#[trigger] told[i]) is Order
                &&& told[i]->Order_0 == symbol
                &&& told[i]->Order_1.status is Canceled
            },
        before.open_for(symbol, key) ==> exists|i: int|
            0 <= i < told.len() && {
                let o = (#[trigger] told[i])->Order_1;
                &&& o.order_id == before.orders[key].order.order_id
                &&& o.qty == before.orders[key].order.qty
                &&& o.leaves_qty == before.orders[key].order.leaves_qty
                &&& o.exch_timestamp == at[key]
            },
        exists|keys: Seq<Seq<char>>|
            keys.len() == told.len() && keys.no_duplicates() && forall|k: Seq<char>| #[trigger]
                keys.contains(k) <==> before.open_for(symbol, k),
{
    let pick = |key: Seq<char>| before.open_for(symbol, key);
    let canceled = choose|canceled: Seq<Order>|
        told == #[trigger] orders_told(symbol, canceled) && after.lists(pick, canceled);
    let keys = choose|keys: Seq<Seq<char>>| #[trigger] after.lists_as(pick, keys, canceled);
    assert forall|i: int| 0 <= i < told.len() implies {
        &&& (#[trigger] told[i]) is Order
        &&& told[i]->Order_0 == symbol
        &&& told[i]->Order_1.status is Canceled
    } by {
        assert(pick(keys[i]));
        assert(told[i] == Published::Order(symbol, canceled[i]));
        assert(after.orders.contains_key(keys[i]));
        assert(canceled[i] == after.orders[keys[i]].order);
    }
    if before.open_for(symbol, key) {
        assert(after.orders.contains_key(key) && pick(key));
        assert(keys.contains(key));
        let i = choose|i: int| 0 <= i < keys.len() && keys[i] == key;
        assert(told[i] == Published::Order(symbol, canceled[i]));
        assert(canceled[i] == after.orders[key].order);
    }
    assert forall|k: Seq<char>| #[trigger] keys.contains(k) <==> before.open_for(symbol, k) by {
        if keys.contains(k) {
            let i = choose|i: int| 0 <= i < keys.len() && keys[i] == k;
            assert(pick(keys[i]));
        }
        if before.open_for(symbol, k) {
            assert(after.orders.contains_key(k) && pick(k));
        }
    }
}

/// A sweep reports the last count that succeeded, modulo what the report can hold, whatever was
/// counted before it; it is over after five counts, or as soon as the last count was that no order is
/// left.
pub proof fn law_sweep_reports_the_last_count(counts: Seq<Option<usize>>, n: usize)
    ensures
        last_count(counts.push(Some(n))) == n as int % 4_294_967_296,
        n < 4_294_967_296 ==> last_count(counts.push(Some(n))) == n,
        last_count(counts.push(None)) == last_count(counts),
        last_count(seq![]) == 4_294_967_295,
        counts.len() < 5 ==> !sweep_over(counts.push(None)) || counts.len() == 4,
        counts.len() >= 5 ==> sweep_over(counts),
        !sweep_over(seq![]),
        counts.len() < 4 ==> (sweep_over(counts.push(Some(n))) <==> n as int % 4_294_967_296 == 0),
        counts.len() == 4 ==> sweep_over(counts.push(Some(n))) && sweep_over(counts.push(None)),
{
    assert(counts.push(Some(n)).last() == Some(n));
    assert(counts.push(None).last() == None::<usize>);
    assert(counts.push(None).drop_last() =~= counts);
    assert(counts.push(Some(n)).drop_last() =~= counts);
}

/// What signs a logon is what its parameters are signed by, so that the key and the time that are sent
/// are those that are signed.
pub proof fn law_logon_signs_what_it_sends(p: SignParams)
    ensures
        logon_chars(p.api_key@, p.timestamp) == p.payload_chars(),
        ("apiKey="@ + p.api_key@).is_prefix_of(logon_chars(p.api_key@, p.timestamp)),
{
    law_logon_payload_is_signed_first(p, p);
}

/// A sweep reports nothing before it is over, and then the last count that succeeded, for its symbol:
/// that no order is left as soon as that is counted, and after five counts whatever was counted last.
pub proof fn law_sweep_reports_when_it_is_over(
    counts: Seq<Option<usize>>,
    n: usize,
    symbol: Seq<char>,
)
    ensures
        counts.len() == 0 ==> sweep_told(counts) is None,
        counts.len() < 5 && n == 0 ==> sweep_told(counts.push(Some(n))) == Some(0u32),
        counts.len() < 4 && 0 < n < 4_294_967_296 ==> sweep_told(counts.push(Some(n))) is None,
        counts.len() < 4 ==> sweep_told(counts.push(None)) is None,
        counts.len() == 4 && n < 4_294_967_296 ==> sweep_told(counts.push(Some(n))) == Some(
            n as u32,
        ),
        counts.len() == 4 ==> sweep_told(counts.push(None)) == Some(last_count(counts)),
        sweep_reported(symbol, 0) is Reconciled,
        n < 4_294_967_296 ==> sweep_reported(symbol, n as u32)->Reconciled_0 == symbol
            && sweep_reported(symbol, n as u32)->Reconciled_1 == n,
{
    law_sweep_reports_the_last_count(counts, n);
    assert(counts.push(Some(n)).last() == Some(n));
    assert(counts.push(None).last() == None::<usize>);
}

} // verus!
