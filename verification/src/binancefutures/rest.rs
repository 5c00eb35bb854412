//! Requests to the REST interface, and the limit on their rate.

use vstd::prelude::*;
use vstd::string::*;
use crate::binancespot::msg::{law_names_read_back, side_named, tif_named, type_named};
use crate::clock::utc_millis;
use crate::decimal::in_range;
use crate::double::{fixed_chars, fixed_text};
use crate::text::{
    holds, i64_text, int_chars, join, joined, law_joined_goes_on, lemma_holds_more,
    lemma_holds_three, lemma_holds_within, lemma_joined_holds, texts,
};
use crate::types::{OrdType, Side, TimeInForce};
use super::BinanceFuturesError;

verus! {

/// How many requests a second are let through in the long run.
pub const RL_RATE_PER_S: u32 = 20;

/// How many requests are let through at once.
pub const RL_BURST: u32 = 40;

/// A token, in the billionths that tokens are counted in.
pub const TOKEN: u128 = 1_000_000_000;

/// A bucket of tokens that fills at a steady rate, in tokens a second, up to its capacity. Times
/// are nanoseconds from some start.
#[derive(Debug)]
pub struct TokenBucket {
    rate: u32,
    capacity: u32,
    tokens: u128,
    last: u64,
}

/// What a [`TokenBucket`] holds.
pub struct Bucket {
    pub rate: int,
    pub capacity: int,
    pub tokens: int,
    pub last: int,
}

impl View for TokenBucket {
    type V = Bucket;

    closed spec fn view(&self) -> Bucket {
        Bucket {
            rate: self.rate as int,
            capacity: self.capacity * TOKEN,
            tokens: self.tokens as int,
            last: self.last as int,
        }
    }
}

impl Bucket {
    /// What holds of every bucket: it fills, and never holds more than its capacity.
    pub open spec fn valid(self) -> bool {
        &&& self.rate > 0
        &&& 0 <= self.tokens <= self.capacity
    }

    /// The bucket filled up to a time. A time that has passed changes nothing.
    pub open spec fn refilled(self, now: int) -> Bucket {
        if now > self.last {
            let tokens = self.tokens + (now - self.last) * self.rate;
            Bucket {
                tokens: if tokens < self.capacity {
                    tokens
                } else {
                    self.capacity
                },
                last: now,
                ..self
            }
        } else {
            self
        }
    }

    /// Whether a token can be taken at a time.
    pub open spec fn grants(self, now: int) -> bool {
        self.refilled(now).tokens >= TOKEN
    }

    /// The bucket after a token was asked for at a time.
    pub open spec fn taken(self, now: int) -> Bucket {
        let b = self.refilled(now);
        if b.tokens >= TOKEN {
            Bucket { tokens: b.tokens - TOKEN, ..b }
        } else {
            b
        }
    }

    /// How long it takes until there is a token, in whole nanoseconds.
    pub open spec fn wait(self, now: int) -> int {
        (TOKEN - self.refilled(now).tokens + self.rate - 1) / self.rate
    }
}

impl TokenBucket {
    /// What holds of every bucket.
    pub open spec fn wf(self) -> bool {
        self@.valid()
    }

    /// A full bucket.
    pub fn new(rate: u32, capacity: u32, now: u64) -> (b: TokenBucket)
        requires
            rate > 0,
        ensures
            b.wf(),
            b@ == (Bucket {
                rate: rate as int,
                capacity: capacity * TOKEN,
                tokens: capacity * TOKEN,
                last: now as int,
            }),
    {
        TokenBucket { rate, capacity, tokens: capacity as u128 * TOKEN, last: now }
    }

    /// Fills the bucket up to a time.
    pub fn refill(&mut self, now: u64)
        requires
            old(self).wf(),
        ensures
            final(self).wf(),
            final(self)@ == old(self)@.refilled(now as int),
    {
        if now > self.last {
            let dt = (now - self.last) as u128;
            let rate = self.rate as u128;
            proof {
                assert(0 <= dt * rate <= 0xffff_ffff_ffff_ffff * 0xffff_ffff) by (nonlinear_arith)
                    requires
                        0 <= dt <= 0xffff_ffff_ffff_ffff,
                        0 <= rate <= 0xffff_ffff,
                ;
            }
            let tokens: u128 = self.tokens + dt * rate;
            let capacity: u128 = self.capacity as u128 * TOKEN;
            self.tokens = if tokens < capacity {
                tokens
            } else {
                capacity
            };
            self.last = now;
        }
    }

    /// Takes a token at a time. Where there is none, tells how long it takes until there is one, in
    /// nanoseconds.
    pub fn take(&mut self, now: u64) -> (r: Option<u64>)
        requires
            old(self).wf(),
        ensures
            final(self).wf(),
            final(self)@ == old(self)@.taken(now as int),
            match r {
                None => old(self)@.grants(now as int),
                Some(wait) => !old(self)@.grants(now as int) && wait == old(self)@.wait(now as int),
            },
    {
        self.refill(now);
        if self.tokens >= TOKEN {
            self.tokens = self.tokens - TOKEN;
            None
        } else {
            let missing: u128 = TOKEN - self.tokens;
            let rate = self.rate as u128;
            let wait: u128 = (missing + rate - 1) / rate;
            proof {
                assert(0 <= wait <= missing) by (nonlinear_arith)
                    requires
                        missing >= 1,
                        rate >= 1,
                        wait == (missing + rate - 1) / rate as int,
                ;
            }
            Some(wait as u64)
        }
    }
}

/// The bucket after tokens were asked for at times, one after the other.
pub open spec fn after_takes(b: Bucket, times: Seq<int>) -> Bucket
    decreases times.len(),
{
    if times.len() == 0 {
        b
    } else {
        after_takes(b, times.drop_last()).taken(times.last())
    }
}

/// How many of the tokens asked for at times were taken.
pub open spec fn taken_count(b: Bucket, times: Seq<int>) -> int
    decreases times.len(),
{
    if times.len() == 0 {
        0
    } else {
        taken_count(b, times.drop_last()) + if after_takes(b, times.drop_last()).grants(
            times.last(),
        ) {
            1int
        } else {
            0int
        }
    }
}

/// A bucket never holds more than its capacity, whatever is asked of it.
pub proof fn law_bucket_never_overflows(b: Bucket, times: Seq<int>)
    requires
        b.valid(),
    ensures
        after_takes(b, times).valid(),
        after_takes(b, times).rate == b.rate,
        after_takes(b, times).capacity == b.capacity,
    decreases times.len(),
{
    if times.len() > 0 {
        law_bucket_never_overflows(b, times.drop_last());
        let a = after_takes(b, times.drop_last());
        let now = times.last();
        if now > a.last {
            assert((now - a.last) * a.rate >= 0) by (nonlinear_arith)
                requires
                    now > a.last,
                    a.rate > 0,
            ;
        }
    }
}

/// The requests let through are bounded: no more than the bucket held at first, and what it was
/// filled with until the last time it was asked.
pub proof fn law_requests_are_bounded(b: Bucket, times: Seq<int>)
    requires
        b.valid(),
    ensures
        after_takes(b, times).last >= b.last,
        taken_count(b, times) * TOKEN + after_takes(b, times).tokens <= b.tokens + (after_takes(
            b,
            times,
        ).last - b.last) * b.rate,
        taken_count(b, times) * TOKEN <= b.capacity + (after_takes(b, times).last - b.last)
            * b.rate,
    decreases times.len(),
{
    law_bucket_never_overflows(b, times);
    if times.len() > 0 {
        let rest = times.drop_last();
        law_requests_are_bounded(b, rest);
        law_bucket_never_overflows(b, rest);
        let a = after_takes(b, rest);
        let now = times.last();
        let c = a.refilled(now);
        assert((c.last - b.last) * b.rate == (a.last - b.last) * b.rate + (c.last - a.last)
            * b.rate) by (nonlinear_arith);
        if now > a.last {
            assert((now - a.last) * a.rate >= 0) by (nonlinear_arith)
                requires
                    now > a.last,
                    a.rate > 0,
            ;
        }
    }
}

/// Waiting as long as told is enough, where the bucket can hold a token and nobody else takes one;
/// and nothing less is.
pub proof fn law_waiting_is_enough(b: Bucket, now: int, later: int)
    requires
        b.valid(),
        b.capacity >= TOKEN,
        now >= b.last,
        !b.grants(now),
        later >= now,
    ensures
        b.wait(now) > 0,
        b.taken(now).grants(later) <==> later >= now + b.wait(now),
{
    let a = b.taken(now);
    let missing = TOKEN - a.tokens;
    let wait = b.wait(now);
    let dt = later - now;
    assert(a == b.refilled(now));
    if now > b.last {
        assert((now - b.last) * b.rate >= 0) by (nonlinear_arith)
            requires
                now > b.last,
                b.rate > 0,
        ;
    }
    assert(a.tokens >= 0);
    let rate = a.rate;
    assert(wait > 0 && (dt * rate >= missing <==> dt >= wait)) by (nonlinear_arith)
        requires
            rate > 0,
            missing > 0,
            wait == (missing + rate - 1) / rate,
    ;
    assert(dt * rate >= 0) by (nonlinear_arith)
        requires
            dt >= 0,
            rate > 0,
    ;
}

/// The method of a request.
#[derive(Clone, Copy, PartialEq, Eq, Structural, Debug)]
pub enum Method {
    Get,
    Put,
    Post,
    Delete,
}

/// What a request asks for: the path, and the query of a `GET` or the body of any other.
#[derive(Debug)]
pub struct Call {
    pub method: Method,
    pub path: String,
    pub text: String,
    pub signed: bool,
}

impl Call {
    /// Whether this asks for a path with a text.
    pub open spec fn asks(self, method: Method, path: Seq<char>, text: Seq<char>) -> bool {
        self.method == method && self.path@ == path && self.text@ == text && self.signed
    }
}

/// A request as it is sent.
#[derive(Debug)]
pub struct Request {
    pub method: Method,
    pub url: String,
    pub api_key: Option<String>,
    pub body: Option<String>,
}

/// The window and the time that every signed request carries.
pub open spec fn stamp_chars(time: i64) -> Seq<char> {
    "recvWindow=5000&timestamp="@ + int_chars(time as int)
}

/// The query of a `GET` with the window and the time.
pub open spec fn stamped_query(query: Seq<char>, time: i64) -> Seq<char> {
    if query.len() == 0 {
        stamp_chars(time)
    } else {
        query + "&"@ + stamp_chars(time)
    }
}

/// The text that the signature of a request is made of.
pub open spec fn payload_chars(call: Call, time: i64) -> Seq<char> {
    if call.method is Get {
        stamped_query(call.text@, time)
    } else {
        stamp_chars(time) + call.text@
    }
}

/// Where a request is sent.
pub open spec fn url_chars(
    url: Seq<char>,
    call: Call,
    time: i64,
    signature: Seq<char>,
) -> Seq<char> {
    if !call.signed {
        url + call.path@ + "?"@ + call.text@
    } else if call.method is Get {
        url + call.path@ + "?"@ + stamped_query(call.text@, time) + "&signature="@ + signature
    } else {
        url + call.path@ + "?"@ + stamp_chars(time) + "&signature="@ + signature
    }
}

impl Request {
    /// Whether this is the request for a call, stamped with a time and signed.
    pub open spec fn sends(
        self,
        url: Seq<char>,
        api_key: Seq<char>,
        call: Call,
        time: i64,
        signature: Seq<char>,
    ) -> bool {
        &&& self.method == call.method
        &&& self.url@ == url_chars(url, call, time, signature)
        &&& match self.api_key {
            Some(key) => call.signed && key@ == api_key,
            None => !call.signed,
        }
        &&& match self.body {
            Some(body) => !(call.method is Get) && body@ == call.text@,
            None => call.method is Get,
        }
    }
}

/// The window and the time that every signed request carries.
fn stamp(time: i64) -> (s: String)
    ensures
        s@ == stamp_chars(time),
{
    "recvWindow=5000&timestamp=".to_owned().concat(i64_text(time).as_str())
}

/// The text that the signature of a request is made of.
pub fn payload(call: &Call, time: i64) -> (s: String)
    ensures
        s@ == payload_chars(*call, time),
{
    if matches!(call.method, Method::Get) {
        if call.text.as_str().is_empty() {
            stamp(time)
        } else {
            call.text.clone().concat("&").concat(stamp(time).as_str())
        }
    } else {
        stamp(time).concat(call.text.as_str())
    }
}

/// The time that requests are stamped with at the time `now`: a second before it, in milliseconds.
pub open spec fn stamp_time(now: i64) -> i64 {
    if now < i64::MIN + 1000 {
        i64::MIN
    } else {
        (now - 1000) as i64
    }
}

/// The time that requests are stamped with at the time of the system.
pub fn request_time() -> (t: i64)
    ensures
        exists|now: i64| t == #[trigger] stamp_time(now),
{
    let now = utc_millis();
    request_time_at(now)
}

/// The time that requests are stamped with at the time `now`.
pub fn request_time_at(now: i64) -> (t: i64)
    ensures
        t == stamp_time(now),
{
    if now < i64::MIN + 1000 {
        i64::MIN
    } else {
        now - 1000
    }
}

/// A new order: its client order identifier, symbol, side, price, fraction digits of the price,
/// quantity, type and time in force.
pub type NewOrder = (String, String, Side, i128, usize, i128, OrdType, TimeInForce);

/// Whether an order can be written: its numbers are within limits, and its names are known.
pub open spec fn writable(o: NewOrder) -> bool {
    in_range(o.3 as int) && in_range(o.5 as int) && o.2.named() && o.6.named() && o.7.named()
}

/// An order of a batch.
pub open spec fn order_json(o: NewOrder) -> Seq<char> {
    "{\"newClientOrderId\":\""@ + o.0@ + "\",\"symbol\":\""@ + o.1@ + "\",\"side\":\""@
        + o.2.name() + "\",\"price\":\""@ + fixed_chars(o.3 as int, o.4 as nat)
        + "\",\"quantity\":\""@ + fixed_chars(o.5 as int, 5) + "\",\"type\":\""@ + o.6.name()
        + "\",\"timeInForce\":\""@ + o.7.name() + "\"}"@
}

/// An order of a batch.
fn order_text(o: &NewOrder) -> (s: String)
    requires
        writable(*o),
    ensures
        s@ == order_json(*o),
{
    let mut s = "{\"newClientOrderId\":\"".to_owned();
    s.append(o.0.as_str());
    s.append("\",\"symbol\":\"");
    s.append(o.1.as_str());
    s.append("\",\"side\":\"");
    s.append(o.2.as_ref());
    s.append("\",\"price\":\"");
    s.append(fixed_text(o.3, o.4).as_str());
    s.append("\",\"quantity\":\"");
    s.append(fixed_text(o.5, 5).as_str());
    s.append("\",\"type\":\"");
    s.append(o.6.as_ref());
    s.append("\",\"timeInForce\":\"");
    s.append(o.7.as_ref());
    s.append("\"}");
    s
}

/// The body of an order.
pub open spec fn order_query(
    client_order_id: Seq<char>,
    symbol: Seq<char>,
    side: Side,
    price: int,
    price_prec: nat,
    qty: int,
    order_type: OrdType,
    time_in_force: TimeInForce,
) -> Seq<char> {
    "newClientOrderId="@ + client_order_id + "&symbol="@ + symbol + "&side="@ + side.name()
        + "&price="@ + fixed_chars(price, price_prec) + "&quantity="@ + fixed_chars(qty, 5)
        + "&type="@ + order_type.name() + "&timeInForce="@ + time_in_force.name()
}

/// The body of a change of an order.
pub open spec fn modify_query(
    client_order_id: Seq<char>,
    symbol: Seq<char>,
    side: Side,
    price: int,
    price_prec: nat,
    qty: int,
) -> Seq<char> {
    "symbol="@ + symbol + "&origClientOrderId="@ + client_order_id + "&side="@ + side.name()
        + "&price="@ + fixed_chars(price, price_prec) + "&quantity="@ + fixed_chars(qty, 5)
}

/// The body of a cancellation.
pub open spec fn cancel_query(client_order_id: Seq<char>, symbol: Seq<char>) -> Seq<char> {
    "symbol="@ + symbol + "&origClientOrderId="@ + client_order_id
}

/// The body of the cancellation of all orders of a symbol.
pub open spec fn cancel_all_query(symbol: Seq<char>) -> Seq<char> {
    "symbol="@ + symbol
}

/// The query of a snapshot of a book.
pub open spec fn depth_query(symbol: Seq<char>) -> Seq<char> {
    "symbol="@ + symbol + "&limit=1000"@
}

/// The body of a batch of orders.
pub open spec fn batch_json(orders: Seq<NewOrder>) -> Seq<char> {
    "{\"batchOrders\":["@ + joined(orders.map_values(|o: NewOrder| order_json(o)), ","@) + "]}"@
}

/// The body of the cancellation of a batch of orders.
pub open spec fn cancel_batch_json(symbol: Seq<char>, ids: Seq<Seq<char>>) -> Seq<char> {
    "{\"symbol\":\""@ + symbol + "\",\"origClientOrderIdList\":["@ + joined(
        ids.map_values(|id: Seq<char>| "\""@ + id + "\""@),
        ","@,
    ) + "]}"@
}

/// How many orders may be submitted at once.
pub const MAX_SUBMIT: usize = 5;

/// How many orders may be canceled at once.
pub const MAX_CANCEL: usize = 10;

/// Whether `r` is what submitting orders at once comes to.
pub open spec fn submits_batch(
    orders: Seq<NewOrder>,
    r: Result<Call, BinanceFuturesError>,
) -> bool {
    match r {
        Ok(c) => {
            &&& orders.len() <= MAX_SUBMIT
            &&& c.asks(Method::Post, "/fapi/v1/batchOrders"@, batch_json(orders))
        },
        Err(e) => orders.len() > MAX_SUBMIT && e is InvalidRequest,
    }
}

/// Whether `r` is what canceling orders at once comes to.
pub open spec fn cancels_batch(
    symbol: Seq<char>,
    ids: Seq<Seq<char>>,
    r: Result<Call, BinanceFuturesError>,
) -> bool {
    match r {
        Ok(c) => {
            &&& ids.len() <= MAX_CANCEL
            &&& c.asks(
                Method::Post,
                "/fapi/v1/batchOrders"@,
                cancel_batch_json(symbol, ids),
            )
        },
        Err(e) => ids.len() > MAX_CANCEL && e is InvalidRequest,
    }
}

/// The bucket that the requests of a client share, while it is full.
pub open spec fn full_bucket(now: int) -> Bucket {
    Bucket {
        rate: RL_RATE_PER_S as int,
        capacity: RL_BURST * TOKEN,
        tokens: RL_BURST * TOKEN,
        last: now,
    }
}

/// A client of the REST interface. Its requests share one bucket.
#[derive(Debug)]
pub struct BinanceFuturesClient {
    pub url: String,
    pub api_key: String,
    pub secret: String,
    pub bucket: TokenBucket,
}

/// A signed call.
fn signed_call(method: Method, path: &str, text: String) -> (c: Call)
    ensures
        c.asks(method, path@, text@),
{
    Call { method, path: path.to_owned(), text, signed: true }
}

impl BinanceFuturesClient {
    /// A client whose bucket is full.
    pub fn new(url: &str, api_key: &str, secret: &str, now: u64) -> (c: BinanceFuturesClient)
        ensures
            c.url@ == url@,
            c.api_key@ == api_key@,
            c.secret@ == secret@,
            c.bucket.wf(),
            c.bucket@ == full_bucket(now as int),
    {
        BinanceFuturesClient {
            url: url.to_owned(),
            api_key: api_key.to_owned(),
            secret: secret.to_owned(),
            bucket: TokenBucket::new(RL_RATE_PER_S, RL_BURST, now),
        }
    }

    /// The request for a call, stamped with a time and signed. The key goes with every signed
    /// request, and the text of any but a `GET` is its body.
    pub fn request(&self, call: &Call, time: i64, signature: &str) -> (r: Request)
        ensures
            r.method == call.method,
            r.url@ == url_chars(self.url@, *call, time, signature@),
            match r.api_key {
                Some(key) => call.signed && key@ == self.api_key@,
                None => !call.signed,
            },
            match r.body {
                Some(body) => !(call.method is Get) && body@ == call.text@,
                None => call.method is Get,
            },
            r.sends(self.url@, self.api_key@, *call, time, signature@),
    {
        let mut url = self.url.clone();
        url.append(call.path.as_str());
        url.append("?");
        if !call.signed {
            url.append(call.text.as_str());
        } else {
            if matches!(call.method, Method::Get) {
                url.append(payload(call, time).as_str());
            } else {
                url.append(stamp(time).as_str());
            }
            url.append("&signature=");
            url.append(signature);
        }
        let api_key = if call.signed {
            Some(self.api_key.clone())
        } else {
            None
        };
        let body = if matches!(call.method, Method::Get) {
            None
        } else {
            Some(call.text.clone())
        };
        Request { method: call.method, url, api_key, body }
    }

    /// Asks for a key of the user-data stream.
    pub fn start_user_data_stream(&self) -> (c: Call)
        ensures
            c.asks(Method::Post, "/fapi/v1/listenKey"@, ""@),
    {
        signed_call(Method::Post, "/fapi/v1/listenKey", "".to_owned())
    }

    /// Keeps the key of the user-data stream alive.
    pub fn keepalive_user_data_stream(&self) -> (c: Call)
        ensures
            c.asks(Method::Put, "/fapi/v1/listenKey"@, ""@),
    {
        signed_call(Method::Put, "/fapi/v1/listenKey", "".to_owned())
    }

    /// Submits an order.
    pub fn submit_order(
        &self,
        client_order_id: &str,
        symbol: &str,
        side: Side,
        price: i128,
        price_prec: usize,
        qty: i128,
        order_type: OrdType,
        time_in_force: TimeInForce,
    ) -> (c: Call)
        requires
            in_range(price as int),
            in_range(qty as int),
            side.named(),
            order_type.named(),
            time_in_force.named(),
        ensures
            c.asks(
                Method::Post,
                "/fapi/v1/order"@,
                order_query(
                    client_order_id@,
                    symbol@,
                    side,
                    price as int,
                    price_prec as nat,
                    qty as int,
                    order_type,
                    time_in_force,
                ),
            ),
    {
        let mut body = "newClientOrderId=".to_owned();
        body.append(client_order_id);
        body.append("&symbol=");
        body.append(symbol);
        body.append("&side=");
        body.append(side.as_ref());
        body.append("&price=");
        body.append(fixed_text(price, price_prec).as_str());
        body.append("&quantity=");
        body.append(fixed_text(qty, 5).as_str());
        body.append("&type=");
        body.append(order_type.as_ref());
        body.append("&timeInForce=");
        body.append(time_in_force.as_ref());
        signed_call(Method::Post, "/fapi/v1/order", body)
    }

    /// Submits orders at once. More than a batch may hold are refused.
    pub fn submit_orders(&self, orders: &Vec<NewOrder>) -> (r: Result<Call, BinanceFuturesError>)
        requires
            orders@.len() <= MAX_SUBMIT ==> forall|i: int|
                0 <= i < orders@.len() ==> writable(#[trigger] orders@[i]),
        ensures
            submits_batch(orders@, r),
    {
        if orders.len() > MAX_SUBMIT {
            return Err(BinanceFuturesError::InvalidRequest);
        }
        let mut parts: Vec<String> = Vec::new();
        let mut i: usize = 0;
        while i < orders.len()
            invariant
                i <= orders@.len(),
                forall|k: int| 0 <= k < orders@.len() ==> writable(#[trigger] orders@[k]),
                parts@.len() == i,
                forall|k: int| 0 <= k < i ==> (#[trigger] parts@[k])@ == order_json(orders@[k]),
            decreases orders.len() - i,
        {
            parts.push(order_text(&orders[i]));
            i += 1;
        }
        assert(texts(parts@) =~= orders@.map_values(|o: NewOrder| order_json(o)));
        let mut body = "{\"batchOrders\":[".to_owned();
        body.append(join(&parts, ",").as_str());
        body.append("]}");
        Ok(signed_call(Method::Post, "/fapi/v1/batchOrders", body))
    }

    /// Changes the price and the quantity of an order.
    pub fn modify_order(
        &self,
        client_order_id: &str,
        symbol: &str,
        side: Side,
        price: i128,
        price_prec: usize,
        qty: i128,
    ) -> (c: Call)
        requires
            in_range(price as int),
            in_range(qty as int),
            side.named(),
        ensures
            c.asks(
                Method::Put,
                "/fapi/v1/order"@,
                modify_query(
                    client_order_id@,
                    symbol@,
                    side,
                    price as int,
                    price_prec as nat,
                    qty as int,
                ),
            ),
    {
        let mut body = "symbol=".to_owned();
        body.append(symbol);
        body.append("&origClientOrderId=");
        body.append(client_order_id);
        body.append("&side=");
        body.append(side.as_ref());
        body.append("&price=");
        body.append(fixed_text(price, price_prec).as_str());
        body.append("&quantity=");
        body.append(fixed_text(qty, 5).as_str());
        signed_call(Method::Put, "/fapi/v1/order", body)
    }

    /// Cancels an order.
    pub fn cancel_order(&self, client_order_id: &str, symbol: &str) -> (c: Call)
        ensures
            c.asks(Method::Delete, "/fapi/v1/order"@, cancel_query(client_order_id@, symbol@)),
    {
        let mut body = "symbol=".to_owned();
        body.append(symbol);
        body.append("&origClientOrderId=");
        body.append(client_order_id);
        signed_call(Method::Delete, "/fapi/v1/order", body)
    }

    /// Cancels orders at once. More than a batch may hold are refused.
    pub fn cancel_orders(&self, symbol: &str, client_order_ids: &Vec<String>) -> (r: Result<
        Call,
        BinanceFuturesError,
    >)
        ensures
            cancels_batch(symbol@, texts(client_order_ids@), r),
    {
        if client_order_ids.len() > MAX_CANCEL {
            return Err(BinanceFuturesError::InvalidRequest);
        }
        let ghost ids = texts(client_order_ids@);
        let mut parts: Vec<String> = Vec::new();
        let mut i: usize = 0;
        while i < client_order_ids.len()
            invariant
                i <= client_order_ids@.len(),
                ids == texts(client_order_ids@),
                parts@.len() == i,
                forall|k: int| 0 <= k < i ==> (#[trigger] parts@[k])@ == "\""@ + ids[k] + "\""@,
            decreases client_order_ids.len() - i,
        {
            parts.push("\"".to_owned().concat(client_order_ids[i].as_str()).concat("\""));
            i += 1;
        }
        assert(texts(parts@) =~= ids.map_values(|id: Seq<char>| "\""@ + id + "\""@));
        let mut body = "{\"symbol\":\"".to_owned();
        body.append(symbol);
        body.append("\",\"origClientOrderIdList\":[");
        body.append(join(&parts, ",").as_str());
        body.append("]}");
        Ok(signed_call(Method::Post, "/fapi/v1/batchOrders", body))
    }

    /// Cancels all open orders of a symbol.
    pub fn cancel_all_orders(&self, symbol: &str) -> (c: Call)
        ensures
            c.asks(Method::Delete, "/fapi/v1/allOpenOrders"@, cancel_all_query(symbol@)),
    {
        signed_call(Method::Delete, "/fapi/v1/allOpenOrders", "symbol=".to_owned().concat(symbol))
    }

    /// Asks for all positions.
    pub fn get_position_information(&self) -> (c: Call)
        ensures
            c.asks(Method::Get, "/fapi/v2/positionRisk"@, ""@),
    {
        signed_call(Method::Get, "/fapi/v2/positionRisk", "".to_owned())
    }

    /// Asks for a snapshot of a book. This request is not signed.
    pub fn get_depth(&self, symbol: &str) -> (c: Call)
        ensures
            c.method is Get,
            c.path@ == "/fapi/v1/depth"@,
            c.text@ == depth_query(symbol@),
            !c.signed,
    {
        Call {
            method: Method::Get,
            path: "/fapi/v1/depth".to_owned(),
            text: "symbol=".to_owned().concat(symbol).concat("&limit=1000"),
            signed: false,
        }
    }
}

/// The answer to an order: what was accepted, or the refusal.
#[derive(Debug)]
pub enum OrderResponseResult<T> {
    Accepted(T),
    Refused(i64, String),
}

impl<T> OrderResponseResult<T> {
    /// Whether `r` is the outcome that the answer tells.
    pub open spec fn tells(self, r: Result<T, BinanceFuturesError>) -> bool {
        match self {
            OrderResponseResult::Accepted(resp) => r == Ok::<T, BinanceFuturesError>(resp),
            OrderResponseResult::Refused(code, msg) => r == Err::<T, BinanceFuturesError>(
                BinanceFuturesError::OrderError { code, msg },
            ),
        }
    }

    /// The outcome that the answer tells.
    pub fn into_result(self) -> (r: Result<T, BinanceFuturesError>)
        ensures
            self.tells(r),
    {
        match self {
            OrderResponseResult::Accepted(resp) => Ok(resp),
            OrderResponseResult::Refused(code, msg) => Err(
                BinanceFuturesError::OrderError { code, msg },
            ),
        }
    }
}

/// Whether `r` are the outcomes that the answers to a batch tell, in order.
pub open spec fn all_tell<T>(
    answers: Seq<OrderResponseResult<T>>,
    r: Seq<Result<T, BinanceFuturesError>>,
) -> bool {
    &&& r.len() == answers.len()
    &&& forall|i: int|
        #![trigger r[i]]
        #![trigger answers[i]]
        0 <= i < r.len() ==> answers[i].tells(r[i])
}

/// The outcomes that the answers to a batch tell, in order.
pub fn into_results<T>(answers: Vec<OrderResponseResult<T>>) -> (r: Vec<
    Result<T, BinanceFuturesError>,
>)
    ensures
        r@.len() == answers@.len(),
        forall|i: int|
            #![trigger r@[i]]
            #![trigger answers@[i]]
            0 <= i < r@.len() ==> answers@[i].tells(r@[i]),
        all_tell(answers@, r@),
{
    let ghost all = answers@;
    let mut out: Vec<Result<T, BinanceFuturesError>> = Vec::new();
    for answer in it: answers
        invariant
            it.seq() == all,
            out@.len() == it.index(),
            forall|i: int| 0 <= i < out@.len() ==> all[i].tells(#[trigger] out@[i]),
    {
        out.push(answer.into_result());
    }
    out
}

/// A bucket fills by its rate for every nanosecond until it is full, and stays full; filling it at
/// two times is filling it at the later one.
pub proof fn law_bucket_fills_at_its_rate(b: Bucket, now: int, later: int)
    requires
        b.valid(),
        now <= later,
    ensures
        b.refilled(now).refilled(later) == b.refilled(later),
        b.refilled(now).rate == b.rate,
        b.refilled(now).capacity == b.capacity,
        now <= b.last ==> b.refilled(now) == b,
        now > b.last ==> b.refilled(now).last == now,
        now > b.last && b.tokens + (now - b.last) * b.rate <= b.capacity ==> b.refilled(now).tokens
            == b.tokens + (now - b.last) * b.rate,
        now > b.last && b.tokens + (now - b.last) * b.rate > b.capacity ==> b.refilled(now).tokens
            == b.capacity,
{
    assert((later - b.last) * b.rate == (later - now) * b.rate + (now - b.last) * b.rate)
        by (nonlinear_arith);
    assert((later - now) * b.rate >= 0) by (nonlinear_arith)
        requires
            later >= now,
            b.rate > 0,
    ;
    if now > b.last {
        assert((now - b.last) * b.rate >= 0) by (nonlinear_arith)
            requires
                now > b.last,
                b.rate > 0,
        ;
        assert(later == now ==> (later - now) * b.rate == 0);
    }
}

/// A token is taken just where the bucket, filled up to the time, holds a whole one; then the bucket
/// holds one token less, and else it loses nothing.
pub proof fn law_taking_costs_one_token(b: Bucket, now: int)
    ensures
        b.grants(now) <==> b.refilled(now).tokens >= 1_000_000_000,
        b.grants(now) ==> b.taken(now).tokens + 1_000_000_000 == b.refilled(now).tokens,
        !b.grants(now) ==> b.taken(now) == b.refilled(now),
        b.taken(now).rate == b.rate,
        b.taken(now).capacity == b.capacity,
        b.taken(now).last == b.refilled(now).last,
{
}

/// As many requests as there are tokens go through, whenever they are made.
pub proof fn law_held_tokens_are_granted(b: Bucket, times: Seq<int>)
    requires
        b.valid(),
        times.len() * TOKEN <= b.tokens,
    ensures
        taken_count(b, times) == times.len(),
        after_takes(b, times).tokens >= b.tokens - times.len() * TOKEN,
    decreases times.len(),
{
    if times.len() > 0 {
        let rest = times.drop_last();
        law_held_tokens_are_granted(b, rest);
        law_bucket_never_overflows(b, rest);
        let a = after_takes(b, rest);
        let now = times.last();
        if now > a.last {
            assert((now - a.last) * a.rate >= 0) by (nonlinear_arith)
                requires
                    now > a.last,
                    a.rate > 0,
            ;
        }
    }
}

/// A client lets forty requests through at once, and from its start on no more than forty and twenty
/// for every second that has gone.
pub proof fn law_client_is_held_to_its_rate(now: int, times: Seq<int>)
    ensures
        times.len() <= 40 ==> taken_count(full_bucket(now), times) == times.len(),
        taken_count(full_bucket(now), times) * 1_000_000_000 <= 40 * 1_000_000_000 + (after_takes(
            full_bucket(now),
            times,
        ).last - now) * 20,
{
    let b = full_bucket(now);
    law_requests_are_bounded(b, times);
    if times.len() <= 40 {
        law_held_tokens_are_granted(b, times);
    }
}

/// What is signed is what is sent: the query of a signed request, up to its signature, and then its
/// body. The signature comes last. A request that is not signed carries neither a signature nor a
/// key.
pub proof fn law_what_is_sent_is_what_is_signed(
    r: Request,
    url: Seq<char>,
    api_key: Seq<char>,
    call: Call,
    time: i64,
    signature: Seq<char>,
)
    requires
        r.sends(url, api_key, call, time, signature),
    ensures
        r.method == call.method,
        r.api_key is Some <==> call.signed,
        r.api_key is Some ==> r.api_key->0@ == api_key,
        r.body is Some <==> !(call.method is Get),
        r.body is Some ==> r.body->0@ == call.text@,
        !call.signed ==> r.url@ == url + call.path@ + "?"@ + call.text@,
        call.signed && call.method is Get ==> r.url@ == url + call.path@ + "?"@ + payload_chars(
            call,
            time,
        ) + "&signature="@ + signature,
        call.signed && !(call.method is Get) ==> exists|query: Seq<char>|
            r.url@ == url + call.path@ + "?"@ + query + "&signature="@ + signature
                && #[trigger] (query + call.text@) == payload_chars(call, time),
{
    if call.signed && !(call.method is Get) {
        let query = stamp_chars(time);
        assert(query + call.text@ == payload_chars(call, time));
    }
}

/// What is signed names the window and the time of the request; the query of a `GET` comes before
/// them, after an ampersand where there is one, and the body of any other request right after them.
pub proof fn law_signed_text_is_stamped(call: Call, time: i64)
    ensures
        ({
            let stamp = "recvWindow=5000&timestamp="@ + int_chars(time as int);
            &&& call.method is Get && call.text@.len() == 0 ==> payload_chars(call, time) == stamp
            &&& call.method is Get && call.text@.len() > 0 ==> payload_chars(call, time)
                == call.text@ + "&"@ + stamp
            &&& !(call.method is Get) ==> payload_chars(call, time) == stamp + call.text@
        }),
{
}

/// Requests are stamped a second before the time at which they are made, as far as times go.
pub proof fn law_requests_are_stamped_a_second_early(now: i64)
    ensures
        now as int - 1000 >= i64::MIN ==> now - stamp_time(now) == 1000,
        (now as int) - 1000 < i64::MIN ==> stamp_time(now) == i64::MIN,
        stamp_time(now) <= now,
{
}

/// A call asks for one path with one text, and is signed.
pub proof fn law_calls_ask_for_one_thing(
    call: Call,
    method: Method,
    path: Seq<char>,
    text: Seq<char>,
)
    requires
        call.asks(method, path, text),
    ensures
        call.signed,
        call.method == method,
        call.path@ == path,
        call.text@ == text,
{
}

/// The body of an order carries each of its terms under its own name, and the names of its side, its
/// type and its time in force read back as them.
pub proof fn law_order_body_carries_the_terms(
    client_order_id: Seq<char>,
    symbol: Seq<char>,
    side: Side,
    price: int,
    price_prec: nat,
    qty: int,
    order_type: OrdType,
    time_in_force: TimeInForce,
)
    requires
        side.named(),
        order_type.named(),
        time_in_force.named(),
    ensures
        ({
            let text = order_query(
                client_order_id,
                symbol,
                side,
                price,
                price_prec,
                qty,
                order_type,
                time_in_force,
            );
            &&& ("newClientOrderId="@ + client_order_id + "&symbol="@).is_prefix_of(text)
            &&& holds(text, "&symbol="@ + symbol + "&side="@)
            &&& holds(text, "&side="@ + side.name() + "&price="@)
            &&& holds(text, "&price="@ + fixed_chars(price, price_prec) + "&quantity="@)
            &&& holds(text, "&quantity="@ + fixed_chars(qty, 5) + "&type="@)
            &&& holds(text, "&type="@ + order_type.name() + "&timeInForce="@)
            &&& exists|head: Seq<char>| text == #[trigger] (head + "&timeInForce="@)
                + time_in_force.name()
        }),
        side_named(side.name()) == side,
        type_named(order_type.name()) == order_type,
        tif_named(time_in_force.name()) == time_in_force,
{
    law_names_read_back(side, order_type, time_in_force);
    let t0 = "newClientOrderId="@ + client_order_id;
    let t1 = t0 + "&symbol="@ + symbol;
    let t2 = t1 + "&side="@ + side.name();
    let t3 = t2 + "&price="@ + fixed_chars(price, price_prec);
    let t4 = t3 + "&quantity="@ + fixed_chars(qty, 5);
    let t5 = t4 + "&type="@ + order_type.name();
    let t6 = t5 + "&timeInForce="@;
    let text = t6 + time_in_force.name();
    lemma_holds_three(t0, "&symbol="@, symbol, "&side="@);
    lemma_holds_three(t1, "&side="@, side.name(), "&price="@);
    lemma_holds_three(t2, "&price="@, fixed_chars(price, price_prec), "&quantity="@);
    lemma_holds_three(t3, "&quantity="@, fixed_chars(qty, 5), "&type="@);
    lemma_holds_three(t4, "&type="@, order_type.name(), "&timeInForce="@);
    assert forall|a: Seq<char>, b: Seq<char>, part: Seq<char>| holds(a, part) implies
        #[trigger] holds(a + b, part) by {
        lemma_holds_more(a, b, part);
    }
    let head = t0 + "&symbol="@;
    assert(text.subrange(0, head.len() as int) =~= head);
}

/// The body of a change of an order carries the symbol, the client order identifier, the side, the
/// price and the quantity, each under its own name.
pub proof fn law_change_body_carries_the_terms(
    client_order_id: Seq<char>,
    symbol: Seq<char>,
    side: Side,
    price: int,
    price_prec: nat,
    qty: int,
)
    ensures
        ({
            let text = modify_query(client_order_id, symbol, side, price, price_prec, qty);
            &&& ("symbol="@ + symbol + "&origClientOrderId="@).is_prefix_of(text)
            &&& holds(text, "&origClientOrderId="@ + client_order_id + "&side="@)
            &&& holds(text, "&side="@ + side.name() + "&price="@)
            &&& holds(text, "&price="@ + fixed_chars(price, price_prec) + "&quantity="@)
            &&& exists|head: Seq<char>| text == #[trigger] (head + "&quantity="@) + fixed_chars(
                qty,
                5,
            )
        }),
{
    let t0 = "symbol="@ + symbol;
    let t1 = t0 + "&origClientOrderId="@ + client_order_id;
    let t2 = t1 + "&side="@ + side.name();
    let t3 = t2 + "&price="@ + fixed_chars(price, price_prec);
    let t4 = t3 + "&quantity="@;
    let text = t4 + fixed_chars(qty, 5);
    lemma_holds_three(t0, "&origClientOrderId="@, client_order_id, "&side="@);
    lemma_holds_three(t1, "&side="@, side.name(), "&price="@);
    lemma_holds_three(t2, "&price="@, fixed_chars(price, price_prec), "&quantity="@);
    assert forall|a: Seq<char>, b: Seq<char>, part: Seq<char>| holds(a, part) implies
        #[trigger] holds(a + b, part) by {
        lemma_holds_more(a, b, part);
    }
    let head = t0 + "&origClientOrderId="@;
    assert(text.subrange(0, head.len() as int) =~= head);
}

/// The body of a cancellation is the symbol and then the client order identifier, each under its own
/// name.
pub proof fn law_cancel_body_names_the_order(client_order_id: Seq<char>, symbol: Seq<char>)
    ensures
        ("symbol="@ + symbol).is_prefix_of(cancel_query(client_order_id, symbol)),
        cancel_query(client_order_id, symbol).skip(("symbol="@ + symbol).len() as int)
            == "&origClientOrderId="@ + client_order_id,
{
    let text = cancel_query(client_order_id, symbol);
    let head = "symbol="@ + symbol;
    assert(text.subrange(0, head.len() as int) =~= head);
    assert(text.skip(head.len() as int) =~= "&origClientOrderId="@ + client_order_id);
}

/// An order of a batch carries each of its terms under its own key.
pub proof fn law_batch_order_carries_the_terms(o: NewOrder)
    ensures
        ("{\"newClientOrderId\":\""@ + o.0@ + "\",\"symbol\":\""@).is_prefix_of(order_json(o)),
        holds(order_json(o), "\",\"symbol\":\""@ + o.1@ + "\",\"side\":\""@),
        holds(order_json(o), "\",\"side\":\""@ + o.2.name() + "\",\"price\":\""@),
        holds(
            order_json(o),
            "\",\"price\":\""@ + fixed_chars(o.3 as int, o.4 as nat) + "\",\"quantity\":\""@,
        ),
        holds(order_json(o), "\",\"quantity\":\""@ + fixed_chars(o.5 as int, 5) + "\",\"type\":\""@),
        holds(order_json(o), "\",\"type\":\""@ + o.6.name() + "\",\"timeInForce\":\""@),
        holds(order_json(o), "\",\"timeInForce\":\""@ + o.7.name() + "\"}"@),
{
    let t0 = "{\"newClientOrderId\":\""@ + o.0@;
    let t1 = t0 + "\",\"symbol\":\""@ + o.1@;
    let t2 = t1 + "\",\"side\":\""@ + o.2.name();
    let t3 = t2 + "\",\"price\":\""@ + fixed_chars(o.3 as int, o.4 as nat);
    let t4 = t3 + "\",\"quantity\":\""@ + fixed_chars(o.5 as int, 5);
    let t5 = t4 + "\",\"type\":\""@ + o.6.name();
    let text = t5 + "\",\"timeInForce\":\""@ + o.7.name() + "\"}"@;
    lemma_holds_three(t0, "\",\"symbol\":\""@, o.1@, "\",\"side\":\""@);
    lemma_holds_three(t1, "\",\"side\":\""@, o.2.name(), "\",\"price\":\""@);
    lemma_holds_three(
        t2,
        "\",\"price\":\""@,
        fixed_chars(o.3 as int, o.4 as nat),
        "\",\"quantity\":\""@,
    );
    lemma_holds_three(t3, "\",\"quantity\":\""@, fixed_chars(o.5 as int, 5), "\",\"type\":\""@);
    lemma_holds_three(t4, "\",\"type\":\""@, o.6.name(), "\",\"timeInForce\":\""@);
    lemma_holds_three(t5, "\",\"timeInForce\":\""@, o.7.name(), "\"}"@);
    assert forall|a: Seq<char>, b: Seq<char>, part: Seq<char>| holds(a, part) implies
        #[trigger] holds(a + b, part) by {
        lemma_holds_more(a, b, part);
    }
    let head = t0 + "\",\"symbol\":\""@;
    assert(text.subrange(0, head.len() as int) =~= head);
}

/// A batch carries every one of its orders, in their order: a batch of one is that order, and one
/// order more stands after a comma behind all the others.
pub proof fn law_batch_carries_every_order(orders: Seq<NewOrder>, next: NewOrder, i: int)
    ensures
        0 <= i < orders.len() ==> holds(batch_json(orders), order_json(orders[i])),
        batch_json(seq![next]) == "{\"batchOrders\":["@ + order_json(next) + "]}"@,
        orders.len() > 0 ==> batch_json(orders.push(next)) == batch_json(orders).take(
            batch_json(orders).len() - 2,
        ) + ","@ + order_json(next) + "]}"@,
{
    let parts = orders.map_values(|o: NewOrder| order_json(o));
    let open = "{\"batchOrders\":["@;
    let close = "]}"@;
    reveal_strlit("]}");
    if 0 <= i < orders.len() {
        lemma_joined_holds(parts, ","@, i);
        assert(parts[i] == order_json(orders[i]));
        lemma_holds_within(open, joined(parts, ","@), parts[i]);
        lemma_holds_more(open + joined(parts, ","@), close, parts[i]);
    }
    law_joined_goes_on(parts, ","@, order_json(next));
    assert(seq![next].map_values(|o: NewOrder| order_json(o)) =~= seq![order_json(next)]);
    assert(orders.push(next).map_values(|o: NewOrder| order_json(o)) =~= parts.push(
        order_json(next),
    ));
    assert(batch_json(orders).take(batch_json(orders).len() - 2) =~= open + joined(parts, ","@));
    if orders.len() > 0 {
        assert(batch_json(orders.push(next)) =~= batch_json(orders).take(
            batch_json(orders).len() - 2,
        ) + ","@ + order_json(next) + close);
    }
}

/// The cancellation of a batch names the symbol, and between quotes every client order identifier, in
/// their order.
pub proof fn law_cancel_batch_names_every_order(
    symbol: Seq<char>,
    ids: Seq<Seq<char>>,
    next: Seq<char>,
    i: int,
)
    ensures
        ("{\"symbol\":\""@ + symbol + "\",\"origClientOrderIdList\":["@).is_prefix_of(
            cancel_batch_json(symbol, ids),
        ),
        0 <= i < ids.len() ==> holds(cancel_batch_json(symbol, ids), "\""@ + ids[i] + "\""@),
        cancel_batch_json(symbol, seq![next]) == "{\"symbol\":\""@ + symbol
            + "\",\"origClientOrderIdList\":["@ + ("\""@ + next + "\""@) + "]}"@,
        ids.len() > 0 ==> cancel_batch_json(symbol, ids.push(next)) == cancel_batch_json(
            symbol,
            ids,
        ).take(cancel_batch_json(symbol, ids).len() - 2) + ","@ + ("\""@ + next + "\""@) + "]}"@,
{
    let parts = ids.map_values(|id: Seq<char>| "\""@ + id + "\""@);
    let last = "\""@ + next + "\""@;
    let open = "{\"symbol\":\""@ + symbol + "\",\"origClientOrderIdList\":["@;
    let close = "]}"@;
    let text = cancel_batch_json(symbol, ids);
    reveal_strlit("]}");
    assert(text.subrange(0, open.len() as int) =~= open);
    if 0 <= i < ids.len() {
        lemma_joined_holds(parts, ","@, i);
        assert(parts[i] == "\""@ + ids[i] + "\""@);
        lemma_holds_within(open, joined(parts, ","@), parts[i]);
        lemma_holds_more(open + joined(parts, ","@), close, parts[i]);
    }
    law_joined_goes_on(parts, ","@, last);
    assert(seq![next].map_values(|id: Seq<char>| "\""@ + id + "\""@) =~= seq![last]);
    assert(ids.push(next).map_values(|id: Seq<char>| "\""@ + id + "\""@) =~= parts.push(last));
    assert(text.take(text.len() - 2) =~= open + joined(parts, ","@));
    if ids.len() > 0 {
        assert(cancel_batch_json(symbol, ids.push(next)) =~= text.take(text.len() - 2) + ","@ + last
            + close);
    }
}

/// An answer that accepts an order tells just what was accepted, and one that refuses it tells its
/// code and its message.
pub proof fn law_answers_tell_what_they_carry<T>(
    answer: OrderResponseResult<T>,
    r: Result<T, BinanceFuturesError>,
)
    requires
        answer.tells(r),
    ensures
        r is Ok <==> answer is Accepted,
        r is Ok ==> r->Ok_0 == answer->Accepted_0,
        r is Err ==> r->Err_0 is OrderError,
        r is Err ==> r->Err_0->OrderError_code == answer->Refused_0,
        r is Err ==> r->Err_0->OrderError_msg == answer->Refused_1,
{
}

/// A batch holds at most five orders to submit, and ten to cancel: a batch that holds more is refused
/// as an invalid request, and any other is not.
pub proof fn law_large_batches_are_refused(
    orders: Seq<NewOrder>,
    r: Result<Call, BinanceFuturesError>,
    symbol: Seq<char>,
    ids: Seq<Seq<char>>,
    c: Result<Call, BinanceFuturesError>,
)
    requires
        submits_batch(orders, r),
        cancels_batch(symbol, ids, c),
    ensures
        r is Ok <==> orders.len() <= 5,
        r is Err ==> r->Err_0 is InvalidRequest,
        r is Ok ==> r->Ok_0.signed && r->Ok_0.method is Post && r->Ok_0.text@ == batch_json(orders),
        c is Ok <==> ids.len() <= 10,
        c is Err ==> c->Err_0 is InvalidRequest,
        c is Ok ==> c->Ok_0.signed && c->Ok_0.method is Post && c->Ok_0.text@ == cancel_batch_json(
            symbol,
            ids,
        ),
{
}

/// The cancellation of all orders, and a snapshot of a book, are asked for by their symbol.
pub proof fn law_symbols_are_named(symbol: Seq<char>, other: Seq<char>)
    ensures
        "symbol="@.is_prefix_of(cancel_all_query(symbol)),
        cancel_all_query(symbol).skip(7) == symbol,
        ("symbol="@ + symbol).is_prefix_of(depth_query(symbol)),
        depth_query(symbol).skip(7 + symbol.len() as int) == "&limit=1000"@,
        cancel_all_query(symbol) == cancel_all_query(other) ==> symbol == other,
{
    reveal_strlit("symbol=");
    let head = "symbol="@;
    assert(cancel_all_query(symbol).subrange(0, 7) =~= head);
    assert(cancel_all_query(symbol).skip(7) =~= symbol);
    assert(cancel_all_query(other).skip(7) =~= other);
    assert(depth_query(symbol).subrange(0, (head + symbol).len() as int) =~= head + symbol);
    assert(depth_query(symbol).skip(7 + symbol.len() as int) =~= "&limit=1000"@);
}

/// The outcome at a place is what the answer at that place tells: an acceptance where it accepts, and
/// a refusal where it refuses.
pub proof fn law_outcomes_stand_at_their_place<T>(
    answers: Seq<OrderResponseResult<T>>,
    r: Seq<Result<T, BinanceFuturesError>>,
    i: int,
)
    requires
        all_tell(answers, r),
        0 <= i < answers.len(),
    ensures
        r.len() == answers.len(),
        r[i] is Ok <==> answers[i] is Accepted,
        r[i] is Ok ==> r[i]->Ok_0 == answers[i]->Accepted_0,
        r[i] is Err ==> r[i]->Err_0 is OrderError && r[i]->Err_0->OrderError_code
            == answers[i]->Refused_0 && r[i]->Err_0->OrderError_msg == answers[i]->Refused_1,
{
    assert(answers[i].tells(r[i]));
}

} // verus!
