//! The market-data streams of Binance USD-M futures.

use vstd::prelude::*;
use vstd::string::*;
use crate::json::{is_document, list_at, members, text_at, views, Json, Members};
use crate::text::{
    after_first, holds, join, joined, lemma_holds_three, lemma_holds_within, lemma_joined_holds,
    lowercase, replace, replaced, same, split_after, starts_with, texts, to_lower,
};

verus! {

/// Where the exchange tells of its symbols.
pub const EXCHANGE_INFO: &'static str = "https://fapi.binance.com/fapi/v1/exchangeInfo";

/// The endpoint of the streams of quotes and books. The exchange delivers a stream at its own
/// endpoint only; at the other it is dropped without a word.
pub const WS_PUBLIC: &'static str = "wss://fstream.binance.com/public";

/// The endpoint of the streams of trades, mark prices and liquidations.
pub const WS_MARKET: &'static str = "wss://fstream.binance.com/market";

/// The type of a stream: what follows the first `@`, or all of it where there is none.
pub open spec fn stream_type(stream: Seq<char>) -> Seq<char> {
    match after_first(stream, '@') {
        Some(ty) => ty,
        None => stream,
    }
}

/// Whether a stream of a type is delivered at the market endpoint.
pub open spec fn is_market(ty: Seq<char>) -> bool {
    &&& !"depth"@.is_prefix_of(ty)
    &&& {
        ||| ty == "trade"@
        ||| ty == "aggTrade"@
        ||| ty == "markPrice"@
        ||| ty == "markPrice@1s"@
        ||| ty == "forceOrder"@
    }
}

/// The endpoint of a stream, which may be a template such as `$symbol@trade`.
pub open spec fn endpoint_of(stream: Seq<char>) -> Seq<char> {
    if is_market(stream_type(stream)) {
        "market"@
    } else {
        "public"@
    }
}

/// The endpoint of a stream, which may be a template such as `$symbol@trade`.
pub fn classify_stream(stream: &str) -> (r: &'static str)
    ensures
        r@ == endpoint_of(stream@),
{
    let ty = match split_after(stream, '@') {
        Some(ty) => ty,
        None => stream.to_owned(),
    };
    let ty = ty.as_str();
    if starts_with(ty, "depth") {
        "public"
    } else if same(ty, "trade") || same(ty, "aggTrade") || same(ty, "markPrice") || same(
        ty,
        "markPrice@1s",
    ) || same(ty, "forceOrder") {
        "market"
    } else {
        "public"
    }
}

/// Whatever stands before the first `@`, a stream is routed by its type alone: trades, mark prices
/// and liquidations at the market endpoint, books and best prices at the public one.
pub proof fn law_streams_are_routed_by_type(name: Seq<char>, rest: Seq<char>)
    requires
        forall|i: int| 0 <= i < name.len() ==> name[i] != '@',
    ensures
        stream_type(name + "@"@ + rest) == rest,
        is_market("trade"@),
        is_market("aggTrade"@),
        is_market("markPrice"@),
        is_market("markPrice@1s"@),
        is_market("forceOrder"@),
        !is_market("bookTicker"@),
        !is_market("depth"@ + rest),
    decreases name.len(),
{
    reveal_strlit("@");
    reveal_strlit("depth");
    reveal_strlit("trade");
    reveal_strlit("aggTrade");
    reveal_strlit("markPrice");
    reveal_strlit("markPrice@1s");
    reveal_strlit("forceOrder");
    reveal_strlit("bookTicker");
    let depth = "depth"@;
    assert("trade"@[0] != depth[0]);
    assert("aggTrade"@[0] != depth[0]);
    assert("markPrice"@[0] != depth[0]);
    assert("markPrice@1s"@[0] != depth[0]);
    assert("forceOrder"@[0] != depth[0]);
    assert forall|ty: Seq<char>| ty.len() > 0 && ty[0] != depth[0] implies !#[trigger]
        depth.is_prefix_of(ty) by {
        if depth.is_prefix_of(ty) {
            assert(ty.subrange(0, depth.len() as int)[0] == depth[0]);
        }
    }
    assert(!depth.is_prefix_of("trade"@));
    assert(!depth.is_prefix_of("aggTrade"@));
    assert(!depth.is_prefix_of("markPrice"@));
    assert(!depth.is_prefix_of("markPrice@1s"@));
    assert(!depth.is_prefix_of("forceOrder"@));
    assert((depth + rest).subrange(0, depth.len() as int) =~= depth);
    assert("bookTicker"@.len() == 10);
    assert("bookTicker"@[0] == 'b');
    assert("forceOrder"@[0] == 'f');
    lemma_after_first(name, rest);
}

/// What follows the first `@`.
proof fn lemma_after_first(name: Seq<char>, rest: Seq<char>)
    requires
        forall|i: int| 0 <= i < name.len() ==> name[i] != '@',
    ensures
        after_first(name + "@"@ + rest, '@') == Some(rest),
    decreases name.len(),
{
    reveal_strlit("@");
    let all = name + "@"@ + rest;
    if name.len() == 0 {
        assert(all[0] == '@');
        assert(all.skip(1) =~= rest);
    } else {
        assert(all[0] == name[0]);
        assert(all.skip(1) =~= name.skip(1) + "@"@ + rest);
        lemma_after_first(name.skip(1), rest);
    }
}

/// The string member of the object that a text spells.
pub open spec fn told_at(text: Seq<char>, key: Seq<char>) -> Option<Seq<char>> {
    match members(text) {
        Some(r) => text_at(r, key),
        None => None,
    }
}

/// Whether an element tells the type of its contract, and its symbol where it is perpetual.
pub open spec fn is_symbol(text: Seq<char>) -> bool {
    &&& told_at(text, "contractType"@) is Some
    &&& told_at(text, "contractType"@) == Some("PERPETUAL"@) ==> told_at(text, "symbol"@) is Some
}

/// Whether all elements do.
pub open spec fn are_symbols(v: Seq<Seq<char>>) -> bool {
    forall|i: int| 0 <= i < v.len() ==> is_symbol(#[trigger] v[i])
}

/// The elements that tell of the symbols.
pub open spec fn symbol_list(text: Seq<char>) -> Option<Seq<Seq<char>>> {
    match members(text) {
        Some(r) => list_at(r, "symbols"@),
        None => None,
    }
}

/// Whether a text lists symbols.
pub open spec fn lists_symbols(text: Seq<char>) -> bool {
    match symbol_list(text) {
        Some(v) => are_symbols(v),
        None => false,
    }
}

/// The symbols of the perpetual contracts, in order.
pub open spec fn perpetuals(v: Seq<Seq<char>>) -> Seq<Seq<char>>
    decreases v.len(),
{
    if v.len() == 0 {
        seq![]
    } else if told_at(v.last(), "contractType"@) == Some("PERPETUAL"@) {
        perpetuals(v.drop_last()).push(told_at(v.last(), "symbol"@)->0)
    } else {
        perpetuals(v.drop_last())
    }
}

/// Whether `symbols` are those of the perpetual contracts that a text lists, in order.
pub open spec fn gives_perpetuals(text: Seq<char>, symbols: Seq<Seq<char>>) -> bool {
    symbol_list(text) is Some && symbols == perpetuals(symbol_list(text)->0)
}

/// Reads a string member of the object that a text spells.
fn get_told(j: &Json, key: &str) -> (r: Option<String>)
    ensures
        match r {
            Some(s) => told_at(j@, key@) == Some(s@),
            None => told_at(j@, key@) is None,
        },
{
    let r = j.as_record()?;
    r.get_text(key)
}

/// The symbols of the perpetual contracts that the text of the exchange information lists; none
/// where it is no document or does not list symbols.
pub fn symbols_of(text: &str) -> (r: Option<Vec<String>>)
    ensures
        match r {
            Some(v) => {
                &&& is_document(text@)
                &&& lists_symbols(text@)
                &&& texts(v@) == perpetuals(symbol_list(text@)->0)
            },
            None => !is_document(text@) || !lists_symbols(text@),
        },
        r is Some <==> is_document(text@) && lists_symbols(text@),
        r is Some ==> gives_perpetuals(text@, texts(r->0@)),
{
    let j = Json::new(text);
    if j.is_valid() {
        fetch_symbol_list(&j)
    } else {
        None
    }
}

/// The symbols of the perpetual contracts; none where the text does not list symbols.
pub fn fetch_symbol_list(exchange_info: &Json) -> (r: Option<Vec<String>>)
    ensures
        match r {
            Some(v) => {
                &&& lists_symbols(exchange_info@)
                &&& texts(v@) == perpetuals(symbol_list(exchange_info@)->0)
            },
            None => !lists_symbols(exchange_info@),
        },
        r is Some ==> gives_perpetuals(exchange_info@, texts(r->0@)),
{
    let info = exchange_info.as_record()?;
    let items = info.get_list("symbols")?;
    let ghost all = views(items@);
    let mut out: Vec<String> = Vec::new();
    let mut i: usize = 0;
    assert(texts(out@) =~= perpetuals(all.take(0)));
    while i < items.len()
        invariant
            i <= items@.len(),
            all == views(items@),
            symbol_list(exchange_info@) == Some(all),
            forall|k: int| 0 <= k < i ==> is_symbol(#[trigger] all[k]),
            texts(out@) == perpetuals(all.take(i as int)),
        decreases items.len() - i,
    {
        let item = &items[i];
        proof {
            assert(all[i as int] == item@);
            assert(all.take(i + 1).last() == item@);
            assert(all.take(i + 1).drop_last() =~= all.take(i as int));
        }
        let ghost before = out@;
        let contract = match get_told(item, "contractType") {
            Some(contract) => contract,
            None => {
                assert(!is_symbol(all[i as int]));
                assert(!are_symbols(all));
                return None;
            },
        };
        if same(contract.as_str(), "PERPETUAL") {
            match get_told(item, "symbol") {
                Some(symbol) => {
                    out.push(symbol);
                    assert(texts(out@) =~= texts(before).push(symbol@));
                },
                None => {
                    assert(!is_symbol(all[i as int]));
                    assert(!are_symbols(all));
                    return None;
                },
            }
        }
        i += 1;
    }
    assert(all.take(i as int) =~= all);
    Some(out)
}

/// Where the exchange gives a snapshot of a book.
pub open spec fn snapshot_chars(symbol: Seq<char>) -> Seq<char> {
    "https://fapi.binance.com/fapi/v1/depth?symbol="@ + symbol + "&limit=1000"@
}

/// Where the exchange gives a snapshot of a book.
pub fn depth_snapshot_url(symbol: &str) -> (s: String)
    ensures
        s@ == snapshot_chars(symbol@),
{
    "https://fapi.binance.com/fapi/v1/depth?symbol=".to_owned().concat(symbol).concat("&limit=1000")
}

/// How long a connection lives without a ping, in nanoseconds.
pub const PING_TIMEOUT_NANOS: u128 = 300_000_000_000;

/// What happens to a connection.
#[derive(Clone, Copy, PartialEq, Eq, Structural, Debug)]
pub enum SocketEvent {
    /// A text arrived.
    Text,
    /// Nobody takes texts any more.
    ForwardFailed,
    /// A ping arrived.
    Ping,
    /// Pings can no longer be answered.
    PongFailed,
    /// The other side closed the connection.
    Close,
    /// Something arrived that is of no interest.
    Other,
    /// The connection failed.
    Failed,
    /// The connection ended.
    Ended,
    /// The timer ticked, so many nanoseconds after the last ping.
    Tick(u128),
}

/// What a connection does next.
#[derive(Clone, Copy, PartialEq, Eq, Structural, Debug)]
pub enum SocketAction {
    /// Hand the text on with the time of its arrival.
    Forward,
    /// Answer the ping and take the time of it.
    Pong,
    /// Go on.
    Ignore,
    /// End without an error.
    Finish,
    /// End with the error that the connection was closed.
    Closed,
    /// End with the error of the connection.
    Failed,
    /// End with the error that no ping came.
    TimedOut,
}

/// What a connection does about an event.
pub open spec fn action_for(event: SocketEvent) -> SocketAction {
    match event {
        SocketEvent::Text => SocketAction::Forward,
        SocketEvent::ForwardFailed => SocketAction::Finish,
        SocketEvent::Ping => SocketAction::Pong,
        SocketEvent::PongFailed => SocketAction::Closed,
        SocketEvent::Close => SocketAction::Closed,
        SocketEvent::Other => SocketAction::Ignore,
        SocketEvent::Failed => SocketAction::Failed,
        SocketEvent::Ended => SocketAction::Finish,
        SocketEvent::Tick(elapsed) => if elapsed > PING_TIMEOUT_NANOS {
            SocketAction::TimedOut
        } else {
            SocketAction::Ignore
        },
    }
}

/// What a connection does about an event.
pub fn connect(event: SocketEvent) -> (r: SocketAction)
    ensures
        r == action_for(event),
{
    match event {
        SocketEvent::Text => SocketAction::Forward,
        SocketEvent::ForwardFailed => SocketAction::Finish,
        SocketEvent::Ping => SocketAction::Pong,
        SocketEvent::PongFailed => SocketAction::Closed,
        SocketEvent::Close => SocketAction::Closed,
        SocketEvent::Other => SocketAction::Ignore,
        SocketEvent::Failed => SocketAction::Failed,
        SocketEvent::Ended => SocketAction::Finish,
        SocketEvent::Tick(elapsed) => if elapsed > PING_TIMEOUT_NANOS {
            SocketAction::TimedOut
        } else {
            SocketAction::Ignore
        },
    }
}

/// The streams of one symbol: the templates with its name in lower case.
pub open spec fn symbol_streams(streams: Seq<Seq<char>>, symbol: Seq<char>) -> Seq<Seq<char>> {
    streams.map_values(|s: Seq<char>| replaced(s, "$symbol"@, lowercase(symbol)))
}

/// The streams of all symbols, symbol by symbol.
pub open spec fn all_streams(streams: Seq<Seq<char>>, symbols: Seq<Seq<char>>) -> Seq<Seq<char>>
    decreases symbols.len(),
{
    if symbols.len() == 0 {
        seq![]
    } else {
        all_streams(streams, symbols.drop_last()) + symbol_streams(streams, symbols.last())
    }
}

/// Where to connect for the streams of all symbols.
pub open spec fn url_of(
    base_url: Seq<char>,
    streams: Seq<Seq<char>>,
    symbols: Seq<Seq<char>>,
) -> Seq<char> {
    base_url + "/stream?streams="@ + joined(all_streams(streams, symbols), "/"@)
}

/// Where to connect for the streams of all symbols.
pub fn stream_url(base_url: &str, streams: &Vec<String>, symbol_list: &Vec<String>) -> (s: String)
    ensures
        s@ == url_of(base_url@, texts(streams@), texts(symbol_list@)),
{
    let ghost templates = texts(streams@);
    let ghost symbols = texts(symbol_list@);
    let mut names: Vec<String> = Vec::new();
    let mut i: usize = 0;
    assert(texts(names@) =~= all_streams(templates, symbols.take(0)));
    while i < symbol_list.len()
        invariant
            i <= symbol_list@.len(),
            templates == texts(streams@),
            symbols == texts(symbol_list@),
            texts(names@) == all_streams(templates, symbols.take(i as int)),
        decreases symbol_list.len() - i,
    {
        let ghost before = texts(names@);
        let symbol = to_lower(symbol_list[i].as_str());
        let ghost here = symbol_streams(templates, symbols[i as int]);
        let mut k: usize = 0;
        assert(before =~= before + here.take(0));
        while k < streams.len()
            invariant
                k <= streams@.len(),
                i < symbol_list@.len(),
                templates == texts(streams@),
                symbols == texts(symbol_list@),
                symbol@ == lowercase(symbols[i as int]),
                here == symbol_streams(templates, symbols[i as int]),
                texts(names@) == before + here.take(k as int),
            decreases streams.len() - k,
        {
            let ghost so_far = names@;
            let name = replace(streams[k].as_str(), "$symbol", symbol.as_str());
            names.push(name);
            proof {
                assert(here[k as int] == name@);
                assert(here.take(k + 1) =~= here.take(k as int).push(name@));
                assert(texts(names@) =~= texts(so_far).push(name@));
                assert(texts(names@) =~= before + here.take(k + 1));
            }
            k += 1;
        }
        proof {
            assert(here.take(k as int) =~= here);
            assert(symbols.take(i + 1).last() == symbols[i as int]);
            assert(symbols.take(i + 1).drop_last() =~= symbols.take(i as int));
        }
        i += 1;
    }
    assert(symbols.take(i as int) =~= symbols);
    base_url.to_owned().concat("/stream?streams=").concat(join(&names, "/").as_str())
}

/// How long a connection must have lived for its error to be forgiven, in nanoseconds.
pub const FORGIVEN_NANOS: u128 = 30_000_000_000;

/// After how many errors in a row there is a pause before the next connection.
pub const PAUSE_AFTER: u32 = 3;

/// The length of the pause, in seconds.
pub const PAUSE_SECS: u64 = 1;

/// The number of errors in a row after another, of a connection that lived so long.
pub open spec fn errors_after(errors: u32, lived: u128) -> u32 {
    if lived > FORGIVEN_NANOS {
        0
    } else if errors == u32::MAX {
        errors
    } else {
        (errors + 1) as u32
    }
}

/// How the last connection came to its end.
#[derive(Clone, Copy, PartialEq, Eq, Structural, Debug)]
pub enum Outcome {
    /// There was none yet.
    Unstarted,
    /// It ended without an error.
    Ended,
    /// It failed after it had lived so many nanoseconds.
    Failed(u128),
}

/// What follows a connection.
#[derive(Debug)]
pub enum Next {
    /// Nothing.
    Stop,
    /// Another connection, to an address and after a pause in seconds; and the number of errors in a
    /// row.
    Connect { errors: u32, pause: u64, url: String },
}

/// Whether `r` is what follows a connection to `address`, where there were so many errors in a row
/// before it.
pub open spec fn keeps_on(errors: u32, outcome: Outcome, address: Seq<char>, r: Next) -> bool {
    &&& outcome is Ended <==> r is Stop
    &&& match r {
        Next::Stop => true,
        Next::Connect { errors: count, pause, url } => {
            &&& count == match outcome {
                Outcome::Failed(lived) => errors_after(errors, lived),
                _ => errors,
            }
            &&& pause == if outcome is Failed && count > PAUSE_AFTER {
                PAUSE_SECS
            } else {
                0
            }
            &&& url@ == address
        },
    }
}

/// Keeps a connection to the streams of all symbols: another follows each that fails, after a pause
/// where there were too many errors in a row, and none follows one that ended without an error.
pub fn keep_connection(
    errors: u32,
    outcome: Outcome,
    base_url: &str,
    streams: &Vec<String>,
    symbol_list: &Vec<String>,
) -> (r: Next)
    ensures
        keeps_on(errors, outcome, url_of(base_url@, texts(streams@), texts(symbol_list@)), r),
{
    match outcome {
        Outcome::Unstarted => Next::Connect {
            errors,
            pause: 0,
            url: stream_url(base_url, streams, symbol_list),
        },
        Outcome::Ended => Next::Stop,
        Outcome::Failed(lived) => {
            let count: u32 = if lived > FORGIVEN_NANOS {
                0
            } else if errors == u32::MAX {
                errors
            } else {
                errors + 1
            };
            let pause: u64 = if count > PAUSE_AFTER {
                PAUSE_SECS
            } else {
                0
            };
            Next::Connect { errors: count, pause, url: stream_url(base_url, streams, symbol_list) }
        },
    }
}

/// A stream goes to the market endpoint just where its type is that of trades, of aggregated trades,
/// of mark prices or of liquidations; every other stream goes to the public one.
pub proof fn law_market_streams_are_these(stream: Seq<char>)
    ensures
        endpoint_of(stream) == "market"@ <==> {
            ||| stream_type(stream) == "trade"@
            ||| stream_type(stream) == "aggTrade"@
            ||| stream_type(stream) == "markPrice"@
            ||| stream_type(stream) == "markPrice@1s"@
            ||| stream_type(stream) == "forceOrder"@
        },
        endpoint_of(stream) == "market"@ || endpoint_of(stream) == "public"@,
        "market"@ != "public"@,
        (forall|i: int| 0 <= i < stream.len() ==> stream[i] != '@') ==> stream_type(stream)
            == stream,
{
    law_streams_are_routed_by_type(seq![], seq![]);
    reveal_strlit("market");
    reveal_strlit("public");
    assert("market"@[0] != "public"@[0]);
    if forall|i: int| 0 <= i < stream.len() ==> stream[i] != '@' {
        lemma_without(stream);
    }
}

/// Nothing follows an `@` that is not there.
proof fn lemma_without(s: Seq<char>)
    requires
        forall|i: int| 0 <= i < s.len() ==> s[i] != '@',
    ensures
        after_first(s, '@') is None,
    decreases s.len(),
{
    if s.len() > 0 {
        assert forall|i: int| 0 <= i < s.skip(1).len() implies s.skip(1)[i] != '@' by {
            assert(s.skip(1)[i] == s[i + 1]);
        }
        lemma_without(s.skip(1));
    }
}

/// The symbols of the perpetual contracts come in the order in which they are listed: those of two
/// lists are those of the first and then those of the second. A perpetual contract gives its symbol,
/// and no other contract gives one.
pub proof fn law_perpetuals_come_in_order(a: Seq<Seq<char>>, b: Seq<Seq<char>>, item: Seq<char>)
    ensures
        perpetuals(a + b) == perpetuals(a) + perpetuals(b),
        told_at(item, "contractType"@) == Some("PERPETUAL"@) ==> perpetuals(seq![item]) == seq![
            told_at(item, "symbol"@)->0,
        ],
        told_at(item, "contractType"@) != Some("PERPETUAL"@) ==> perpetuals(seq![item]).len() == 0,
    decreases b.len(),
{
    reveal_with_fuel(perpetuals, 2);
    assert(seq![item].drop_last() =~= seq![]);
    assert(seq![item].last() == item);
    if told_at(item, "contractType"@) == Some("PERPETUAL"@) {
        assert(perpetuals(seq![item]) =~= seq![told_at(item, "symbol"@)->0]);
    }
    if b.len() == 0 {
        assert(a + b =~= a);
        assert(perpetuals(a + b) =~= perpetuals(a) + perpetuals(b));
    } else {
        law_perpetuals_come_in_order(a, b.drop_last(), item);
        assert((a + b).drop_last() =~= a + b.drop_last());
        assert((a + b).last() == b.last());
        assert(perpetuals(a + b) =~= perpetuals(a) + perpetuals(b));
    }
}

/// Every perpetual contract that is listed gives its symbol, and every symbol is that of a perpetual
/// contract that is listed.
pub proof fn law_perpetuals_are_those_listed(v: Seq<Seq<char>>, symbol: Seq<char>)
    requires
        are_symbols(v),
    ensures
        perpetuals(v).contains(symbol) <==> exists|i: int|
            0 <= i < v.len() && told_at(#[trigger] v[i], "contractType"@) == Some("PERPETUAL"@)
                && told_at(v[i], "symbol"@) == Some(symbol),
    decreases v.len(),
{
    if v.len() > 0 {
        let rest = v.drop_last();
        let last = v.len() - 1;
        assert(is_symbol(v[last]));
        assert forall|i: int| 0 <= i < rest.len() implies is_symbol(#[trigger] rest[i]) by {
            assert(is_symbol(v[i]));
        }
        law_perpetuals_are_those_listed(rest, symbol);
        if perpetuals(rest).contains(symbol) {
            let i = choose|i: int|
                0 <= i < rest.len() && told_at(#[trigger] rest[i], "contractType"@) == Some(
                    "PERPETUAL"@,
                ) && told_at(rest[i], "symbol"@) == Some(symbol);
            assert(v[i] == rest[i]);
        }
        if exists|i: int|
            0 <= i < v.len() && told_at(#[trigger] v[i], "contractType"@) == Some("PERPETUAL"@)
                && told_at(v[i], "symbol"@) == Some(symbol) {
            let i = choose|i: int|
                0 <= i < v.len() && told_at(#[trigger] v[i], "contractType"@) == Some("PERPETUAL"@)
                    && told_at(v[i], "symbol"@) == Some(symbol);
            if i < last {
                assert(rest[i] == v[i]);
                assert(perpetuals(rest).contains(symbol));
                let k = choose|k: int| 0 <= k < perpetuals(rest).len() && perpetuals(rest)[k]
                    == symbol;
                assert(perpetuals(v)[k] == symbol);
            } else {
                assert(perpetuals(v)[perpetuals(v).len() - 1] == symbol);
            }
        }
        if perpetuals(v).contains(symbol) {
            let k = choose|k: int| 0 <= k < perpetuals(v).len() && perpetuals(v)[k] == symbol;
            if k < perpetuals(rest).len() {
                assert(perpetuals(rest)[k] == symbol);
                assert(perpetuals(rest).contains(symbol));
            } else {
                assert(v[last] == v.last());
            }
        }
    }
}

/// The symbols are listed by the array `symbols` of the document. A list is refused where an element
/// does not tell the type of its contract, or where a perpetual contract does not tell its symbol.
pub proof fn law_symbols_are_listed_by_the_document(
    text: Seq<char>,
    r: Members,
    v: Seq<Seq<char>>,
    i: int,
)
    requires
        members(text) == Some(r),
        list_at(r, "symbols"@) == Some(v),
        0 <= i < v.len(),
    ensures
        symbol_list(text) == Some(v),
        lists_symbols(text) ==> told_at(v[i], "contractType"@) is Some,
        lists_symbols(text) && told_at(v[i], "contractType"@) == Some("PERPETUAL"@) ==> told_at(
            v[i],
            "symbol"@,
        ) is Some,
        members(v[i]) is Some ==> told_at(v[i], "contractType"@) == text_at(
            members(v[i])->0,
            "contractType"@,
        ) && told_at(v[i], "symbol"@) == text_at(members(v[i])->0, "symbol"@),
{
    if lists_symbols(text) {
        assert(is_symbol(v[i]));
    }
}

/// A connection hands on texts and nothing else, answers pings and nothing else, and ends just where
/// nobody takes texts any more, where it ended, where it was closed or pings cannot be answered, where
/// it failed, or where no ping came for more than five minutes.
pub proof fn law_connection_ends_for_a_reason(event: SocketEvent)
    ensures
        action_for(event) is Forward <==> event is Text,
        action_for(event) is Pong <==> event is Ping,
        action_for(event) is Finish <==> event is ForwardFailed || event is Ended,
        action_for(event) is Closed <==> event is Close || event is PongFailed,
        action_for(event) is Failed <==> event is Failed,
        action_for(event) is TimedOut <==> event is Tick && event->Tick_0 > 300_000_000_000,
{
}

/// A template without a place for the symbol names one stream for all symbols. In any other the first
/// place for the symbol is filled with the name of the symbol in lower case, what stands before it
/// stays, and what follows is filled in the same way.
pub proof fn law_templates_are_filled(before: Seq<char>, after: Seq<char>, by: Seq<char>)
    requires
        forall|i: int| 0 <= i < before.len() ==> before[i] != '$',
    ensures
        replaced(before, "$symbol"@, by) == before,
        replaced(before + "$symbol"@ + after, "$symbol"@, by) == before + by + replaced(
            after,
            "$symbol"@,
            by,
        ),
    decreases before.len(),
{
    reveal_strlit("$symbol");
    let pat = "$symbol"@;
    let all = before + pat + after;
    if before.len() == 0 {
        assert(all.take(pat.len() as int) =~= pat);
        assert(all.skip(pat.len() as int) =~= after);
        assert(replaced(all, pat, by) =~= before + by + replaced(after, pat, by));
        assert(replaced(before, pat, by) =~= before);
    } else {
        let rest = before.skip(1);
        assert forall|i: int| 0 <= i < rest.len() implies rest[i] != '$' by {
            assert(rest[i] == before[i + 1]);
        }
        law_templates_are_filled(rest, after, by);
        assert(all.take(pat.len() as int)[0] == before[0]);
        assert(all.skip(1) =~= rest + pat + after);
        assert(all[0] == before[0]);
        assert(replaced(all, pat, by) =~= before + by + replaced(after, pat, by));
        if before.len() >= pat.len() {
            assert(before.take(pat.len() as int)[0] == before[0]);
        }
        assert(replaced(before, pat, by) =~= before);
    }
}

/// Every symbol is connected for with every template, symbol by symbol in their order and template by
/// template in theirs: the stream of a symbol at a place is the template at that place, filled with the
/// name of the symbol in lower case.
pub proof fn law_every_symbol_has_every_stream(
    streams: Seq<Seq<char>>,
    a: Seq<Seq<char>>,
    b: Seq<Seq<char>>,
    symbol: Seq<char>,
    i: int,
)
    ensures
        all_streams(streams, a + b) == all_streams(streams, a) + all_streams(streams, b),
        all_streams(streams, seq![symbol]).len() == streams.len(),
        0 <= i < streams.len() ==> all_streams(streams, seq![symbol])[i] == replaced(
            streams[i],
            "$symbol"@,
            lowercase(symbol),
        ),
        all_streams(streams, seq![]).len() == 0,
    decreases b.len(),
{
    reveal_with_fuel(all_streams, 2);
    assert(seq![symbol].drop_last() =~= seq![]);
    assert(seq![symbol].last() == symbol);
    assert(all_streams(streams, seq![symbol]) =~= symbol_streams(streams, symbol));
    if b.len() == 0 {
        assert(a + b =~= a);
        assert(all_streams(streams, a + b) =~= all_streams(streams, a) + all_streams(streams, b));
    } else {
        law_every_symbol_has_every_stream(streams, a, b.drop_last(), symbol, i);
        assert((a + b).drop_last() =~= a + b.drop_last());
        assert((a + b).last() == b.last());
        assert(all_streams(streams, a + b) =~= all_streams(streams, a) + all_streams(streams, b));
    }
}

/// The address of a connection is the base, the path, and every stream, with a slash between
/// neighbours.
pub proof fn law_address_names_every_stream(
    base_url: Seq<char>,
    streams: Seq<Seq<char>>,
    symbols: Seq<Seq<char>>,
    i: int,
)
    ensures
        (base_url + "/stream?streams="@).is_prefix_of(url_of(base_url, streams, symbols)),
        url_of(base_url, streams, symbols).skip((base_url + "/stream?streams="@).len() as int)
            == joined(all_streams(streams, symbols), "/"@),
        0 <= i < all_streams(streams, symbols).len() ==> holds(
            url_of(base_url, streams, symbols),
            all_streams(streams, symbols)[i],
        ),
{
    let head = base_url + "/stream?streams="@;
    let names = all_streams(streams, symbols);
    let url = url_of(base_url, streams, symbols);
    assert(url.subrange(0, head.len() as int) =~= head);
    assert(url.skip(head.len() as int) =~= joined(names, "/"@));
    if 0 <= i < names.len() {
        lemma_joined_holds(names, "/"@, i);
        lemma_holds_within(head, joined(names, "/"@), names[i]);
    }
}

/// The snapshot of a book is asked for by its symbol.
pub proof fn law_snapshot_is_asked_for_by_symbol(symbol: Seq<char>)
    ensures
        holds(snapshot_chars(symbol), "/fapi/v1/depth?symbol="@ + symbol + "&limit=1000"@),
{
    reveal_strlit("https://fapi.binance.com/fapi/v1/depth?symbol=");
    reveal_strlit("https://fapi.binance.com");
    reveal_strlit("/fapi/v1/depth?symbol=");
    let host = "https://fapi.binance.com"@;
    let path = "/fapi/v1/depth?symbol="@;
    assert("https://fapi.binance.com/fapi/v1/depth?symbol="@ =~= host + path);
    lemma_holds_three(host, path, symbol, "&limit=1000"@);
}

/// The number of errors in a row after connections that failed one after the other, each of which had
/// lived so long.
pub open spec fn errors_in_a_row(lived: Seq<u128>) -> u32
    decreases lived.len(),
{
    if lived.len() == 0 {
        0
    } else {
        errors_after(errors_in_a_row(lived.drop_last()), lived.last())
    }
}

/// Errors in a row are counted: connections that each lived no more than half a minute count one
/// each, and one that lived longer is forgiven and starts the count anew.
pub proof fn law_errors_in_a_row_are_counted(lived: Seq<u128>, last: u128)
    ensures
        last > 30_000_000_000 ==> errors_in_a_row(lived.push(last)) == 0,
        last <= 30_000_000_000 && errors_in_a_row(lived) < u32::MAX ==> errors_in_a_row(
            lived.push(last),
        ) == errors_in_a_row(lived) + 1,
        (forall|i: int| 0 <= i < lived.len() ==> #[trigger] lived[i] <= 30_000_000_000)
            && lived.len() <= u32::MAX ==> errors_in_a_row(lived) == lived.len(),
    decreases lived.len(),
{
    assert(lived.push(last).drop_last() =~= lived);
    assert(lived.push(last).last() == last);
    if lived.len() > 0 {
        let rest = lived.drop_last();
        law_errors_in_a_row_are_counted(rest, last);
        if forall|i: int| 0 <= i < lived.len() ==> #[trigger] lived[i] <= 30_000_000_000 {
            assert forall|i: int| 0 <= i < rest.len() implies #[trigger] rest[i]
                <= 30_000_000_000 by {
                assert(rest[i] == lived[i]);
            }
            assert(lived[lived.len() - 1] == lived.last());
        }
    }
}

/// Another connection, to the same address, follows each but one that ended without an error. There
/// is a pause of a second before it just where the connection failed and more than three errors in a
/// row are counted with it.
pub proof fn law_failed_connections_are_renewed(
    errors: u32,
    outcome: Outcome,
    address: Seq<char>,
    r: Next,
)
    requires
        keeps_on(errors, outcome, address, r),
    ensures
        r is Stop <==> outcome is Ended,
        r is Connect ==> r->Connect_url@ == address,
        outcome is Unstarted ==> r->Connect_errors == errors && r->Connect_pause == 0,
        outcome is Failed && outcome->Failed_0 > 30_000_000_000 ==> r->Connect_errors == 0
            && r->Connect_pause == 0,
        outcome is Failed && outcome->Failed_0 <= 30_000_000_000 && errors < u32::MAX
            ==> r->Connect_errors == errors + 1,
        outcome is Failed && outcome->Failed_0 <= 30_000_000_000 && errors == u32::MAX
            ==> r->Connect_errors == u32::MAX,
        outcome is Failed && outcome->Failed_0 <= 30_000_000_000 && errors < 3
            ==> r->Connect_pause == 0,
        outcome is Failed && outcome->Failed_0 <= 30_000_000_000 && errors >= 3
            ==> r->Connect_pause == 1,
{
}

/// The symbols that a document gives are those of its perpetual contracts and no others: each is the
/// symbol of a perpetual contract of the array `symbols`, and each of those is given.
pub proof fn law_documents_give_their_perpetuals(
    text: Seq<char>,
    r: Members,
    v: Seq<Seq<char>>,
    symbols: Seq<Seq<char>>,
    symbol: Seq<char>,
)
    requires
        members(text) == Some(r),
        list_at(r, "symbols"@) == Some(v),
        lists_symbols(text),
        gives_perpetuals(text, symbols),
    ensures
        symbols.contains(symbol) <==> exists|i: int|
            0 <= i < v.len() && told_at(#[trigger] v[i], "contractType"@) == Some("PERPETUAL"@)
                && told_at(v[i], "symbol"@) == Some(symbol),
        symbols.len() <= v.len(),
{
    law_perpetuals_are_those_listed(v, symbol);
    lemma_perpetuals_len(v);
}

/// There are no more perpetual contracts than contracts.
proof fn lemma_perpetuals_len(v: Seq<Seq<char>>)
    ensures
        perpetuals(v).len() <= v.len(),
    decreases v.len(),
{
    if v.len() > 0 {
        lemma_perpetuals_len(v.drop_last());
    }
}

} // verus!
