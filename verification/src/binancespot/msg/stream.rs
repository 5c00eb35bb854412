//! Messages of the market-data and user-data streams.

use vstd::prelude::*;
use vstd::string::*;
use crate::decimal::in_range;
use crate::json::{
    decimal_at, field, flag_at, int_at, is_document, law_object_holds_its_members, member_views,
    members, nat_at, object_chars, object_text, opt_flag_at, opt_int_at, opt_nat_at, opt_text_at, plain_at,
    quote, quoted, text_at, written_member, Json, Members, Record, ToJson,
};
use crate::text::{holds, lemma_holds_trans, lemma_holds_within, nat_chars, nat_text};
use crate::types::{OrdType, Side, Status, TimeInForce};
use super::{
    get_levels, get_lower, get_many, get_maybe, get_maybe_many, get_one, get_side, get_status,
    get_tagged, get_tif, get_time, get_type, get_value, int_of, key_texts, levels_at, levels_shape,
    lower_at, many_read, many_shape, maybe_many_read, maybe_many_shape, maybe_reads, maybe_shape,
    nat_of, one_reads, one_shape, side_at, status_at, tagged_reads, tagged_shape, tif_at, time_at,
    type_at, value_at, value_shape, view_of, Fields, Message, TIME_MAX, TIME_MIN,
};

verus! {

/// The answer to a subscription request.
#[derive(Clone, Debug)]
pub struct Result {
    pub result: Option<String>,
    pub id: String,
}

impl Fields for Result {
    open spec fn keys() -> Seq<Seq<char>> {
        seq![
            "result"@, "id"@,
        ]
    }

    open spec fn least() -> nat {
        2
    }

    open spec fn spelled(r: Members) -> bool {
        &&& opt_text_at(r, "result"@) is Some
        &&& text_at(r, "id"@) is Some
    }

    open spec fn taken(&self, r: Members) -> bool {
        &&& opt_text_at(r, "result"@) == Some(view_of(self.result))
        &&& text_at(r, "id"@) == Some(self.id@)
    }

    open spec fn sound(&self) -> bool {
        true
    }

    fn key_list() -> (v: Vec<&'static str>) {
        let v: Vec<&'static str> = vec![
            "result", "id",
        ];
        assert(key_texts(v@) =~= Self::keys());
        v
    }

    fn least_len() -> (n: usize) {
        2
    }

    fn take(r: &Record) -> (x: Option<Result>) {
        Some(
            Result {
                result: r.get_opt_text("result")?,
                id: r.get_text("id")?,
            },
        )
    }
}

/// The best bid and ask. Such a frame names no event type and no time.
#[derive(Clone, Debug)]
pub struct BookTicker {
    pub update_id: i64,
    pub symbol: String,
    pub best_bid: String,
    pub best_bid_qty: String,
    pub best_ask: String,
    pub best_ask_qty: String,
}

impl Fields for BookTicker {
    open spec fn keys() -> Seq<Seq<char>> {
        seq![
            "u"@, "s"@, "b"@, "B"@, "a"@, "A"@,
        ]
    }

    open spec fn least() -> nat {
        6
    }

    open spec fn spelled(r: Members) -> bool {
        &&& int_at(r, "u"@, i64::MIN as int, i64::MAX as int) is Some
        &&& lower_at(r, "s"@) is Some
        &&& plain_at(r, "b"@) is Some
        &&& plain_at(r, "B"@) is Some
        &&& plain_at(r, "a"@) is Some
        &&& plain_at(r, "A"@) is Some
    }

    open spec fn taken(&self, r: Members) -> bool {
        &&& int_at(r, "u"@, i64::MIN as int, i64::MAX as int) == Some(self.update_id as int)
        &&& lower_at(r, "s"@) == Some(self.symbol@)
        &&& plain_at(r, "b"@) == Some(self.best_bid@)
        &&& plain_at(r, "B"@) == Some(self.best_bid_qty@)
        &&& plain_at(r, "a"@) == Some(self.best_ask@)
        &&& plain_at(r, "A"@) == Some(self.best_ask_qty@)
    }

    open spec fn sound(&self) -> bool {
        true
    }

    fn key_list() -> (v: Vec<&'static str>) {
        let v: Vec<&'static str> = vec![
            "u", "s", "b", "B", "a", "A",
        ];
        assert(key_texts(v@) =~= Self::keys());
        v
    }

    fn least_len() -> (n: usize) {
        6
    }

    fn take(r: &Record) -> (x: Option<BookTicker>) {
        Some(
            BookTicker {
                update_id: r.get_i64("u")?,
                symbol: get_lower(r, "s")?,
                best_bid: r.get_plain("b")?,
                best_bid_qty: r.get_plain("B")?,
                best_ask: r.get_plain("a")?,
                best_ask_qty: r.get_plain("A")?,
            },
        )
    }
}

/// A change of the book: the updates from the first to the last identifier.
#[derive(Clone, Debug)]
pub struct Depth {
    pub event_time: i64,
    pub symbol: String,
    pub first_update_id: i64,
    pub last_update_id: i64,
    pub bids: Vec<(String, String)>,
    pub asks: Vec<(String, String)>,
}

impl Fields for Depth {
    open spec fn keys() -> Seq<Seq<char>> {
        seq![
            "E"@, "s"@, "U"@, "u"@, "b"@, "a"@,
        ]
    }

    open spec fn least() -> nat {
        6
    }

    open spec fn spelled(r: Members) -> bool {
        &&& time_at(r, "E"@) is Some
        &&& lower_at(r, "s"@) is Some
        &&& int_at(r, "U"@, i64::MIN as int, i64::MAX as int) is Some
        &&& int_at(r, "u"@, i64::MIN as int, i64::MAX as int) is Some
        &&& levels_shape(r, "b"@, true)
        &&& levels_shape(r, "a"@, true)
    }

    open spec fn taken(&self, r: Members) -> bool {
        &&& time_at(r, "E"@) == Some(self.event_time as int)
        &&& lower_at(r, "s"@) == Some(self.symbol@)
        &&& int_at(r, "U"@, i64::MIN as int, i64::MAX as int) == Some(self.first_update_id as int)
        &&& int_at(r, "u"@, i64::MIN as int, i64::MAX as int) == Some(self.last_update_id as int)
        &&& levels_at(r, "b"@, true, self.bids@)
        &&& levels_at(r, "a"@, true, self.asks@)
    }

    open spec fn sound(&self) -> bool {
        &&& TIME_MIN <= self.event_time <= TIME_MAX
    }

    fn key_list() -> (v: Vec<&'static str>) {
        let v: Vec<&'static str> = vec![
            "E", "s", "U", "u", "b", "a",
        ];
        assert(key_texts(v@) =~= Self::keys());
        v
    }

    fn least_len() -> (n: usize) {
        6
    }

    fn take(r: &Record) -> (x: Option<Depth>) {
        Some(
            Depth {
                event_time: get_time(r, "E")?,
                symbol: get_lower(r, "s")?,
                first_update_id: r.get_i64("U")?,
                last_update_id: r.get_i64("u")?,
                bids: get_levels(r, "b", true)?,
                asks: get_levels(r, "a", true)?,
            },
        )
    }
}

/// An aggregated trade.
#[derive(Clone, Debug)]
pub struct AggTrade {
    pub event_time: i64,
    pub symbol: String,
    pub aggregated_trade_id: i64,
    pub price: String,
    pub quantity: String,
    pub first_trade_id: i64,
    pub last_trade_id: i64,
    pub filled_time: i64,
    pub is_market_maker: bool,
    pub ignore: bool,
}

impl Fields for AggTrade {
    open spec fn keys() -> Seq<Seq<char>> {
        seq![
            "E"@, "s"@, "a"@, "p"@, "q"@, "f"@, "l"@, "T"@, "m"@, "M"@,
        ]
    }

    open spec fn least() -> nat {
        10
    }

    open spec fn spelled(r: Members) -> bool {
        &&& int_at(r, "E"@, i64::MIN as int, i64::MAX as int) is Some
        &&& lower_at(r, "s"@) is Some
        &&& int_at(r, "a"@, i64::MIN as int, i64::MAX as int) is Some
        &&& plain_at(r, "p"@) is Some
        &&& plain_at(r, "q"@) is Some
        &&& int_at(r, "f"@, i64::MIN as int, i64::MAX as int) is Some
        &&& int_at(r, "l"@, i64::MIN as int, i64::MAX as int) is Some
        &&& int_at(r, "T"@, i64::MIN as int, i64::MAX as int) is Some
        &&& flag_at(r, "m"@) is Some
        &&& flag_at(r, "M"@) is Some
    }

    open spec fn taken(&self, r: Members) -> bool {
        &&& int_at(r, "E"@, i64::MIN as int, i64::MAX as int) == Some(self.event_time as int)
        &&& lower_at(r, "s"@) == Some(self.symbol@)
        &&& int_at(r, "a"@, i64::MIN as int, i64::MAX as int) == Some(
            self.aggregated_trade_id as int,
        )
        &&& plain_at(r, "p"@) == Some(self.price@)
        &&& plain_at(r, "q"@) == Some(self.quantity@)
        &&& int_at(r, "f"@, i64::MIN as int, i64::MAX as int) == Some(self.first_trade_id as int)
        &&& int_at(r, "l"@, i64::MIN as int, i64::MAX as int) == Some(self.last_trade_id as int)
        &&& int_at(r, "T"@, i64::MIN as int, i64::MAX as int) == Some(self.filled_time as int)
        &&& flag_at(r, "m"@) == Some(self.is_market_maker)
        &&& flag_at(r, "M"@) == Some(self.ignore)
    }

    open spec fn sound(&self) -> bool {
        true
    }

    fn key_list() -> (v: Vec<&'static str>) {
        let v: Vec<&'static str> = vec![
            "E", "s", "a", "p", "q", "f", "l", "T", "m", "M",
        ];
        assert(key_texts(v@) =~= Self::keys());
        v
    }

    fn least_len() -> (n: usize) {
        10
    }

    fn take(r: &Record) -> (x: Option<AggTrade>) {
        Some(
            AggTrade {
                event_time: r.get_i64("E")?,
                symbol: get_lower(r, "s")?,
                aggregated_trade_id: r.get_i64("a")?,
                price: r.get_plain("p")?,
                quantity: r.get_plain("q")?,
                first_trade_id: r.get_i64("f")?,
                last_trade_id: r.get_i64("l")?,
                filled_time: r.get_i64("T")?,
                is_market_maker: r.get_flag("m")?,
                ignore: r.get_flag("M")?,
            },
        )
    }
}

/// A trade.
#[derive(Clone, Debug)]
pub struct Trade {
    pub event_time: i64,
    pub symbol: String,
    pub trade_id: i64,
    pub price: String,
    pub quantity: String,
    pub trade_time: i64,
    pub is_market_maker: bool,
    pub ignore: bool,
}

impl Fields for Trade {
    open spec fn keys() -> Seq<Seq<char>> {
        seq![
            "E"@, "s"@, "t"@, "p"@, "q"@, "T"@, "m"@, "M"@,
        ]
    }

    open spec fn least() -> nat {
        8
    }

    open spec fn spelled(r: Members) -> bool {
        &&& time_at(r, "E"@) is Some
        &&& lower_at(r, "s"@) is Some
        &&& int_at(r, "t"@, i64::MIN as int, i64::MAX as int) is Some
        &&& plain_at(r, "p"@) is Some
        &&& plain_at(r, "q"@) is Some
        &&& int_at(r, "T"@, i64::MIN as int, i64::MAX as int) is Some
        &&& flag_at(r, "m"@) is Some
        &&& flag_at(r, "M"@) is Some
    }

    open spec fn taken(&self, r: Members) -> bool {
        &&& time_at(r, "E"@) == Some(self.event_time as int)
        &&& lower_at(r, "s"@) == Some(self.symbol@)
        &&& int_at(r, "t"@, i64::MIN as int, i64::MAX as int) == Some(self.trade_id as int)
        &&& plain_at(r, "p"@) == Some(self.price@)
        &&& plain_at(r, "q"@) == Some(self.quantity@)
        &&& int_at(r, "T"@, i64::MIN as int, i64::MAX as int) == Some(self.trade_time as int)
        &&& flag_at(r, "m"@) == Some(self.is_market_maker)
        &&& flag_at(r, "M"@) == Some(self.ignore)
    }

    open spec fn sound(&self) -> bool {
        &&& TIME_MIN <= self.event_time <= TIME_MAX
    }

    fn key_list() -> (v: Vec<&'static str>) {
        let v: Vec<&'static str> = vec![
            "E", "s", "t", "p", "q", "T", "m", "M",
        ];
        assert(key_texts(v@) =~= Self::keys());
        v
    }

    fn least_len() -> (n: usize) {
        8
    }

    fn take(r: &Record) -> (x: Option<Trade>) {
        Some(
            Trade {
                event_time: get_time(r, "E")?,
                symbol: get_lower(r, "s")?,
                trade_id: r.get_i64("t")?,
                price: r.get_plain("p")?,
                quantity: r.get_plain("q")?,
                trade_time: r.get_i64("T")?,
                is_market_maker: r.get_flag("m")?,
                ignore: r.get_flag("M")?,
            },
        )
    }
}

/// A candlestick.
#[derive(Clone, Debug)]
pub struct Kline {
    pub start_time: i64,
    pub end_time: i64,
    pub symbol: String,
    pub interval: String,
    pub first_trade_id: i64,
    pub last_trade_id: i64,
    pub open_price: String,
    pub close_price: String,
    pub high_price: String,
    pub low_price: String,
    pub volume: String,
    pub trade_count: i64,
    pub is_closed: bool,
    pub quote_asset_volume: String,
    pub taker_buy_base_asset_volume: String,
    pub taker_buy_quote_asset_volume: String,
    pub ignore: String,
}

impl Fields for Kline {
    open spec fn keys() -> Seq<Seq<char>> {
        seq![
            "t"@, "T"@, "s"@, "i"@, "f"@, "L"@, "o"@, "c"@, "h"@, "l"@, "v"@, "n"@, "x"@, "q"@,
            "V"@, "Q"@, "B"@,
        ]
    }

    open spec fn least() -> nat {
        17
    }

    open spec fn spelled(r: Members) -> bool {
        &&& int_at(r, "t"@, i64::MIN as int, i64::MAX as int) is Some
        &&& int_at(r, "T"@, i64::MIN as int, i64::MAX as int) is Some
        &&& lower_at(r, "s"@) is Some
        &&& text_at(r, "i"@) is Some
        &&& int_at(r, "f"@, i64::MIN as int, i64::MAX as int) is Some
        &&& int_at(r, "L"@, i64::MIN as int, i64::MAX as int) is Some
        &&& text_at(r, "o"@) is Some
        &&& text_at(r, "c"@) is Some
        &&& text_at(r, "h"@) is Some
        &&& text_at(r, "l"@) is Some
        &&& text_at(r, "v"@) is Some
        &&& int_at(r, "n"@, i64::MIN as int, i64::MAX as int) is Some
        &&& flag_at(r, "x"@) is Some
        &&& text_at(r, "q"@) is Some
        &&& text_at(r, "V"@) is Some
        &&& text_at(r, "Q"@) is Some
        &&& text_at(r, "B"@) is Some
    }

    open spec fn taken(&self, r: Members) -> bool {
        &&& int_at(r, "t"@, i64::MIN as int, i64::MAX as int) == Some(self.start_time as int)
        &&& int_at(r, "T"@, i64::MIN as int, i64::MAX as int) == Some(self.end_time as int)
        &&& lower_at(r, "s"@) == Some(self.symbol@)
        &&& text_at(r, "i"@) == Some(self.interval@)
        &&& int_at(r, "f"@, i64::MIN as int, i64::MAX as int) == Some(self.first_trade_id as int)
        &&& int_at(r, "L"@, i64::MIN as int, i64::MAX as int) == Some(self.last_trade_id as int)
        &&& text_at(r, "o"@) == Some(self.open_price@)
        &&& text_at(r, "c"@) == Some(self.close_price@)
        &&& text_at(r, "h"@) == Some(self.high_price@)
        &&& text_at(r, "l"@) == Some(self.low_price@)
        &&& text_at(r, "v"@) == Some(self.volume@)
        &&& int_at(r, "n"@, i64::MIN as int, i64::MAX as int) == Some(self.trade_count as int)
        &&& flag_at(r, "x"@) == Some(self.is_closed)
        &&& text_at(r, "q"@) == Some(self.quote_asset_volume@)
        &&& text_at(r, "V"@) == Some(self.taker_buy_base_asset_volume@)
        &&& text_at(r, "Q"@) == Some(self.taker_buy_quote_asset_volume@)
        &&& text_at(r, "B"@) == Some(self.ignore@)
    }

    open spec fn sound(&self) -> bool {
        true
    }

    fn key_list() -> (v: Vec<&'static str>) {
        let v: Vec<&'static str> = vec![
            "t", "T", "s", "i", "f", "L", "o", "c", "h", "l", "v", "n", "x", "q", "V", "Q", "B",
        ];
        assert(key_texts(v@) =~= Self::keys());
        v
    }

    fn least_len() -> (n: usize) {
        17
    }

    fn take(r: &Record) -> (x: Option<Kline>) {
        Some(
            Kline {
                start_time: r.get_i64("t")?,
                end_time: r.get_i64("T")?,
                symbol: get_lower(r, "s")?,
                interval: r.get_text("i")?,
                first_trade_id: r.get_i64("f")?,
                last_trade_id: r.get_i64("L")?,
                open_price: r.get_text("o")?,
                close_price: r.get_text("c")?,
                high_price: r.get_text("h")?,
                low_price: r.get_text("l")?,
                volume: r.get_text("v")?,
                trade_count: r.get_i64("n")?,
                is_closed: r.get_flag("x")?,
                quote_asset_volume: r.get_text("q")?,
                taker_buy_base_asset_volume: r.get_text("V")?,
                taker_buy_quote_asset_volume: r.get_text("Q")?,
                ignore: r.get_text("B")?,
            },
        )
    }
}

/// A change of a candlestick.
#[derive(Clone, Debug)]
pub struct KlineEvent {
    pub event_time: i64,
    pub symbol: String,
    pub kline: Kline,
}

impl Fields for KlineEvent {
    open spec fn keys() -> Seq<Seq<char>> {
        seq![
            "E"@, "s"@, "k"@,
        ]
    }

    open spec fn least() -> nat {
        3
    }

    open spec fn spelled(r: Members) -> bool {
        &&& int_at(r, "E"@, i64::MIN as int, i64::MAX as int) is Some
        &&& lower_at(r, "s"@) is Some
        &&& one_shape::<Kline>(r, "k"@)
    }

    open spec fn taken(&self, r: Members) -> bool {
        &&& int_at(r, "E"@, i64::MIN as int, i64::MAX as int) == Some(self.event_time as int)
        &&& lower_at(r, "s"@) == Some(self.symbol@)
        &&& one_reads(r, "k"@, self.kline)
    }

    open spec fn sound(&self) -> bool {
        true
    }

    fn key_list() -> (v: Vec<&'static str>) {
        let v: Vec<&'static str> = vec![
            "E", "s", "k",
        ];
        assert(key_texts(v@) =~= Self::keys());
        v
    }

    fn least_len() -> (n: usize) {
        3
    }

    fn take(r: &Record) -> (x: Option<KlineEvent>) {
        Some(
            KlineEvent {
                event_time: r.get_i64("E")?,
                symbol: get_lower(r, "s")?,
                kline: get_one(r, "k")?,
            },
        )
    }
}

/// An event of the market-data stream that names its type.
#[derive(Clone, Debug)]
pub enum MarketEventStream {
    DepthUpdate(Depth),
    AggTrade(AggTrade),
    Trade(Trade),
    Kline(KlineEvent),
}

impl Message for MarketEventStream {
    open spec fn shape(text: Seq<char>) -> bool {
        ||| tagged_shape::<Depth>(text, "depthUpdate"@)
        ||| tagged_shape::<AggTrade>(text, "aggTrade"@)
        ||| tagged_shape::<Trade>(text, "trade"@)
        ||| tagged_shape::<KlineEvent>(text, "kline"@)
    }

    open spec fn reads(&self, text: Seq<char>) -> bool {
        match self {
            MarketEventStream::DepthUpdate(x) => tagged_reads(text, "depthUpdate"@, *x),
            MarketEventStream::AggTrade(x) => tagged_reads(text, "aggTrade"@, *x),
            MarketEventStream::Trade(x) => tagged_reads(text, "trade"@, *x),
            MarketEventStream::Kline(x) => tagged_reads(text, "kline"@, *x),
        }
    }

    open spec fn wf(&self) -> bool {
        match self {
            MarketEventStream::DepthUpdate(x) => x.wf(),
            MarketEventStream::AggTrade(x) => x.wf(),
            MarketEventStream::Trade(x) => x.wf(),
            MarketEventStream::Kline(x) => x.wf(),
        }
    }

    fn decode(j: &Json) -> (r: Option<MarketEventStream>) {
        if let Some(x) = get_tagged::<Depth>(j, "depthUpdate") {
            return Some(MarketEventStream::DepthUpdate(x));
        }
        if let Some(x) = get_tagged::<AggTrade>(j, "aggTrade") {
            return Some(MarketEventStream::AggTrade(x));
        }
        if let Some(x) = get_tagged::<Trade>(j, "trade") {
            return Some(MarketEventStream::Trade(x));
        }
        if let Some(x) = get_tagged::<KlineEvent>(j, "kline") {
            return Some(MarketEventStream::Kline(x));
        }
        None
    }
}

/// A frame of the market-data stream. A frame that names its event type is such an event; else it
/// is a best bid and ask where it spells one, and else the answer to a subscription request.
#[derive(Clone, Debug)]
pub enum MarketStream {
    EventStream(MarketEventStream),
    BookTicker(BookTicker),
    Result(Result),
}

impl Message for MarketStream {
    open spec fn shape(text: Seq<char>) -> bool {
        &&& is_document(text)
        &&& MarketEventStream::shape(text) || BookTicker::shape(text) || Result::shape(text)
    }

    open spec fn reads(&self, text: Seq<char>) -> bool {
        match self {
            MarketStream::EventStream(x) => x.reads(text),
            MarketStream::BookTicker(x) => x.reads(text) && !MarketEventStream::shape(text),
            MarketStream::Result(x) => {
                &&& x.reads(text)
                &&& !MarketEventStream::shape(text)
                &&& !BookTicker::shape(text)
            },
        }
    }

    open spec fn wf(&self) -> bool {
        match self {
            MarketStream::EventStream(x) => x.wf(),
            MarketStream::BookTicker(x) => x.wf(),
            MarketStream::Result(x) => x.wf(),
        }
    }

    fn decode(j: &Json) -> (r: Option<MarketStream>) {
        if !j.is_valid() {
            return None;
        }
        if let Some(x) = MarketEventStream::decode(j) {
            return Some(MarketStream::EventStream(x));
        }
        if let Some(x) = BookTicker::decode(j) {
            return Some(MarketStream::BookTicker(x));
        }
        match Result::decode(j) {
            Some(x) => Some(MarketStream::Result(x)),
            None => None,
        }
    }
}

/// The balance of one asset.
#[derive(Clone, Debug)]
pub struct Balance {
    pub asset: String,
    pub free: i128,
    pub locked: String,
}

impl Fields for Balance {
    open spec fn keys() -> Seq<Seq<char>> {
        seq![
            "a"@, "f"@, "l"@,
        ]
    }

    open spec fn least() -> nat {
        3
    }

    open spec fn spelled(r: Members) -> bool {
        &&& lower_at(r, "a"@) is Some
        &&& decimal_at(r, "f"@) is Some
        &&& text_at(r, "l"@) is Some
    }

    open spec fn taken(&self, r: Members) -> bool {
        &&& lower_at(r, "a"@) == Some(self.asset@)
        &&& decimal_at(r, "f"@) == Some(self.free as int)
        &&& text_at(r, "l"@) == Some(self.locked@)
    }

    open spec fn sound(&self) -> bool {
        true
    }

    fn key_list() -> (v: Vec<&'static str>) {
        let v: Vec<&'static str> = vec![
            "a", "f", "l",
        ];
        assert(key_texts(v@) =~= Self::keys());
        v
    }

    fn least_len() -> (n: usize) {
        3
    }

    fn take(r: &Record) -> (x: Option<Balance>) {
        Some(
            Balance {
                asset: get_lower(r, "a")?,
                free: r.get_decimal("f")?,
                locked: r.get_text("l")?,
            },
        )
    }
}

/// The balances that an account update changed.
#[derive(Clone, Debug)]
pub struct OutboundAccountPosition {
    pub event_time: i64,
    pub last_update_time: i64,
    pub balances: Vec<Balance>,
}

impl Fields for OutboundAccountPosition {
    open spec fn keys() -> Seq<Seq<char>> {
        seq![
            "E"@, "u"@, "B"@,
        ]
    }

    open spec fn least() -> nat {
        3
    }

    open spec fn spelled(r: Members) -> bool {
        &&& time_at(r, "E"@) is Some
        &&& int_at(r, "u"@, i64::MIN as int, i64::MAX as int) is Some
        &&& many_shape::<Balance>(r, "B"@)
    }

    open spec fn taken(&self, r: Members) -> bool {
        &&& time_at(r, "E"@) == Some(self.event_time as int)
        &&& int_at(r, "u"@, i64::MIN as int, i64::MAX as int) == Some(self.last_update_time as int)
        &&& many_read(r, "B"@, self.balances@)
    }

    open spec fn sound(&self) -> bool {
        &&& TIME_MIN <= self.event_time <= TIME_MAX
    }

    fn key_list() -> (v: Vec<&'static str>) {
        let v: Vec<&'static str> = vec![
            "E", "u", "B",
        ];
        assert(key_texts(v@) =~= Self::keys());
        v
    }

    fn least_len() -> (n: usize) {
        3
    }

    fn take(r: &Record) -> (x: Option<OutboundAccountPosition>) {
        Some(
            OutboundAccountPosition {
                event_time: get_time(r, "E")?,
                last_update_time: r.get_i64("u")?,
                balances: get_many(r, "B")?,
            },
        )
    }
}

/// What happened to an order.
#[derive(Clone, Debug)]
pub struct ExecutionReport {
    pub event_time: i64,
    pub symbol: String,
    pub client_order_id: String,
    pub side: Side,
    pub order_type: OrdType,
    pub time_in_force: TimeInForce,
    pub quantity: i128,
    pub price: i128,
    pub stop_price: i128,
    pub iceberg_quantity: i128,
    pub order_list_id: i64,
    pub original_client_order_id: Option<String>,
    pub execution_type: String,
    pub order_status: Status,
    pub rejection_reason: String,
    pub order_id: u64,
    pub order_last_filled_quantity: i128,
    pub order_filled_accumulated_quantity: i128,
    pub last_filled_price: i128,
    pub commission: String,
    pub commission_asset: Option<String>,
    pub order_trade_time: u64,
    pub t: i64,
    pub execution_id: u64,
    pub is_on_order_book: bool,
    pub is_maker: bool,
    pub ignore: bool,
    pub order_creation_time: u64,
    pub cumulative_filled_amount: i128,
    pub last_filled_amount: i128,
    pub quote_order_quantity: i128,
    pub trailing_time: Option<i64>,
    pub trailing_delta: Option<i64>,
    pub strategy_id: Option<i64>,
    pub strategy_type: Option<i64>,
    pub prevented_match_id: Option<i64>,
    pub prevented_quantity: Option<String>,
    pub last_prevented_quantity: Option<String>,
    pub trade_group_id: Option<i64>,
    pub counter_order_id: Option<i64>,
    pub counter_symbol: Option<String>,
    pub preventedexecution_quantity: Option<String>,
    pub prevented_execution_price: Option<String>,
    pub prevented_execution_quote_qty: Option<String>,
    pub working_time: Option<u64>,
    pub match_type: Option<String>,
    pub allocation_id: Option<i64>,
    pub working_floor: Option<String>,
    pub used_sor: Option<bool>,
    pub self_trade_prevention_mode: String,
}

impl Fields for ExecutionReport {
    open spec fn keys() -> Seq<Seq<char>> {
        seq![
            "E"@, "s"@, "c"@, "S"@, "o"@, "f"@, "q"@, "p"@, "P"@, "F"@, "g"@, "C"@, "x"@, "X"@,
            "r"@, "i"@, "l"@, "z"@, "L"@, "n"@, "N"@, "T"@, "t"@, "I"@, "w"@, "m"@, "M"@, "O"@,
            "Z"@, "Y"@, "Q"@, "D"@, "d"@, "j"@, "J"@, "v"@, "A"@, "B"@, "u"@, "U"@, "Cs"@, "pl"@,
            "pL"@, "pY"@, "W"@, "b"@, "a"@, "k"@, "uS"@, "V"@,
        ]
    }

    open spec fn least() -> nat {
        50
    }

    open spec fn spelled(r: Members) -> bool {
        &&& time_at(r, "E"@) is Some
        &&& lower_at(r, "s"@) is Some
        &&& text_at(r, "c"@) is Some
        &&& side_at(r, "S"@) is Some
        &&& type_at(r, "o"@) is Some
        &&& tif_at(r, "f"@) is Some
        &&& decimal_at(r, "q"@) is Some
        &&& decimal_at(r, "p"@) is Some
        &&& decimal_at(r, "P"@) is Some
        &&& decimal_at(r, "F"@) is Some
        &&& int_at(r, "g"@, i64::MIN as int, i64::MAX as int) is Some
        &&& opt_text_at(r, "C"@) is Some
        &&& text_at(r, "x"@) is Some
        &&& status_at(r, "X"@) is Some
        &&& text_at(r, "r"@) is Some
        &&& nat_at(r, "i"@, u64::MAX as int) is Some
        &&& decimal_at(r, "l"@) is Some
        &&& decimal_at(r, "z"@) is Some
        &&& decimal_at(r, "L"@) is Some
        &&& text_at(r, "n"@) is Some
        &&& opt_text_at(r, "N"@) is Some
        &&& nat_at(r, "T"@, u64::MAX as int) is Some
        &&& int_at(r, "t"@, i64::MIN as int, i64::MAX as int) is Some
        &&& nat_at(r, "I"@, u64::MAX as int) is Some
        &&& flag_at(r, "w"@) is Some
        &&& flag_at(r, "m"@) is Some
        &&& flag_at(r, "M"@) is Some
        &&& nat_at(r, "O"@, u64::MAX as int) is Some
        &&& decimal_at(r, "Z"@) is Some
        &&& decimal_at(r, "Y"@) is Some
        &&& decimal_at(r, "Q"@) is Some
        &&& opt_int_at(r, "D"@, i64::MIN as int, i64::MAX as int) is Some
        &&& opt_int_at(r, "d"@, i64::MIN as int, i64::MAX as int) is Some
        &&& opt_int_at(r, "j"@, i64::MIN as int, i64::MAX as int) is Some
        &&& opt_int_at(r, "J"@, i64::MIN as int, i64::MAX as int) is Some
        &&& opt_int_at(r, "v"@, i64::MIN as int, i64::MAX as int) is Some
        &&& opt_text_at(r, "A"@) is Some
        &&& opt_text_at(r, "B"@) is Some
        &&& opt_int_at(r, "u"@, i64::MIN as int, i64::MAX as int) is Some
        &&& opt_int_at(r, "U"@, i64::MIN as int, i64::MAX as int) is Some
        &&& opt_text_at(r, "Cs"@) is Some
        &&& opt_text_at(r, "pl"@) is Some
        &&& opt_text_at(r, "pL"@) is Some
        &&& opt_text_at(r, "pY"@) is Some
        &&& opt_nat_at(r, "W"@, u64::MAX as int) is Some
        &&& opt_text_at(r, "b"@) is Some
        &&& opt_int_at(r, "a"@, i64::MIN as int, i64::MAX as int) is Some
        &&& opt_text_at(r, "k"@) is Some
        &&& opt_flag_at(r, "uS"@) is Some
        &&& text_at(r, "V"@) is Some
    }

    open spec fn taken(&self, r: Members) -> bool {
        &&& time_at(r, "E"@) == Some(self.event_time as int)
        &&& lower_at(r, "s"@) == Some(self.symbol@)
        &&& text_at(r, "c"@) == Some(self.client_order_id@)
        &&& side_at(r, "S"@) == Some(self.side)
        &&& type_at(r, "o"@) == Some(self.order_type)
        &&& tif_at(r, "f"@) == Some(self.time_in_force)
        &&& decimal_at(r, "q"@) == Some(self.quantity as int)
        &&& decimal_at(r, "p"@) == Some(self.price as int)
        &&& decimal_at(r, "P"@) == Some(self.stop_price as int)
        &&& decimal_at(r, "F"@) == Some(self.iceberg_quantity as int)
        &&& int_at(r, "g"@, i64::MIN as int, i64::MAX as int) == Some(self.order_list_id as int)
        &&& opt_text_at(r, "C"@) == Some(view_of(self.original_client_order_id))
        &&& text_at(r, "x"@) == Some(self.execution_type@)
        &&& status_at(r, "X"@) == Some(self.order_status)
        &&& text_at(r, "r"@) == Some(self.rejection_reason@)
        &&& nat_at(r, "i"@, u64::MAX as int) == Some(self.order_id as int)
        &&& decimal_at(r, "l"@) == Some(self.order_last_filled_quantity as int)
        &&& decimal_at(r, "z"@) == Some(self.order_filled_accumulated_quantity as int)
        &&& decimal_at(r, "L"@) == Some(self.last_filled_price as int)
        &&& text_at(r, "n"@) == Some(self.commission@)
        &&& opt_text_at(r, "N"@) == Some(view_of(self.commission_asset))
        &&& nat_at(r, "T"@, u64::MAX as int) == Some(self.order_trade_time as int)
        &&& int_at(r, "t"@, i64::MIN as int, i64::MAX as int) == Some(self.t as int)
        &&& nat_at(r, "I"@, u64::MAX as int) == Some(self.execution_id as int)
        &&& flag_at(r, "w"@) == Some(self.is_on_order_book)
        &&& flag_at(r, "m"@) == Some(self.is_maker)
        &&& flag_at(r, "M"@) == Some(self.ignore)
        &&& nat_at(r, "O"@, u64::MAX as int) == Some(self.order_creation_time as int)
        &&& decimal_at(r, "Z"@) == Some(self.cumulative_filled_amount as int)
        &&& decimal_at(r, "Y"@) == Some(self.last_filled_amount as int)
        &&& decimal_at(r, "Q"@) == Some(self.quote_order_quantity as int)
        &&& opt_int_at(r, "D"@, i64::MIN as int, i64::MAX as int) == Some(
            int_of(self.trailing_time),
        )
        &&& opt_int_at(r, "d"@, i64::MIN as int, i64::MAX as int) == Some(
            int_of(self.trailing_delta),
        )
        &&& opt_int_at(r, "j"@, i64::MIN as int, i64::MAX as int) == Some(int_of(self.strategy_id))
        &&& opt_int_at(r, "J"@, i64::MIN as int, i64::MAX as int) == Some(
            int_of(self.strategy_type),
        )
        &&& opt_int_at(r, "v"@, i64::MIN as int, i64::MAX as int) == Some(
            int_of(self.prevented_match_id),
        )
        &&& opt_text_at(r, "A"@) == Some(view_of(self.prevented_quantity))
        &&& opt_text_at(r, "B"@) == Some(view_of(self.last_prevented_quantity))
        &&& opt_int_at(r, "u"@, i64::MIN as int, i64::MAX as int) == Some(
            int_of(self.trade_group_id),
        )
        &&& opt_int_at(r, "U"@, i64::MIN as int, i64::MAX as int) == Some(
            int_of(self.counter_order_id),
        )
        &&& opt_text_at(r, "Cs"@) == Some(view_of(self.counter_symbol))
        &&& opt_text_at(r, "pl"@) == Some(view_of(self.preventedexecution_quantity))
        &&& opt_text_at(r, "pL"@) == Some(view_of(self.prevented_execution_price))
        &&& opt_text_at(r, "pY"@) == Some(view_of(self.prevented_execution_quote_qty))
        &&& opt_nat_at(r, "W"@, u64::MAX as int) == Some(nat_of(self.working_time))
        &&& opt_text_at(r, "b"@) == Some(view_of(self.match_type))
        &&& opt_int_at(r, "a"@, i64::MIN as int, i64::MAX as int) == Some(
            int_of(self.allocation_id),
        )
        &&& opt_text_at(r, "k"@) == Some(view_of(self.working_floor))
        &&& opt_flag_at(r, "uS"@) == Some(self.used_sor)
        &&& text_at(r, "V"@) == Some(self.self_trade_prevention_mode@)
    }

    open spec fn sound(&self) -> bool {
        &&& TIME_MIN <= self.event_time <= TIME_MAX
        &&& in_range(self.quantity as int)
        &&& in_range(self.order_last_filled_quantity as int)
        &&& in_range(self.order_filled_accumulated_quantity as int)
        &&& in_range(self.last_filled_price as int)
    }

    fn key_list() -> (v: Vec<&'static str>) {
        let v: Vec<&'static str> = vec![
            "E", "s", "c", "S", "o", "f", "q", "p", "P", "F", "g", "C", "x", "X", "r", "i", "l",
            "z", "L", "n", "N", "T", "t", "I", "w", "m", "M", "O", "Z", "Y", "Q", "D", "d", "j",
            "J", "v", "A", "B", "u", "U", "Cs", "pl", "pL", "pY", "W", "b", "a", "k", "uS", "V",
        ];
        assert(key_texts(v@) =~= Self::keys());
        v
    }

    fn least_len() -> (n: usize) {
        50
    }

    fn take(r: &Record) -> (x: Option<ExecutionReport>) {
        Some(
            ExecutionReport {
                event_time: get_time(r, "E")?,
                symbol: get_lower(r, "s")?,
                client_order_id: r.get_text("c")?,
                side: get_side(r, "S")?,
                order_type: get_type(r, "o")?,
                time_in_force: get_tif(r, "f")?,
                quantity: r.get_decimal("q")?,
                price: r.get_decimal("p")?,
                stop_price: r.get_decimal("P")?,
                iceberg_quantity: r.get_decimal("F")?,
                order_list_id: r.get_i64("g")?,
                original_client_order_id: r.get_opt_text("C")?,
                execution_type: r.get_text("x")?,
                order_status: get_status(r, "X")?,
                rejection_reason: r.get_text("r")?,
                order_id: r.get_u64("i")?,
                order_last_filled_quantity: r.get_decimal("l")?,
                order_filled_accumulated_quantity: r.get_decimal("z")?,
                last_filled_price: r.get_decimal("L")?,
                commission: r.get_text("n")?,
                commission_asset: r.get_opt_text("N")?,
                order_trade_time: r.get_u64("T")?,
                t: r.get_i64("t")?,
                execution_id: r.get_u64("I")?,
                is_on_order_book: r.get_flag("w")?,
                is_maker: r.get_flag("m")?,
                ignore: r.get_flag("M")?,
                order_creation_time: r.get_u64("O")?,
                cumulative_filled_amount: r.get_decimal("Z")?,
                last_filled_amount: r.get_decimal("Y")?,
                quote_order_quantity: r.get_decimal("Q")?,
                trailing_time: r.get_opt_i64("D")?,
                trailing_delta: r.get_opt_i64("d")?,
                strategy_id: r.get_opt_i64("j")?,
                strategy_type: r.get_opt_i64("J")?,
                prevented_match_id: r.get_opt_i64("v")?,
                prevented_quantity: r.get_opt_text("A")?,
                last_prevented_quantity: r.get_opt_text("B")?,
                trade_group_id: r.get_opt_i64("u")?,
                counter_order_id: r.get_opt_i64("U")?,
                counter_symbol: r.get_opt_text("Cs")?,
                preventedexecution_quantity: r.get_opt_text("pl")?,
                prevented_execution_price: r.get_opt_text("pL")?,
                prevented_execution_quote_qty: r.get_opt_text("pY")?,
                working_time: r.get_opt_u64("W")?,
                match_type: r.get_opt_text("b")?,
                allocation_id: r.get_opt_i64("a")?,
                working_floor: r.get_opt_text("k")?,
                used_sor: r.get_opt_flag("uS")?,
                self_trade_prevention_mode: r.get_text("V")?,
            },
        )
    }
}

/// A deposit, a withdrawal or a transfer.
#[derive(Clone, Debug)]
pub struct BalanceUpdate {
    pub event_time: u64,
    pub asset: String,
    pub balance_delta: String,
    pub clear_time: u64,
}

impl Fields for BalanceUpdate {
    open spec fn keys() -> Seq<Seq<char>> {
        seq![
            "E"@, "a"@, "d"@, "T"@,
        ]
    }

    open spec fn least() -> nat {
        4
    }

    open spec fn spelled(r: Members) -> bool {
        &&& nat_at(r, "E"@, u64::MAX as int) is Some
        &&& lower_at(r, "a"@) is Some
        &&& text_at(r, "d"@) is Some
        &&& nat_at(r, "T"@, u64::MAX as int) is Some
    }

    open spec fn taken(&self, r: Members) -> bool {
        &&& nat_at(r, "E"@, u64::MAX as int) == Some(self.event_time as int)
        &&& lower_at(r, "a"@) == Some(self.asset@)
        &&& text_at(r, "d"@) == Some(self.balance_delta@)
        &&& nat_at(r, "T"@, u64::MAX as int) == Some(self.clear_time as int)
    }

    open spec fn sound(&self) -> bool {
        true
    }

    fn key_list() -> (v: Vec<&'static str>) {
        let v: Vec<&'static str> = vec![
            "E", "a", "d", "T",
        ];
        assert(key_texts(v@) =~= Self::keys());
        v
    }

    fn least_len() -> (n: usize) {
        4
    }

    fn take(r: &Record) -> (x: Option<BalanceUpdate>) {
        Some(
            BalanceUpdate {
                event_time: r.get_u64("E")?,
                asset: get_lower(r, "a")?,
                balance_delta: r.get_text("d")?,
                clear_time: r.get_u64("T")?,
            },
        )
    }
}

/// An order of a list.
#[derive(Clone, Debug)]
pub struct ListOrder {
    pub symbol: String,
    pub order_id: u64,
    pub client_order_id: String,
}

impl Fields for ListOrder {
    open spec fn keys() -> Seq<Seq<char>> {
        seq![
            "s"@, "i"@, "c"@,
        ]
    }

    open spec fn least() -> nat {
        3
    }

    open spec fn spelled(r: Members) -> bool {
        &&& lower_at(r, "s"@) is Some
        &&& nat_at(r, "i"@, u64::MAX as int) is Some
        &&& text_at(r, "c"@) is Some
    }

    open spec fn taken(&self, r: Members) -> bool {
        &&& lower_at(r, "s"@) == Some(self.symbol@)
        &&& nat_at(r, "i"@, u64::MAX as int) == Some(self.order_id as int)
        &&& text_at(r, "c"@) == Some(self.client_order_id@)
    }

    open spec fn sound(&self) -> bool {
        true
    }

    fn key_list() -> (v: Vec<&'static str>) {
        let v: Vec<&'static str> = vec![
            "s", "i", "c",
        ];
        assert(key_texts(v@) =~= Self::keys());
        v
    }

    fn least_len() -> (n: usize) {
        3
    }

    fn take(r: &Record) -> (x: Option<ListOrder>) {
        Some(
            ListOrder {
                symbol: get_lower(r, "s")?,
                order_id: r.get_u64("i")?,
                client_order_id: r.get_text("c")?,
            },
        )
    }
}

/// What happened to a list of orders.
#[derive(Clone, Debug)]
pub struct ListStatus {
    pub event_time: u64,
    pub symbol: String,
    pub order_list_id: u64,
    pub contingency_type: String,
    pub list_status_type: String,
    pub list_order_status: String,
    pub rejection_reason: String,
    pub list_client_order_id: String,
    pub transaction_time: u64,
    pub orders: Vec<ListOrder>,
}

impl Fields for ListStatus {
    open spec fn keys() -> Seq<Seq<char>> {
        seq![
            "E"@, "s"@, "g"@, "c"@, "l"@, "L"@, "r"@, "C"@, "T"@, "O"@,
        ]
    }

    open spec fn least() -> nat {
        10
    }

    open spec fn spelled(r: Members) -> bool {
        &&& nat_at(r, "E"@, u64::MAX as int) is Some
        &&& lower_at(r, "s"@) is Some
        &&& nat_at(r, "g"@, u64::MAX as int) is Some
        &&& text_at(r, "c"@) is Some
        &&& text_at(r, "l"@) is Some
        &&& text_at(r, "L"@) is Some
        &&& text_at(r, "r"@) is Some
        &&& text_at(r, "C"@) is Some
        &&& nat_at(r, "T"@, u64::MAX as int) is Some
        &&& many_shape::<ListOrder>(r, "O"@)
    }

    open spec fn taken(&self, r: Members) -> bool {
        &&& nat_at(r, "E"@, u64::MAX as int) == Some(self.event_time as int)
        &&& lower_at(r, "s"@) == Some(self.symbol@)
        &&& nat_at(r, "g"@, u64::MAX as int) == Some(self.order_list_id as int)
        &&& text_at(r, "c"@) == Some(self.contingency_type@)
        &&& text_at(r, "l"@) == Some(self.list_status_type@)
        &&& text_at(r, "L"@) == Some(self.list_order_status@)
        &&& text_at(r, "r"@) == Some(self.rejection_reason@)
        &&& text_at(r, "C"@) == Some(self.list_client_order_id@)
        &&& nat_at(r, "T"@, u64::MAX as int) == Some(self.transaction_time as int)
        &&& many_read(r, "O"@, self.orders@)
    }

    open spec fn sound(&self) -> bool {
        true
    }

    fn key_list() -> (v: Vec<&'static str>) {
        let v: Vec<&'static str> = vec![
            "E", "s", "g", "c", "l", "L", "r", "C", "T", "O",
        ];
        assert(key_texts(v@) =~= Self::keys());
        v
    }

    fn least_len() -> (n: usize) {
        10
    }

    fn take(r: &Record) -> (x: Option<ListStatus>) {
        Some(
            ListStatus {
                event_time: r.get_u64("E")?,
                symbol: get_lower(r, "s")?,
                order_list_id: r.get_u64("g")?,
                contingency_type: r.get_text("c")?,
                list_status_type: r.get_text("l")?,
                list_order_status: r.get_text("L")?,
                rejection_reason: r.get_text("r")?,
                list_client_order_id: r.get_text("C")?,
                transaction_time: r.get_u64("T")?,
                orders: get_many(r, "O")?,
            },
        )
    }
}

/// An event of the user-data stream.
#[derive(Clone, Debug)]
pub enum UserEventStream {
    OutboundAccountPosition(OutboundAccountPosition),
    BalanceUpdate(BalanceUpdate),
    ExecutionReport(ExecutionReport),
    ListStatus(ListStatus),
}

impl Message for UserEventStream {
    open spec fn shape(text: Seq<char>) -> bool {
        ||| tagged_shape::<OutboundAccountPosition>(text, "outboundAccountPosition"@)
        ||| tagged_shape::<BalanceUpdate>(text, "balanceUpdate"@)
        ||| tagged_shape::<ExecutionReport>(text, "executionReport"@)
        ||| tagged_shape::<ListStatus>(text, "listStatus"@)
    }

    open spec fn reads(&self, text: Seq<char>) -> bool {
        match self {
            UserEventStream::OutboundAccountPosition(x) => tagged_reads(
                text,
                "outboundAccountPosition"@,
                *x,
            ),
            UserEventStream::BalanceUpdate(x) => tagged_reads(text, "balanceUpdate"@, *x),
            UserEventStream::ExecutionReport(x) => tagged_reads(text, "executionReport"@, *x),
            UserEventStream::ListStatus(x) => tagged_reads(text, "listStatus"@, *x),
        }
    }

    open spec fn wf(&self) -> bool {
        match self {
            UserEventStream::OutboundAccountPosition(x) => x.wf(),
            UserEventStream::BalanceUpdate(x) => x.wf(),
            UserEventStream::ExecutionReport(x) => x.wf(),
            UserEventStream::ListStatus(x) => x.wf(),
        }
    }

    fn decode(j: &Json) -> (r: Option<UserEventStream>) {
        if let Some(x) = get_tagged::<OutboundAccountPosition>(j, "outboundAccountPosition") {
            return Some(UserEventStream::OutboundAccountPosition(x));
        }
        if let Some(x) = get_tagged::<BalanceUpdate>(j, "balanceUpdate") {
            return Some(UserEventStream::BalanceUpdate(x));
        }
        if let Some(x) = get_tagged::<ExecutionReport>(j, "executionReport") {
            return Some(UserEventStream::ExecutionReport(x));
        }
        if let Some(x) = get_tagged::<ListStatus>(j, "listStatus") {
            return Some(UserEventStream::ListStatus(x));
        }
        None
    }
}

/// A user-data event as the subscription wraps it: the event is the member `event`.
#[derive(Clone, Debug)]
pub struct UserDataEvent {
    pub event: UserEventStream,
}

impl Fields for UserDataEvent {
    open spec fn keys() -> Seq<Seq<char>> {
        seq![
            "event"@,
        ]
    }

    open spec fn least() -> nat {
        1
    }

    open spec fn spelled(r: Members) -> bool {
        &&& one_shape::<UserEventStream>(r, "event"@)
    }

    open spec fn taken(&self, r: Members) -> bool {
        &&& one_reads(r, "event"@, self.event)
    }

    open spec fn sound(&self) -> bool {
        &&& self.event.wf()
    }

    fn key_list() -> (v: Vec<&'static str>) {
        let v: Vec<&'static str> = vec![
            "event",
        ];
        assert(key_texts(v@) =~= Self::keys());
        v
    }

    fn least_len() -> (n: usize) {
        1
    }

    fn take(r: &Record) -> (x: Option<UserDataEvent>) {
        Some(
            UserDataEvent {
                event: get_one(r, "event")?,
            },
        )
    }
}

/// A rate limit and how much of it is used.
#[derive(Clone, Debug)]
pub struct RateLimit {
    pub rate_limit_type: String,
    pub interval: String,
    pub interval_num: u32,
    pub limit: u32,
    pub count: u32,
}

impl Fields for RateLimit {
    open spec fn keys() -> Seq<Seq<char>> {
        seq![
            "rateLimitType"@, "interval"@, "intervalNum"@, "limit"@, "count"@,
        ]
    }

    open spec fn least() -> nat {
        5
    }

    open spec fn spelled(r: Members) -> bool {
        &&& text_at(r, "rateLimitType"@) is Some
        &&& text_at(r, "interval"@) is Some
        &&& nat_at(r, "intervalNum"@, u32::MAX as int) is Some
        &&& nat_at(r, "limit"@, u32::MAX as int) is Some
        &&& nat_at(r, "count"@, u32::MAX as int) is Some
    }

    open spec fn taken(&self, r: Members) -> bool {
        &&& text_at(r, "rateLimitType"@) == Some(self.rate_limit_type@)
        &&& text_at(r, "interval"@) == Some(self.interval@)
        &&& nat_at(r, "intervalNum"@, u32::MAX as int) == Some(self.interval_num as int)
        &&& nat_at(r, "limit"@, u32::MAX as int) == Some(self.limit as int)
        &&& nat_at(r, "count"@, u32::MAX as int) == Some(self.count as int)
    }

    open spec fn sound(&self) -> bool {
        true
    }

    fn key_list() -> (v: Vec<&'static str>) {
        let v: Vec<&'static str> = vec![
            "rateLimitType", "interval", "intervalNum", "limit", "count",
        ];
        assert(key_texts(v@) =~= Self::keys());
        v
    }

    fn least_len() -> (n: usize) {
        5
    }

    fn take(r: &Record) -> (x: Option<RateLimit>) {
        Some(
            RateLimit {
                rate_limit_type: r.get_text("rateLimitType")?,
                interval: r.get_text("interval")?,
                interval_num: r.get_u32("intervalNum")?,
                limit: r.get_u32("limit")?,
                count: r.get_u32("count")?,
            },
        )
    }
}

/// The state of a session after a logon.
#[derive(Clone, Debug)]
pub struct SessionLogonResult {
    pub api_key: String,
    pub authorized_since: u64,
    pub connected_since: u64,
    pub return_rate_limits: bool,
    pub server_time: u64,
    pub user_data_stream: bool,
}

impl Fields for SessionLogonResult {
    open spec fn keys() -> Seq<Seq<char>> {
        seq![
            "apiKey"@, "authorizedSince"@, "connectedSince"@, "returnRateLimits"@, "serverTime"@,
            "userDataStream"@,
        ]
    }

    open spec fn least() -> nat {
        6
    }

    open spec fn spelled(r: Members) -> bool {
        &&& text_at(r, "apiKey"@) is Some
        &&& nat_at(r, "authorizedSince"@, u64::MAX as int) is Some
        &&& nat_at(r, "connectedSince"@, u64::MAX as int) is Some
        &&& flag_at(r, "returnRateLimits"@) is Some
        &&& nat_at(r, "serverTime"@, u64::MAX as int) is Some
        &&& flag_at(r, "userDataStream"@) is Some
    }

    open spec fn taken(&self, r: Members) -> bool {
        &&& text_at(r, "apiKey"@) == Some(self.api_key@)
        &&& nat_at(r, "authorizedSince"@, u64::MAX as int) == Some(self.authorized_since as int)
        &&& nat_at(r, "connectedSince"@, u64::MAX as int) == Some(self.connected_since as int)
        &&& flag_at(r, "returnRateLimits"@) == Some(self.return_rate_limits)
        &&& nat_at(r, "serverTime"@, u64::MAX as int) == Some(self.server_time as int)
        &&& flag_at(r, "userDataStream"@) == Some(self.user_data_stream)
    }

    open spec fn sound(&self) -> bool {
        true
    }

    fn key_list() -> (v: Vec<&'static str>) {
        let v: Vec<&'static str> = vec![
            "apiKey", "authorizedSince", "connectedSince", "returnRateLimits", "serverTime",
            "userDataStream",
        ];
        assert(key_texts(v@) =~= Self::keys());
        v
    }

    fn least_len() -> (n: usize) {
        6
    }

    fn take(r: &Record) -> (x: Option<SessionLogonResult>) {
        Some(
            SessionLogonResult {
                api_key: r.get_text("apiKey")?,
                authorized_since: r.get_u64("authorizedSince")?,
                connected_since: r.get_u64("connectedSince")?,
                return_rate_limits: r.get_flag("returnRateLimits")?,
                server_time: r.get_u64("serverTime")?,
                user_data_stream: r.get_flag("userDataStream")?,
            },
        )
    }
}

/// The answer to a logon.
#[derive(Clone, Debug)]
pub struct AuthResponse {
    pub id: String,
    pub status: i32,
    pub result: Option<SessionLogonResult>,
    pub rate_limits: Option<Vec<RateLimit>>,
}

impl Fields for AuthResponse {
    open spec fn keys() -> Seq<Seq<char>> {
        seq![
            "id"@, "status"@, "result"@, "rateLimits"@,
        ]
    }

    open spec fn least() -> nat {
        4
    }

    open spec fn spelled(r: Members) -> bool {
        &&& text_at(r, "id"@) is Some
        &&& int_at(r, "status"@, i32::MIN as int, i32::MAX as int) is Some
        &&& maybe_shape::<SessionLogonResult>(r, "result"@)
        &&& maybe_many_shape::<RateLimit>(r, "rateLimits"@)
    }

    open spec fn taken(&self, r: Members) -> bool {
        &&& text_at(r, "id"@) == Some(self.id@)
        &&& int_at(r, "status"@, i32::MIN as int, i32::MAX as int) == Some(self.status as int)
        &&& maybe_reads(r, "result"@, self.result)
        &&& maybe_many_read(r, "rateLimits"@, self.rate_limits)
    }

    open spec fn sound(&self) -> bool {
        true
    }

    fn key_list() -> (v: Vec<&'static str>) {
        let v: Vec<&'static str> = vec![
            "id", "status", "result", "rateLimits",
        ];
        assert(key_texts(v@) =~= Self::keys());
        v
    }

    fn least_len() -> (n: usize) {
        4
    }

    fn take(r: &Record) -> (x: Option<AuthResponse>) {
        Some(
            AuthResponse {
                id: r.get_text("id")?,
                status: r.get_i32("status")?,
                result: get_maybe(r, "result")?,
                rate_limits: get_maybe_many(r, "rateLimits")?,
            },
        )
    }
}

/// The answer to a subscription of user data.
#[derive(Debug)]
pub struct SubscribeResponse {
    pub id: String,
    pub status: i32,
    pub result: Option<Json>,
}

impl Fields for SubscribeResponse {
    open spec fn keys() -> Seq<Seq<char>> {
        seq![
            "id"@, "status"@, "result"@,
        ]
    }

    open spec fn least() -> nat {
        3
    }

    open spec fn spelled(r: Members) -> bool {
        &&& text_at(r, "id"@) is Some
        &&& int_at(r, "status"@, i32::MIN as int, i32::MAX as int) is Some
        &&& value_shape(r, "result"@)
    }

    open spec fn taken(&self, r: Members) -> bool {
        &&& text_at(r, "id"@) == Some(self.id@)
        &&& int_at(r, "status"@, i32::MIN as int, i32::MAX as int) == Some(self.status as int)
        &&& value_at(r, "result"@, self.result)
    }

    open spec fn sound(&self) -> bool {
        true
    }

    fn key_list() -> (v: Vec<&'static str>) {
        let v: Vec<&'static str> = vec![
            "id", "status", "result",
        ];
        assert(key_texts(v@) =~= Self::keys());
        v
    }

    fn least_len() -> (n: usize) {
        3
    }

    fn take(r: &Record) -> (x: Option<SubscribeResponse>) {
        Some(
            SubscribeResponse {
                id: r.get_text("id")?,
                status: r.get_i32("status")?,
                result: get_value(r, "result")?,
            },
        )
    }
}

/// A frame of the user-data stream: a wrapped event where it spells one, else the answer to a logon
/// where it spells one, and else the answer to a subscription.
#[derive(Debug)]
pub enum UserStream {
    EventStream(UserDataEvent),
    AuthResponse(AuthResponse),
    SubscribeResponse(SubscribeResponse),
}

impl Message for UserStream {
    open spec fn shape(text: Seq<char>) -> bool {
        &&& is_document(text)
        &&& UserDataEvent::shape(text) || AuthResponse::shape(text) || SubscribeResponse::shape(text)
    }

    open spec fn reads(&self, text: Seq<char>) -> bool {
        match self {
            UserStream::EventStream(x) => x.reads(text),
            UserStream::AuthResponse(x) => x.reads(text) && !UserDataEvent::shape(text),
            UserStream::SubscribeResponse(x) => {
                &&& x.reads(text)
                &&& !UserDataEvent::shape(text)
                &&& !AuthResponse::shape(text)
            },
        }
    }

    open spec fn wf(&self) -> bool {
        match self {
            UserStream::EventStream(x) => x.wf(),
            UserStream::AuthResponse(x) => x.wf(),
            UserStream::SubscribeResponse(x) => x.wf(),
        }
    }

    fn decode(j: &Json) -> (r: Option<UserStream>) {
        if !j.is_valid() {
            return None;
        }
        if let Some(x) = UserDataEvent::decode(j) {
            return Some(UserStream::EventStream(x));
        }
        if let Some(x) = AuthResponse::decode(j) {
            return Some(UserStream::AuthResponse(x));
        }
        match SubscribeResponse::decode(j) {
            Some(x) => Some(UserStream::SubscribeResponse(x)),
            None => None,
        }
    }
}

/// A subscription request.
#[derive(Clone, Debug)]
pub struct SubscribeRequest {
    pub id: String,
    pub method: String,
}

impl ToJson for SubscribeRequest {
    open spec fn json(&self) -> Seq<char> {
        object_chars(
            seq![
                ("id"@, quoted(self.id@)),
                ("method"@, quoted(self.method@)),
            ],
        )
    }

    fn to_json(&self) -> (s: String) {
        let members: Vec<(&'static str, String)> = vec![
            ("id", quote(self.id.as_str())),
            ("method", quote(self.method.as_str())),
        ];
        proof {
            assert(member_views(members@) =~= seq![
                ("id"@, quoted(self.id@)),
                ("method"@, quoted(self.method@)),
            ]);
        }
        object_text(&members)
    }
}

/// The parameters of a logon.
#[derive(Clone, Debug)]
pub struct SignParams {
    pub api_key: String,
    pub signature: Option<String>,
    pub timestamp: u64,
}

impl SignParams {
    /// The JSON of the signature; null where there is none yet.
    pub open spec fn signature_json(self) -> Seq<char> {
        match self.signature {
            Some(s) => quoted(s@),
            None => "null"@,
        }
    }

    /// The text that the signature of a logon is made of.
    pub open spec fn payload_chars(self) -> Seq<char> {
        "apiKey="@ + self.api_key@ + "&timestamp="@ + nat_chars(self.timestamp as nat)
    }

    /// The text that the signature of a logon is made of.
    pub fn payload(&self) -> (s: String)
        ensures
            s@ == self.payload_chars(),
    {
        "apiKey=".to_owned().concat(self.api_key.as_str()).concat("&timestamp=").concat(
            nat_text(self.timestamp as u128).as_str(),
        )
    }
}

impl ToJson for SignParams {
    open spec fn json(&self) -> Seq<char> {
        object_chars(
            seq![
                ("apiKey"@, quoted(self.api_key@)),
                ("signature"@, self.signature_json()),
                ("timestamp"@, nat_chars(self.timestamp as nat)),
            ],
        )
    }

    fn to_json(&self) -> (s: String) {
        let signature = match &self.signature {
            Some(s) => quote(s.as_str()),
            None => "null".to_owned(),
        };
        let members: Vec<(&'static str, String)> = vec![
            ("apiKey", quote(self.api_key.as_str())),
            ("signature", signature),
            ("timestamp", nat_text(self.timestamp as u128)),
        ];
        proof {
            assert(member_views(members@) =~= seq![
                ("apiKey"@, quoted(self.api_key@)),
                ("signature"@, self.signature_json()),
                ("timestamp"@, nat_chars(self.timestamp as nat)),
            ]);
        }
        object_text(&members)
    }
}

/// A logon.
#[derive(Clone, Debug)]
pub struct SignRequest {
    pub id: String,
    pub method: String,
    pub params: SignParams,
}

impl ToJson for SignRequest {
    open spec fn json(&self) -> Seq<char> {
        object_chars(
            seq![
                ("id"@, quoted(self.id@)),
                ("method"@, quoted(self.method@)),
                ("params"@, self.params.json()),
            ],
        )
    }

    fn to_json(&self) -> (s: String) {
        let members: Vec<(&'static str, String)> = vec![
            ("id", quote(self.id.as_str())),
            ("method", quote(self.method.as_str())),
            ("params", self.params.to_json()),
        ];
        proof {
            assert(member_views(members@) =~= seq![
                ("id"@, quoted(self.id@)),
                ("method"@, quoted(self.method@)),
                ("params"@, self.params.json()),
            ]);
        }
        object_text(&members)
    }
}

/// A signed request for user data.
#[derive(Clone, Debug)]
pub struct UserDataRequest {
    pub id: String,
    pub method: String,
    pub params: SignParams,
}

impl ToJson for UserDataRequest {
    open spec fn json(&self) -> Seq<char> {
        object_chars(
            seq![
                ("id"@, quoted(self.id@)),
                ("method"@, quoted(self.method@)),
                ("params"@, self.params.json()),
            ],
        )
    }

    fn to_json(&self) -> (s: String) {
        let members: Vec<(&'static str, String)> = vec![
            ("id", quote(self.id.as_str())),
            ("method", quote(self.method.as_str())),
            ("params", self.params.to_json()),
        ];
        proof {
            assert(member_views(members@) =~= seq![
                ("id"@, quoted(self.id@)),
                ("method"@, quoted(self.method@)),
                ("params"@, self.params.json()),
            ]);
        }
        object_text(&members)
    }
}

/// A subscription of user data.
#[derive(Clone, Debug)]
pub struct UserStreamSubscribeRequest {
    pub id: String,
    pub method: String,
}

impl ToJson for UserStreamSubscribeRequest {
    open spec fn json(&self) -> Seq<char> {
        object_chars(
            seq![
                ("id"@, quoted(self.id@)),
                ("method"@, quoted(self.method@)),
            ],
        )
    }

    fn to_json(&self) -> (s: String) {
        let members: Vec<(&'static str, String)> = vec![
            ("id", quote(self.id.as_str())),
            ("method", quote(self.method.as_str())),
        ];
        proof {
            assert(member_views(members@) =~= seq![
                ("id"@, quoted(self.id@)),
                ("method"@, quoted(self.method@)),
            ]);
        }
        object_text(&members)
    }
}

/// What a logon and what a request for user data hold: the identifier, the method, and under its key
/// each of the key of the account, the signature and the time.
pub proof fn law_signed_requests_hold_their_parameters(
    logon: SignRequest,
    data: UserDataRequest,
    text: Seq<char>,
    id: Seq<char>,
    method: Seq<char>,
    params: SignParams,
)
    requires
        (text == logon.json() && id == logon.id@ && method == logon.method@ && params
            == logon.params) || (text == data.json() && id == data.id@ && method == data.method@
            && params == data.params),
    ensures
        holds(text, written_member("id"@, quoted(id))),
        holds(text, written_member("method"@, quoted(method))),
        holds(text, written_member("apiKey"@, quoted(params.api_key@))),
        params.signature is Some ==> holds(
            text,
            written_member("signature"@, quoted(params.signature->0@)),
        ),
        params.signature is None ==> holds(text, written_member("signature"@, "null"@)),
        holds(text, written_member("timestamp"@, nat_chars(params.timestamp as nat))),
{
    let inner = params.json();
    let fields = seq![
        ("apiKey"@, quoted(params.api_key@)),
        ("signature"@, params.signature_json()),
        ("timestamp"@, nat_chars(params.timestamp as nat)),
    ];
    law_object_holds_its_members(fields, 0);
    law_object_holds_its_members(fields, 1);
    law_object_holds_its_members(fields, 2);
    let members = seq![
        ("id"@, quoted(id)),
        ("method"@, quoted(method)),
        ("params"@, inner),
    ];
    law_object_holds_its_members(members, 0);
    law_object_holds_its_members(members, 1);
    law_object_holds_its_members(members, 2);
    assert(inner.subrange(0, 0int + inner.len()) =~= inner);
    lemma_holds_within(quoted("params"@) + ":"@, inner, inner);
    lemma_holds_trans(text, written_member("params"@, inner), inner);
    assert forall|part: Seq<char>| holds(inner, part) implies #[trigger] holds(text, part) by {
        lemma_holds_trans(text, inner, part);
    }
}

/// A subscription holds its identifier and its method.
pub proof fn law_subscriptions_hold_their_method(
    market: SubscribeRequest,
    user: UserStreamSubscribeRequest,
)
    ensures
        holds(market.json(), written_member("id"@, quoted(market.id@))),
        holds(market.json(), written_member("method"@, quoted(market.method@))),
        holds(user.json(), written_member("id"@, quoted(user.id@))),
        holds(user.json(), written_member("method"@, quoted(user.method@))),
{
    let a = seq![("id"@, quoted(market.id@)), ("method"@, quoted(market.method@))];
    let b = seq![("id"@, quoted(user.id@)), ("method"@, quoted(user.method@))];
    law_object_holds_its_members(a, 0);
    law_object_holds_its_members(a, 1);
    law_object_holds_its_members(b, 0);
    law_object_holds_its_members(b, 1);
}

/// The text that the signature of a logon is made of names the key of the account and then the time
/// of the logon, and does not depend on the signature.
pub proof fn law_logon_payload_is_signed_first(p: SignParams, q: SignParams)
    ensures
        ("apiKey="@ + p.api_key@).is_prefix_of(p.payload_chars()),
        p.payload_chars().skip(("apiKey="@ + p.api_key@).len() as int) == "&timestamp="@
            + nat_chars(p.timestamp as nat),
        p.api_key@ == q.api_key@ && p.timestamp == q.timestamp ==> p.payload_chars()
            == q.payload_chars(),
{
    let head = "apiKey="@ + p.api_key@;
    let tail = "&timestamp="@ + nat_chars(p.timestamp as nat);
    assert(p.payload_chars() =~= head + tail);
    assert(p.payload_chars().subrange(0, head.len() as int) =~= head);
    assert(p.payload_chars().skip(head.len() as int) =~= tail);
}

/// The best bid and ask are read from their members, each field from its own key: lower-case keys
/// are prices and upper-case keys are quantities.
pub proof fn law_best_bid_and_ask_is_read_by_its_keys(
    x: BookTicker,
    text: Seq<char>,
    r: Members,
)
    requires
        members(text) == Some(r),
        x.reads(text),
    ensures
        int_at(r, "u"@, i64::MIN as int, i64::MAX as int) == Some(x.update_id as int),
        lower_at(r, "s"@) == Some(x.symbol@),
        plain_at(r, "b"@) == Some(x.best_bid@),
        plain_at(r, "B"@) == Some(x.best_bid_qty@),
        plain_at(r, "a"@) == Some(x.best_ask@),
        plain_at(r, "A"@) == Some(x.best_ask_qty@),
{
}

/// A change of a book is read from its members, each field from its own key: its time, its symbol,
/// its first and its last update, its bids and its asks.
pub proof fn law_change_of_a_book_is_read_by_its_keys(
    event: MarketEventStream,
    x: Depth,
    text: Seq<char>,
    r: Members,
)
    requires
        members(text) == Some(r),
        event == MarketEventStream::DepthUpdate(x),
        event.reads(text),
    ensures
        text_at(r, "e"@) == Some("depthUpdate"@),
        time_at(r, "E"@) == Some(x.event_time as int),
        lower_at(r, "s"@) == Some(x.symbol@),
        int_at(r, "U"@, i64::MIN as int, i64::MAX as int) == Some(x.first_update_id as int),
        int_at(r, "u"@, i64::MIN as int, i64::MAX as int) == Some(x.last_update_id as int),
        levels_at(r, "b"@, true, x.bids@),
        levels_at(r, "a"@, true, x.asks@),
{
}

/// An aggregated trade is read from its members, each field from its own key.
pub proof fn law_aggregated_trade_is_read_by_its_keys(
    event: MarketEventStream,
    x: AggTrade,
    text: Seq<char>,
    r: Members,
)
    requires
        members(text) == Some(r),
        event == MarketEventStream::AggTrade(x),
        event.reads(text),
    ensures
        text_at(r, "e"@) == Some("aggTrade"@),
        int_at(r, "E"@, i64::MIN as int, i64::MAX as int) == Some(x.event_time as int),
        lower_at(r, "s"@) == Some(x.symbol@),
        int_at(r, "a"@, i64::MIN as int, i64::MAX as int) == Some(x.aggregated_trade_id as int),
        plain_at(r, "p"@) == Some(x.price@),
        plain_at(r, "q"@) == Some(x.quantity@),
        int_at(r, "f"@, i64::MIN as int, i64::MAX as int) == Some(x.first_trade_id as int),
        int_at(r, "l"@, i64::MIN as int, i64::MAX as int) == Some(x.last_trade_id as int),
        int_at(r, "T"@, i64::MIN as int, i64::MAX as int) == Some(x.filled_time as int),
        flag_at(r, "m"@) == Some(x.is_market_maker),
        flag_at(r, "M"@) == Some(x.ignore),
{
}

/// A trade is read from its members, each field from its own key: its times, its symbol, its price,
/// its quantity, who made the market, and whether it is to be ignored.
pub proof fn law_trade_is_read_by_its_keys(
    event: MarketEventStream,
    x: Trade,
    text: Seq<char>,
    r: Members,
)
    requires
        members(text) == Some(r),
        event == MarketEventStream::Trade(x),
        event.reads(text),
    ensures
        text_at(r, "e"@) == Some("trade"@),
        time_at(r, "E"@) == Some(x.event_time as int),
        lower_at(r, "s"@) == Some(x.symbol@),
        int_at(r, "t"@, i64::MIN as int, i64::MAX as int) == Some(x.trade_id as int),
        plain_at(r, "p"@) == Some(x.price@),
        plain_at(r, "q"@) == Some(x.quantity@),
        int_at(r, "T"@, i64::MIN as int, i64::MAX as int) == Some(x.trade_time as int),
        flag_at(r, "m"@) == Some(x.is_market_maker),
        flag_at(r, "M"@) == Some(x.ignore),
{
}

/// A balance is read from its members: the asset, the free amount and the locked amount, each from
/// its own key.
pub proof fn law_balance_is_read_by_its_keys(
    x: Balance,
    text: Seq<char>,
    r: Members,
)
    requires
        members(text) == Some(r),
        x.reads(text),
    ensures
        lower_at(r, "a"@) == Some(x.asset@),
        decimal_at(r, "f"@) == Some(x.free as int),
        text_at(r, "l"@) == Some(x.locked@),
{
}

/// An event of the account is read from its members: its times and its balances, each from its own
/// key.
pub proof fn law_account_event_is_read_by_its_keys(
    event: UserEventStream,
    x: OutboundAccountPosition,
    text: Seq<char>,
    r: Members,
)
    requires
        members(text) == Some(r),
        event == UserEventStream::OutboundAccountPosition(x),
        event.reads(text),
    ensures
        text_at(r, "e"@) == Some("outboundAccountPosition"@),
        time_at(r, "E"@) == Some(x.event_time as int),
        int_at(r, "u"@, i64::MIN as int, i64::MAX as int) == Some(x.last_update_time as int),
        many_read(r, "B"@, x.balances@),
{
}

/// A report is read from its members, each field from its own key: among them the last fill from
/// `l`, the accumulated fill from `z`, the price of the last fill from `L`, the ordered quantity
/// from `q`, and the limit price from `p`.
pub proof fn law_report_is_read_by_its_keys(
    event: UserEventStream,
    x: ExecutionReport,
    text: Seq<char>,
    r: Members,
)
    requires
        members(text) == Some(r),
        event == UserEventStream::ExecutionReport(x),
        event.reads(text),
    ensures
        text_at(r, "e"@) == Some("executionReport"@),
        time_at(r, "E"@) == Some(x.event_time as int),
        lower_at(r, "s"@) == Some(x.symbol@),
        text_at(r, "c"@) == Some(x.client_order_id@),
        side_at(r, "S"@) == Some(x.side),
        type_at(r, "o"@) == Some(x.order_type),
        tif_at(r, "f"@) == Some(x.time_in_force),
        decimal_at(r, "q"@) == Some(x.quantity as int),
        decimal_at(r, "p"@) == Some(x.price as int),
        decimal_at(r, "P"@) == Some(x.stop_price as int),
        decimal_at(r, "F"@) == Some(x.iceberg_quantity as int),
        int_at(r, "g"@, i64::MIN as int, i64::MAX as int) == Some(x.order_list_id as int),
        text_at(r, "x"@) == Some(x.execution_type@),
        status_at(r, "X"@) == Some(x.order_status),
        text_at(r, "r"@) == Some(x.rejection_reason@),
        nat_at(r, "i"@, u64::MAX as int) == Some(x.order_id as int),
        decimal_at(r, "l"@) == Some(x.order_last_filled_quantity as int),
        decimal_at(r, "z"@) == Some(x.order_filled_accumulated_quantity as int),
        decimal_at(r, "L"@) == Some(x.last_filled_price as int),
        text_at(r, "n"@) == Some(x.commission@),
        nat_at(r, "T"@, u64::MAX as int) == Some(x.order_trade_time as int),
        int_at(r, "t"@, i64::MIN as int, i64::MAX as int) == Some(x.t as int),
        nat_at(r, "I"@, u64::MAX as int) == Some(x.execution_id as int),
        flag_at(r, "w"@) == Some(x.is_on_order_book),
        flag_at(r, "m"@) == Some(x.is_maker),
        flag_at(r, "M"@) == Some(x.ignore),
        nat_at(r, "O"@, u64::MAX as int) == Some(x.order_creation_time as int),
        decimal_at(r, "Z"@) == Some(x.cumulative_filled_amount as int),
        decimal_at(r, "Y"@) == Some(x.last_filled_amount as int),
        decimal_at(r, "Q"@) == Some(x.quote_order_quantity as int),
        text_at(r, "V"@) == Some(x.self_trade_prevention_mode@),
{
}

/// The update of a balance is read from its members, each field from its own key.
pub proof fn law_balance_update_is_read_by_its_keys(
    event: UserEventStream,
    x: BalanceUpdate,
    text: Seq<char>,
    r: Members,
)
    requires
        members(text) == Some(r),
        event == UserEventStream::BalanceUpdate(x),
        event.reads(text),
    ensures
        text_at(r, "e"@) == Some("balanceUpdate"@),
        nat_at(r, "E"@, u64::MAX as int) == Some(x.event_time as int),
        lower_at(r, "a"@) == Some(x.asset@),
        text_at(r, "d"@) == Some(x.balance_delta@),
        nat_at(r, "T"@, u64::MAX as int) == Some(x.clear_time as int),
{
}

/// The status of a list of orders is read from its members, each field from its own key.
pub proof fn law_list_status_is_read_by_its_keys(
    event: UserEventStream,
    x: ListStatus,
    text: Seq<char>,
    r: Members,
)
    requires
        members(text) == Some(r),
        event == UserEventStream::ListStatus(x),
        event.reads(text),
    ensures
        text_at(r, "e"@) == Some("listStatus"@),
        nat_at(r, "E"@, u64::MAX as int) == Some(x.event_time as int),
        lower_at(r, "s"@) == Some(x.symbol@),
        nat_at(r, "g"@, u64::MAX as int) == Some(x.order_list_id as int),
        text_at(r, "c"@) == Some(x.contingency_type@),
        text_at(r, "l"@) == Some(x.list_status_type@),
        text_at(r, "L"@) == Some(x.list_order_status@),
        text_at(r, "r"@) == Some(x.rejection_reason@),
        text_at(r, "C"@) == Some(x.list_client_order_id@),
        nat_at(r, "T"@, u64::MAX as int) == Some(x.transaction_time as int),
        many_read(r, "O"@, x.orders@),
{
}

/// The answer to a logon is read from its members, each field from its own key.
pub proof fn law_logon_answer_is_read_by_its_keys(
    x: AuthResponse,
    text: Seq<char>,
    r: Members,
)
    requires
        members(text) == Some(r),
        x.reads(text),
    ensures
        text_at(r, "id"@) == Some(x.id@),
        int_at(r, "status"@, i32::MIN as int, i32::MAX as int) == Some(x.status as int),
        maybe_reads(r, "result"@, x.result),
        maybe_many_read(r, "rateLimits"@, x.rate_limits),
{
}

/// The answer to a subscription is read from its members, each field from its own key.
pub proof fn law_subscription_answer_is_read_by_its_keys(
    x: SubscribeResponse,
    text: Seq<char>,
    r: Members,
)
    requires
        members(text) == Some(r),
        x.reads(text),
    ensures
        text_at(r, "id"@) == Some(x.id@),
        int_at(r, "status"@, i32::MIN as int, i32::MAX as int) == Some(x.status as int),
        value_at(r, "result"@, x.result),
{
}

/// A frame is an event of its type wherever it spells one; it is taken for a best bid and ask, or
/// for the answer to a logon, only where it spells no event, and for the answer to a subscription
/// only where it spells none of the others.
pub proof fn law_frames_are_told_apart(m: MarketStream, u: UserStream, text: Seq<char>)
    ensures
        m.reads(text) && m is EventStream ==> m->EventStream_0.reads(text),
        m.reads(text) && m is BookTicker ==> m->BookTicker_0.reads(text)
            && !MarketEventStream::shape(text),
        m.reads(text) && m is Result ==> m->Result_0.reads(text) && !MarketEventStream::shape(text)
            && !BookTicker::shape(text),
        u.reads(text) && u is EventStream ==> u->EventStream_0.reads(text),
        u.reads(text) && u is AuthResponse ==> u->AuthResponse_0.reads(text)
            && !UserDataEvent::shape(text),
        u.reads(text) && u is SubscribeResponse ==> u->SubscribeResponse_0.reads(text)
            && !UserDataEvent::shape(text) && !AuthResponse::shape(text),
        MarketStream::shape(text) <==> is_document(text) && (MarketEventStream::shape(text)
            || BookTicker::shape(text) || Result::shape(text)),
        UserStream::shape(text) <==> is_document(text) && (UserDataEvent::shape(text)
            || AuthResponse::shape(text) || SubscribeResponse::shape(text)),
{
}

/// A user-data event is what the member `event` spells.
pub proof fn law_user_event_is_wrapped(x: UserDataEvent, text: Seq<char>, r: Members, v: Seq<char>)
    requires
        members(text) == Some(r),
        field(r, "event"@) == Some(v),
        x.reads(text),
    ensures
        x.event.reads(v),
{
}

/// A change of a book is read wherever its times, its updates and its levels are spelled.
pub proof fn law_change_of_a_book_is_read_where_it_is_spelled(text: Seq<char>, r: Members)
    requires
        members(text) == Some(r),
        text_at(r, "e"@) == Some("depthUpdate"@),
        time_at(r, "E"@) is Some,
        lower_at(r, "s"@) is Some,
        int_at(r, "U"@, i64::MIN as int, i64::MAX as int) is Some,
        int_at(r, "u"@, i64::MIN as int, i64::MAX as int) is Some,
        levels_shape(r, "b"@, true),
        levels_shape(r, "a"@, true),
    ensures
        MarketEventStream::shape(text),
{
}

/// A trade is read wherever each of its keys spells a value of its kind.
pub proof fn law_trade_is_read_where_it_is_spelled(text: Seq<char>, r: Members)
    requires
        members(text) == Some(r),
        text_at(r, "e"@) == Some("trade"@),
        time_at(r, "E"@) is Some,
        lower_at(r, "s"@) is Some,
        int_at(r, "t"@, i64::MIN as int, i64::MAX as int) is Some,
        plain_at(r, "p"@) is Some,
        plain_at(r, "q"@) is Some,
        int_at(r, "T"@, i64::MIN as int, i64::MAX as int) is Some,
        flag_at(r, "m"@) is Some,
        flag_at(r, "M"@) is Some,
    ensures
        MarketEventStream::shape(text),
{
}

/// The best bid and ask are read wherever each of their keys spells a value of its kind.
pub proof fn law_best_bid_and_ask_is_read_where_it_is_spelled(text: Seq<char>, r: Members)
    requires
        members(text) == Some(r),
        int_at(r, "u"@, i64::MIN as int, i64::MAX as int) is Some,
        lower_at(r, "s"@) is Some,
        plain_at(r, "b"@) is Some,
        plain_at(r, "B"@) is Some,
        plain_at(r, "a"@) is Some,
        plain_at(r, "A"@) is Some,
    ensures
        BookTicker::shape(text),
{
}

/// An event of the account is read wherever its times and its balances are spelled.
pub proof fn law_account_event_is_read_where_it_is_spelled(text: Seq<char>, r: Members)
    requires
        members(text) == Some(r),
        text_at(r, "e"@) == Some("outboundAccountPosition"@),
        time_at(r, "E"@) is Some,
        int_at(r, "u"@, i64::MIN as int, i64::MAX as int) is Some,
        many_shape::<Balance>(r, "B"@),
    ensures
        UserEventStream::shape(text),
{
}

/// A report is read wherever each of its keys spells a value of its kind; those that may be missing
/// need not be there.
pub proof fn law_report_is_read_where_it_is_spelled(text: Seq<char>, r: Members)
    requires
        members(text) == Some(r),
        text_at(r, "e"@) == Some("executionReport"@),
        time_at(r, "E"@) is Some,
        lower_at(r, "s"@) is Some,
        text_at(r, "c"@) is Some,
        side_at(r, "S"@) is Some,
        type_at(r, "o"@) is Some,
        tif_at(r, "f"@) is Some,
        decimal_at(r, "q"@) is Some,
        decimal_at(r, "p"@) is Some,
        decimal_at(r, "P"@) is Some,
        decimal_at(r, "F"@) is Some,
        int_at(r, "g"@, i64::MIN as int, i64::MAX as int) is Some,
        opt_text_at(r, "C"@) is Some,
        text_at(r, "x"@) is Some,
        status_at(r, "X"@) is Some,
        text_at(r, "r"@) is Some,
        nat_at(r, "i"@, u64::MAX as int) is Some,
        decimal_at(r, "l"@) is Some,
        decimal_at(r, "z"@) is Some,
        decimal_at(r, "L"@) is Some,
        text_at(r, "n"@) is Some,
        opt_text_at(r, "N"@) is Some,
        nat_at(r, "T"@, u64::MAX as int) is Some,
        int_at(r, "t"@, i64::MIN as int, i64::MAX as int) is Some,
        nat_at(r, "I"@, u64::MAX as int) is Some,
        flag_at(r, "w"@) is Some,
        flag_at(r, "m"@) is Some,
        flag_at(r, "M"@) is Some,
        nat_at(r, "O"@, u64::MAX as int) is Some,
        decimal_at(r, "Z"@) is Some,
        decimal_at(r, "Y"@) is Some,
        decimal_at(r, "Q"@) is Some,
        opt_int_at(r, "D"@, i64::MIN as int, i64::MAX as int) is Some,
        opt_int_at(r, "d"@, i64::MIN as int, i64::MAX as int) is Some,
        opt_int_at(r, "j"@, i64::MIN as int, i64::MAX as int) is Some,
        opt_int_at(r, "J"@, i64::MIN as int, i64::MAX as int) is Some,
        opt_int_at(r, "v"@, i64::MIN as int, i64::MAX as int) is Some,
        opt_text_at(r, "A"@) is Some,
        opt_text_at(r, "B"@) is Some,
        opt_int_at(r, "u"@, i64::MIN as int, i64::MAX as int) is Some,
        opt_int_at(r, "U"@, i64::MIN as int, i64::MAX as int) is Some,
        opt_text_at(r, "Cs"@) is Some,
        opt_text_at(r, "pl"@) is Some,
        opt_text_at(r, "pL"@) is Some,
        opt_text_at(r, "pY"@) is Some,
        opt_nat_at(r, "W"@, u64::MAX as int) is Some,
        opt_text_at(r, "b"@) is Some,
        opt_int_at(r, "a"@, i64::MIN as int, i64::MAX as int) is Some,
        opt_text_at(r, "k"@) is Some,
        opt_flag_at(r, "uS"@) is Some,
        text_at(r, "V"@) is Some,
    ensures
        UserEventStream::shape(text),
{
}

} // verus!
