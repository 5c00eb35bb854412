//! The market-data stream: books that follow the exchange, trades, and the best bid and ask.
//!
//! A book starts from a snapshot. The changes that arrive while a snapshot is on its way are
//! kept and replayed after it, those that the snapshot covers left out. From then on every change
//! must begin where the one before it ended; where one does not, a new snapshot is requested.

use vstd::prelude::*;
use vstd::string::*;
use crate::clock::{now_nanos, reading, time_at};
use crate::decimal::{decimal_value, parse_decimal};
use crate::table::Table;
use crate::text::{holds, lemma_holds_more, lemma_holds_within, texts};
use crate::types::{
    published, to_nanos, Event, FeedKind, LiveEvent, PublishEvent, Published, TO_ALL,
};
use super::msg::rest;
use super::msg::{from_text, Message};
use super::msg::stream::{BookTicker, Depth, MarketEventStream, MarketStream, Trade};
use super::socket::{timed_out, SocketEvent, PING_TIMEOUT_NANOS};
use super::BinanceSpotError;

verus! {

/// An event with its local time.
pub open spec fn stamp(e: Published, time: i64) -> Published {
    match e {
        Published::Feed(symbol, event) => Published::Feed(
            symbol,
            Event { local_ts: time, ..event },
        ),
        _ => e,
    }
}

/// Events with their local times, the first of which stands at the place `from`: each event has a
/// reading of the clock of its own.
pub open spec fn stamped(feed: Seq<Published>, times: Seq<i64>, from: int) -> Seq<Published> {
    Seq::new(feed.len(), |i: int| stamp(feed[i], reading(times, from + i)))
}

/// Events in two parts are stamped one after the other.
proof fn lemma_stamped_parts(a: Seq<Published>, b: Seq<Published>, times: Seq<i64>, from: int)
    ensures
        stamped(a + b, times, from) == stamped(a, times, from) + stamped(
            b,
            times,
            from + a.len(),
        ),
{
    assert(stamped(a + b, times, from) =~= stamped(a, times, from) + stamped(
        b,
        times,
        from + a.len(),
    ));
}

/// Whether the price and the quantity of a level are decimals.
pub open spec fn is_level(l: (String, String)) -> bool {
    decimal_value(l.0@) is Some && decimal_value(l.1@) is Some
}

/// Whether all levels are decimals.
pub open spec fn are_levels(v: Seq<(String, String)>) -> bool {
    forall|i: int| 0 <= i < v.len() ==> is_level(#[trigger] v[i])
}

/// The event, without its local time, that tells of a price and a quantity.
pub open spec fn quote_feed(
    symbol: Seq<char>,
    ev: FeedKind,
    exch_ts: int,
    px: Seq<char>,
    qty: Seq<char>,
) -> Published {
    Published::Feed(
        symbol,
        Event::level(
            ev,
            exch_ts as i64,
            0,
            Some(decimal_value(px)->0 as i128),
            decimal_value(qty)->0 as i128,
        ),
    )
}

/// The events that tell of the levels of one side.
pub open spec fn side_feed(
    symbol: Seq<char>,
    ev: FeedKind,
    exch_ts: int,
    levels: Seq<(String, String)>,
) -> Seq<Published> {
    levels.map_values(|l: (String, String)| quote_feed(symbol, ev, exch_ts, l.0@, l.1@))
}

/// The batch that tells of the levels of both sides; none where a level is no decimal.
pub open spec fn depth_feed(
    symbol: Seq<char>,
    bids: Seq<(String, String)>,
    asks: Seq<(String, String)>,
    exch_ts: int,
) -> Seq<Published> {
    if are_levels(bids) && are_levels(asks) {
        seq![Published::BatchStart(TO_ALL)] + side_feed(symbol, FeedKind::BidDepth, exch_ts, bids)
            + side_feed(symbol, FeedKind::AskDepth, exch_ts, asks) + seq![
            Published::BatchEnd(TO_ALL),
        ]
    } else {
        seq![]
    }
}

/// The batch that tells of a change.
pub open spec fn diff_feed(d: Depth) -> Seq<Published> {
    depth_feed(d.symbol@, d.bids@, d.asks@, d.event_time * 1_000_000)
}

/// The events that clear both sides of a book.
pub open spec fn clear_feed(symbol: Seq<char>, exch_ts: int) -> Seq<Published> {
    seq![
        Published::Feed(
            symbol,
            Event::level(FeedKind::BidDepthClear, exch_ts as i64, 0, None, 0),
        ),
        Published::Feed(
            symbol,
            Event::level(FeedKind::AskDepthClear, exch_ts as i64, 0, None, 0),
        ),
    ]
}

/// The batches that tell of changes of a symbol, one after the other.
pub open spec fn replay_feed(symbol: Seq<char>, diffs: Seq<Depth>) -> Seq<Published>
    decreases diffs.len(),
{
    if diffs.len() == 0 {
        seq![]
    } else {
        let d = diffs.last();
        replay_feed(symbol, diffs.drop_last()) + depth_feed(
            symbol,
            d.bids@,
            d.asks@,
            d.event_time * 1_000_000,
        )
    }
}

/// The event that tells of a trade; none where its price or quantity is no decimal, or where the
/// trade is to be ignored.
pub open spec fn trade_feed(t: Trade) -> Seq<Published> {
    if decimal_value(t.price@) is Some && decimal_value(t.quantity@) is Some && !t.ignore {
        let ev = if t.is_market_maker {
            FeedKind::SellTrade
        } else {
            FeedKind::BuyTrade
        };
        seq![quote_feed(t.symbol@, ev, t.event_time * 1_000_000, t.price@, t.quantity@)]
    } else {
        seq![]
    }
}

/// The event that tells of the best price of a side. The exchange gives no time with it.
pub open spec fn best_feed(
    symbol: Seq<char>,
    ev: FeedKind,
    now: i64,
    px: Seq<char>,
    qty: Seq<char>,
) -> Published {
    Published::Feed(
        symbol,
        Event::level(
            ev,
            now,
            now,
            Some(decimal_value(px)->0 as i128),
            decimal_value(qty)->0 as i128,
        ),
    )
}

/// The batch that tells of the best bid and ask; none where any of their numbers is no decimal.
pub open spec fn ticker_feed(t: BookTicker, now: i64) -> Seq<Published> {
    if decimal_value(t.best_bid@) is Some && decimal_value(t.best_bid_qty@) is Some
        && decimal_value(t.best_ask@) is Some && decimal_value(t.best_ask_qty@) is Some {
        seq![
            Published::BatchStart(TO_ALL),
            best_feed(t.symbol@, FeedKind::BidDepthBbo, now, t.best_bid@, t.best_bid_qty@),
            best_feed(t.symbol@, FeedKind::AskDepthBbo, now, t.best_ask@, t.best_ask_qty@),
            Published::BatchEnd(TO_ALL),
        ]
    } else {
        seq![]
    }
}

/// Reads a price and a quantity.
pub fn parse_px_qty_tup(px: &str, qty: &str) -> (r: Option<(i128, i128)>)
    ensures
        match r {
            Some((p, q)) => decimal_value(px@) == Some(p as int) && decimal_value(qty@) == Some(
                q as int,
            ),
            None => decimal_value(px@) is None || decimal_value(qty@) is None,
        },
{
    let p = parse_decimal(px)?;
    let q = parse_decimal(qty)?;
    Some((p, q))
}

/// Reads the levels of one side.
fn parse_side(levels: &Vec<(String, String)>) -> (r: Option<Vec<(i128, i128)>>)
    ensures
        match r {
            Some(v) => {
                &&& are_levels(levels@)
                &&& v@.len() == levels@.len()
                &&& forall|i: int|
                    0 <= i < v@.len() ==> decimal_value(levels@[i].0@) == Some(
                        (#[trigger] v@[i]).0 as int,
                    ) && decimal_value(levels@[i].1@) == Some(v@[i].1 as int)
            },
            None => !are_levels(levels@),
        },
{
    let mut out: Vec<(i128, i128)> = Vec::new();
    let mut i: usize = 0;
    while i < levels.len()
        invariant
            i <= levels@.len(),
            out@.len() == i,
            forall|k: int| 0 <= k < i ==> is_level(#[trigger] levels@[k]),
            forall|k: int|
                0 <= k < i ==> decimal_value(levels@[k].0@) == Some((#[trigger] out@[k]).0 as int)
                    && decimal_value(levels@[k].1@) == Some(out@[k].1 as int),
        decreases levels.len() - i,
    {
        match parse_px_qty_tup(levels[i].0.as_str(), levels[i].1.as_str()) {
            Some(l) => {
                assert(is_level(levels@[i as int]));
                out.push(l);
            },
            None => {
                assert(!is_level(levels@[i as int]));
                return None;
            },
        }
        i += 1;
    }
    Some(out)
}

/// Appends the events that tell of the levels of one side.
fn push_side(
    symbol: &str,
    ev: FeedKind,
    exch_ts: i64,
    times: &Vec<i64>,
    Ghost(levels): Ghost<Seq<(String, String)>>,
    values: Vec<(i128, i128)>,
    out: &mut Vec<PublishEvent>,
)
    requires
        times@.len() > 0,
        values@.len() == levels.len(),
        forall|i: int|
            0 <= i < levels.len() ==> decimal_value(levels[i].0@) == Some(
                (#[trigger] values@[i]).0 as int,
            ) && decimal_value(levels[i].1@) == Some(values@[i].1 as int),
    ensures
        published(final(out)@) == published(old(out)@) + stamped(
            side_feed(symbol@, ev, exch_ts as int, levels),
            times@,
            old(out)@.len() as int,
        ),
{
    let ghost before = out@;
    let ghost from = before.len() as int;
    let ghost feed = side_feed(symbol@, ev, exch_ts as int, levels);
    let mut i: usize = 0;
    assert(stamped(feed.take(0), times@, from) =~= seq![]);
    assert(published(out@) =~= published(before) + stamped(feed.take(0), times@, from));
    while i < values.len()
        invariant
            i <= values@.len(),
            times@.len() > 0,
            from == before.len(),
            values@.len() == levels.len(),
            feed == side_feed(symbol@, ev, exch_ts as int, levels),
            forall|k: int|
                0 <= k < levels.len() ==> decimal_value(levels[k].0@) == Some(
                    (#[trigger] values@[k]).0 as int,
                ) && decimal_value(levels[k].1@) == Some(values@[k].1 as int),
            out@.len() == from + i,
            published(out@) == published(before) + stamped(feed.take(i as int), times@, from),
        decreases values.len() - i,
    {
        let ghost here = out@;
        let (px, qty) = values[i];
        let event = Event::new(ev, exch_ts, time_at(times, out.len()), Some(px), qty);
        out.push(PublishEvent::LiveEvent(LiveEvent::Feed { symbol: symbol.to_owned(), event }));
        proof {
            let told = quote_feed(
                symbol@,
                ev,
                exch_ts as int,
                levels[i as int].0@,
                levels[i as int].1@,
            );
            let stamped_told = stamp(told, reading(times@, from + i));
            assert(feed[i as int] == told);
            assert(stamped(feed.take(i + 1), times@, from) =~= stamped(
                feed.take(i as int),
                times@,
                from,
            ).push(stamped_told));
            assert(published(out@) =~= published(here).push(stamped_told));
            assert(published(out@) =~= published(before) + stamped(
                feed.take(i + 1),
                times@,
                from,
            ));
        }
        i += 1;
    }
    assert(feed.take(i as int) =~= feed);
}

/// Appends the batch that tells of the levels of both sides; nothing where a level is no decimal.
/// The local time of an event is the reading at its place.
pub fn emit_depth(
    symbol: &str,
    bids: &Vec<(String, String)>,
    asks: &Vec<(String, String)>,
    exch_ts: i64,
    times: &Vec<i64>,
    out: &mut Vec<PublishEvent>,
)
    requires
        times@.len() > 0,
    ensures
        published(final(out)@) == published(old(out)@) + stamped(
            depth_feed(symbol@, bids@, asks@, exch_ts as int),
            times@,
            old(out)@.len() as int,
        ),
{
    let ghost before = out@;
    let ghost from = before.len() as int;
    let ghost feed = depth_feed(symbol@, bids@, asks@, exch_ts as int);
    if let Some(bid_values) = parse_side(bids) {
        if let Some(ask_values) = parse_side(asks) {
            out.push(PublishEvent::BatchStart(TO_ALL));
            let ghost started = out@;
            push_side(symbol, FeedKind::BidDepth, exch_ts, times, Ghost(bids@), bid_values, out);
            let ghost half = out@;
            push_side(symbol, FeedKind::AskDepth, exch_ts, times, Ghost(asks@), ask_values, out);
            let ghost filled = out@;
            out.push(PublishEvent::BatchEnd(TO_ALL));
            proof {
                assert(published(started) =~= published(before) + seq![
                    Published::BatchStart(TO_ALL),
                ]);
                assert(published(half).len() == half.len());
                assert(half.len() == from + 1 + bids@.len());
                assert(published(out@) =~= published(filled) + seq![Published::BatchEnd(TO_ALL)]);
                let b = side_feed(symbol@, FeedKind::BidDepth, exch_ts as int, bids@);
                let a = side_feed(symbol@, FeedKind::AskDepth, exch_ts as int, asks@);
                let start = seq![Published::BatchStart(TO_ALL)];
                let end = seq![Published::BatchEnd(TO_ALL)];
                assert(feed =~= start + b + a + end);
                assert(published(out@) =~= published(before) + (start + stamped(
                    b,
                    times@,
                    from + 1,
                ) + stamped(a, times@, from + 1 + b.len()) + end));
                assert(stamped(feed, times@, from) =~= start + stamped(b, times@, from + 1)
                    + stamped(a, times@, from + 1 + b.len()) + end);
            }
            return ;
        }
    }
    assert(stamped(feed, times@, from) =~= seq![]);
    assert(published(out@) =~= published(before) + stamped(feed, times@, from));
}

/// Appends the events that clear both sides of a book. The local time of an event is the reading at
/// its place.
pub fn clear_both(symbol: &str, exch_ts: i64, times: &Vec<i64>, out: &mut Vec<PublishEvent>)
    requires
        times@.len() > 0,
    ensures
        published(final(out)@) == published(old(out)@) + stamped(
            clear_feed(symbol@, exch_ts as int),
            times@,
            old(out)@.len() as int,
        ),
{
    let ghost before = out@;
    let bid = Event::new(FeedKind::BidDepthClear, exch_ts, time_at(times, out.len()), None, 0);
    out.push(PublishEvent::LiveEvent(LiveEvent::Feed { symbol: symbol.to_owned(), event: bid }));
    let ask = Event::new(FeedKind::AskDepthClear, exch_ts, time_at(times, out.len()), None, 0);
    out.push(PublishEvent::LiveEvent(LiveEvent::Feed { symbol: symbol.to_owned(), event: ask }));
    assert(published(out@) =~= published(before) + stamped(
        clear_feed(symbol@, exch_ts as int),
        times@,
        before.len() as int,
    ));
}

/// The batch that tells of the best bid and ask at the time of the system.
pub fn process_book_ticker(data: &BookTicker) -> (r: Vec<PublishEvent>)
    ensures
        exists|now: i64| published(r@) == #[trigger] ticker_feed(*data, now),
{
    let now = now_nanos();
    process_book_ticker_at(data, now)
}

/// The batch that tells of the best bid and ask at the time `now`. Both sides are told in one
/// batch, and a frame with a number that is no decimal is dropped whole.
pub fn process_book_ticker_at(data: &BookTicker, now: i64) -> (r: Vec<PublishEvent>)
    ensures
        published(r@) == ticker_feed(*data, now),
{
    let mut out: Vec<PublishEvent> = Vec::new();
    if let Some((bid, bid_qty)) = parse_px_qty_tup(
        data.best_bid.as_str(),
        data.best_bid_qty.as_str(),
    ) {
        if let Some((ask, ask_qty)) = parse_px_qty_tup(
            data.best_ask.as_str(),
            data.best_ask_qty.as_str(),
        ) {
            out.push(PublishEvent::BatchStart(TO_ALL));
            let event = Event::new(FeedKind::BidDepthBbo, now, now, Some(bid), bid_qty);
            out.push(
                PublishEvent::LiveEvent(LiveEvent::Feed { symbol: data.symbol.clone(), event }),
            );
            let event = Event::new(FeedKind::AskDepthBbo, now, now, Some(ask), ask_qty);
            out.push(
                PublishEvent::LiveEvent(LiveEvent::Feed { symbol: data.symbol.clone(), event }),
            );
            out.push(PublishEvent::BatchEnd(TO_ALL));
        }
    }
    assert(published(out@) =~= ticker_feed(*data, now));
    out
}

/// The event that tells of a trade, at the local time `now`.
pub fn process_trade_at(data: &Trade, now: i64) -> (r: Vec<PublishEvent>)
    requires
        data.wf(),
    ensures
        published(r@) == stamped(trade_feed(*data), seq![now], 0),
{
    let mut out: Vec<PublishEvent> = Vec::new();
    if let Some((px, qty)) = parse_px_qty_tup(data.price.as_str(), data.quantity.as_str()) {
        if !data.ignore {
            let ev = if data.is_market_maker {
                FeedKind::SellTrade
            } else {
                FeedKind::BuyTrade
            };
            let event = Event::new(ev, to_nanos(data.event_time), now, Some(px), qty);
            out.push(
                PublishEvent::LiveEvent(LiveEvent::Feed { symbol: data.symbol.clone(), event }),
            );
        }
    }
    assert(published(out@) =~= stamped(trade_feed(*data), seq![now], 0));
    out
}

/// How far the book of a symbol has come.
#[derive(Debug)]
pub enum DepthSync {
    /// A snapshot is on its way; the changes that arrived since are kept.
    AwaitingSnapshot { buffer: Vec<Depth> },
    /// The book is complete up to the update `prev_u`.
    Synced { prev_u: i64 },
}

/// What a [`DepthSync`] holds.
pub enum SyncView {
    Awaiting(Seq<Depth>),
    Synced(i64),
}

impl View for DepthSync {
    type V = SyncView;

    open spec fn view(&self) -> SyncView {
        match self {
            DepthSync::AwaitingSnapshot { buffer } => SyncView::Awaiting(buffer@),
            DepthSync::Synced { prev_u } => SyncView::Synced(*prev_u),
        }
    }
}

/// The changes that a snapshot does not cover.
pub open spec fn survivors(buffer: Seq<Depth>, snap: i64) -> Seq<Depth> {
    buffer.filter(|d: Depth| d.last_update_id > snap)
}

/// Whether the change at `i` begins where the one before it ended. The first must span the first
/// update after the snapshot.
pub open spec fn fits(snap: i64, diffs: Seq<Depth>, i: int) -> bool {
    if i == 0 {
        diffs[0].first_update_id <= snap + 1 <= diffs[0].last_update_id
    } else {
        diffs[i].first_update_id == diffs[i - 1].last_update_id + 1
    }
}

/// Where the first change from `i` on stands that does not fit.
pub open spec fn fitting(snap: i64, diffs: Seq<Depth>, i: int) -> int
    decreases diffs.len() - i,
{
    if 0 <= i < diffs.len() && fits(snap, diffs, i) {
        fitting(snap, diffs, i + 1)
    } else {
        i
    }
}

/// The last update of a snapshot and the changes after it.
pub open spec fn last_update(snap: i64, diffs: Seq<Depth>) -> i64 {
    if diffs.len() == 0 {
        snap
    } else {
        diffs.last().last_update_id
    }
}

/// What a [`MarketDataStream`] holds: how far each book has come, and how often it had to start
/// anew.
pub struct MarketView {
    pub books: Map<Seq<char>, SyncView>,
    pub resyncs: Map<Seq<char>, u64>,
}

impl MarketView {
    /// How often the book of a symbol had to start anew.
    pub open spec fn resyncs_of(self, symbol: Seq<char>) -> u64 {
        if self.resyncs.contains_key(symbol) {
            self.resyncs[symbol]
        } else {
            0
        }
    }

    /// The counts after the book of a symbol had to start anew.
    pub open spec fn counted(self, symbol: Seq<char>) -> Map<Seq<char>, u64> {
        let n = self.resyncs_of(symbol);
        self.resyncs.insert(
            symbol,
            if n == u64::MAX {
                n
            } else {
                (n + 1) as u64
            },
        )
    }

    /// Whether the changes kept for a symbol are its own and their times fit.
    pub open spec fn keeps(self, symbol: Seq<char>) -> bool {
        match self.books[symbol] {
            SyncView::Awaiting(buffer) => forall|i: int|
                0 <= i < buffer.len() ==> (#[trigger] buffer[i]).wf() && buffer[i].symbol@
                    == symbol,
            SyncView::Synced(_) => true,
        }
    }

    /// What holds of every state.
    pub open spec fn valid(self) -> bool {
        forall|symbol: Seq<char>| #[trigger]
            self.books.contains_key(symbol) ==> self.keeps(symbol)
    }

    /// Whether a change is the next one of a complete book.
    pub open spec fn continues(self, d: Depth) -> bool {
        &&& self.books.contains_key(d.symbol@)
        &&& self.books[d.symbol@] is Synced
        &&& d.first_update_id == self.books[d.symbol@]->Synced_0 + 1
    }

    /// Whether a snapshot of the book is on its way.
    pub open spec fn awaits(self, symbol: Seq<char>) -> bool {
        self.books.contains_key(symbol) && self.books[symbol] is Awaiting
    }

    /// The state after a change: kept while a snapshot is on its way, told where it continues the
    /// book; else it starts the book anew.
    pub open spec fn after_diff(self, d: Depth) -> MarketView {
        let symbol = d.symbol@;
        if self.awaits(symbol) {
            MarketView {
                books: self.books.insert(
                    symbol,
                    SyncView::Awaiting(self.books[symbol]->Awaiting_0.push(d)),
                ),
                ..self
            }
        } else if self.continues(d) {
            MarketView {
                books: self.books.insert(symbol, SyncView::Synced(d.last_update_id)),
                ..self
            }
        } else {
            MarketView {
                books: self.books.insert(symbol, SyncView::Awaiting(seq![d])),
                resyncs: if self.books.contains_key(symbol) {
                    self.counted(symbol)
                } else {
                    self.resyncs
                },
            }
        }
    }

    /// What is told of a change.
    pub open spec fn diff_told(self, d: Depth) -> Seq<Published> {
        if self.continues(d) {
            diff_feed(d)
        } else {
            seq![]
        }
    }

    /// Whether a change makes a snapshot be requested.
    pub open spec fn diff_requests(self, d: Depth) -> bool {
        !self.awaits(d.symbol@) && !self.continues(d)
    }

    /// The changes that a snapshot is followed by.
    pub open spec fn pending(self, symbol: Seq<char>, snap: i64) -> Seq<Depth> {
        survivors(self.books[symbol]->Awaiting_0, snap)
    }

    /// Whether a snapshot makes the book complete: it is awaited, and the changes after it fit.
    pub open spec fn completes(self, symbol: Seq<char>, snap: i64) -> bool {
        let diffs = self.pending(symbol, snap);
        self.awaits(symbol) && fitting(snap, diffs, 0) == diffs.len()
    }

    /// The state after a snapshot. One that is not awaited changes nothing.
    pub open spec fn after_snapshot(self, symbol: Seq<char>, snap: i64) -> MarketView {
        if !self.awaits(symbol) {
            self
        } else if self.completes(symbol, snap) {
            let last = last_update(snap, self.pending(symbol, snap));
            MarketView { books: self.books.insert(symbol, SyncView::Synced(last)), ..self }
        } else {
            MarketView {
                books: self.books.insert(symbol, SyncView::Awaiting(seq![])),
                resyncs: self.counted(symbol),
            }
        }
    }

    /// What is told of a snapshot at the time `now`: both sides are cleared, then come its levels,
    /// then the changes after it as far as they fit.
    pub open spec fn snapshot_told(
        self,
        symbol: Seq<char>,
        data: rest::Depth,
        now: i64,
    ) -> Seq<Published> {
        if self.awaits(symbol) {
            let diffs = self.pending(symbol, data.last_update_id);
            clear_feed(symbol, now as int) + depth_feed(symbol, data.bids@, data.asks@, now as int)
                + replay_feed(symbol, diffs.take(fitting(data.last_update_id, diffs, 0)))
        } else {
            seq![]
        }
    }

    /// Whether a snapshot makes another be requested.
    pub open spec fn snapshot_requests(self, symbol: Seq<char>, snap: i64) -> bool {
        self.awaits(symbol) && !self.completes(symbol, snap)
    }
}

/// The changes before the first that does not fit are told from `fitting`.
proof fn lemma_fitting(snap: i64, diffs: Seq<Depth>, i: int, n: int)
    requires
        0 <= i <= n <= diffs.len(),
        forall|k: int| i <= k < n ==> #[trigger] fits(snap, diffs, k),
        n == diffs.len() || !fits(snap, diffs, n),
    ensures
        fitting(snap, diffs, i) == n,
    decreases n - i,
{
    if i < n {
        assert(fits(snap, diffs, i));
        lemma_fitting(snap, diffs, i + 1, n);
    }
}

/// The changes up to `fitting` fit.
proof fn lemma_fitting_fits(snap: i64, diffs: Seq<Depth>, i: int)
    requires
        0 <= i <= diffs.len(),
    ensures
        i <= fitting(snap, diffs, i) <= diffs.len(),
        forall|k: int| i <= k < fitting(snap, diffs, i) ==> #[trigger] fits(snap, diffs, k),
    decreases diffs.len() - i,
{
    if i < diffs.len() && fits(snap, diffs, i) {
        lemma_fitting_fits(snap, diffs, i + 1);
    }
}

/// The changes that a snapshot does not cover, one change further on.
proof fn lemma_survivors_next(buffer: Seq<Depth>, snap: i64, i: int)
    requires
        0 <= i < buffer.len(),
    ensures
        survivors(buffer.take(i + 1), snap) == if buffer[i].last_update_id > snap {
            survivors(buffer.take(i), snap).push(buffer[i])
        } else {
            survivors(buffer.take(i), snap)
        },
        survivors(buffer.take(i + 1), snap).is_prefix_of(survivors(buffer, snap)),
{
    reveal(Seq::filter);
    let pred = |d: Depth| d.last_update_id > snap;
    assert(buffer.take(i + 1).drop_last() =~= buffer.take(i));
    assert(buffer.take(i + 1).last() == buffer[i]);
    assert(buffer =~= buffer.take(i + 1) + buffer.skip(i + 1));
    Seq::filter_distributes_over_add(buffer.take(i + 1), buffer.skip(i + 1), pred);
    let a = survivors(buffer.take(i + 1), snap);
    assert(survivors(buffer, snap) == a + buffer.skip(i + 1).filter(pred));
    assert(survivors(buffer, snap).subrange(0, a.len() as int) =~= a);
}

/// The events that a step of the stream publishes, and the symbol whose snapshot it requests.
#[derive(Debug)]
pub struct MarketStep {
    pub events: Vec<PublishEvent>,
    pub snapshot: Option<String>,
}

impl MarketStep {
    /// Whether the step requests a snapshot of the symbol just where it is to.
    pub open spec fn requests(self, symbol: Seq<char>, wanted: bool) -> bool {
        match self.snapshot {
            Some(s) => wanted && s@ == symbol,
            None => !wanted,
        }
    }

    /// Whether the step does nothing.
    pub open spec fn idle(self) -> bool {
        self.events@.len() == 0 && self.snapshot is None
    }

    /// A step that does nothing.
    fn nothing() -> (r: MarketStep)
        ensures
            r.idle(),
    {
        MarketStep { events: Vec::new(), snapshot: None }
    }
}

/// Whether `r` and `after` are what a change of a book or a trade does to the stream `before`, where
/// `times` are the readings of the clock.
pub open spec fn processed(
    before: MarketView,
    stream: MarketEventStream,
    times: Seq<i64>,
    after: MarketView,
    r: MarketStep,
) -> bool {
    match stream {
        MarketEventStream::DepthUpdate(data) => {
            &&& after == before.after_diff(data)
            &&& published(r.events@) == stamped(before.diff_told(data), times, 0)
            &&& r.requests(data.symbol@, before.diff_requests(data))
        },
        MarketEventStream::Trade(data) => {
            &&& after == before
            &&& published(r.events@) == stamped(trade_feed(data), times, 0)
            &&& r.snapshot is None
        },
        _ => true,
    }
}

/// Whether `events` tell of a snapshot at the time `now`, where `times` are the readings of the
/// clock.
pub open spec fn snapshot_events(
    before: MarketView,
    symbol: Seq<char>,
    data: rest::Depth,
    now: i64,
    times: Seq<i64>,
    events: Seq<PublishEvent>,
) -> bool {
    published(events) == stamped(before.snapshot_told(symbol, data, now), times, 0)
}

/// Reads the clock for each level, and for the start of a batch.
fn read_clock(levels: &Vec<(String, String)>, times: &mut Vec<i64>)
    ensures
        final(times)@.len() == old(times)@.len() + levels@.len() + 1,
{
    let ghost n = times@.len();
    let mut i: usize = 0;
    times.push(now_nanos());
    while i < levels.len()
        invariant
            i <= levels@.len(),
            times@.len() == n + i + 1,
        decreases levels.len() - i,
    {
        times.push(now_nanos());
        i += 1;
    }
}

/// The books of the market-data stream.
#[derive(Debug)]
pub struct MarketDataStream {
    depth_sync: Table<DepthSync>,
    resync_count: Table<u64>,
}

impl View for MarketDataStream {
    type V = MarketView;

    closed spec fn view(&self) -> MarketView {
        MarketView {
            books: self.depth_sync@.map_values(|d: DepthSync| d@),
            resyncs: self.resync_count@,
        }
    }
}

impl MarketDataStream {
    /// What holds of every stream.
    pub closed spec fn wf(self) -> bool {
        &&& self.depth_sync.wf()
        &&& self.resync_count.wf()
        &&& self@.valid()
    }

    /// The changes that a stream keeps are those of their symbol.
    pub proof fn lemma_valid(self)
        requires
            self.wf(),
        ensures
            self@.valid(),
    {
    }

    /// A stream that follows no book yet.
    pub fn new() -> (s: MarketDataStream)
        ensures
            s.wf(),
            s@.books.is_empty(),
            s@.resyncs.is_empty(),
    {
        let s = MarketDataStream { depth_sync: Table::new(), resync_count: Table::new() };
        assert(s@.books.dom() =~= Set::empty());
        s
    }

    /// Counts that the book of a symbol had to start anew.
    fn count_resync(&mut self, symbol: &str)
        requires
            old(self).wf(),
        ensures
            final(self).wf(),
            final(self)@.books == old(self)@.books,
            final(self)@.resyncs == old(self)@.counted(symbol@),
    {
        let n: u64 = match self.resync_count.get(symbol) {
            Some(n) => *n,
            None => 0,
        };
        let next: u64 = if n == u64::MAX {
            n
        } else {
            n + 1
        };
        let ghost before = self@;
        self.resync_count.set(symbol, next);
        assert forall|s: Seq<char>| #[trigger] self@.books.contains_key(s) implies self@.keeps(
            s,
        ) by {
            assert(before.books.contains_key(s));
            assert(before.keeps(s));
        }
    }

    /// Sets how far the book of a symbol has come.
    fn put(&mut self, symbol: &str, sync: DepthSync)
        requires
            old(self).wf(),
            match sync@ {
                SyncView::Awaiting(buffer) => forall|i: int|
                    0 <= i < buffer.len() ==> (#[trigger] buffer[i]).wf() && buffer[i].symbol@
                        == symbol@,
                SyncView::Synced(_) => true,
            },
        ensures
            final(self).wf(),
            final(self)@.books == old(self)@.books.insert(symbol@, sync@),
            final(self)@.resyncs == old(self)@.resyncs,
    {
        let ghost before = self@;
        self.depth_sync.set(symbol, sync);
        proof {
            assert(self@.books =~= before.books.insert(symbol@, sync@));
            assert forall|s: Seq<char>| #[trigger] self@.books.contains_key(s) implies self@.keeps(
                s,
            ) by {
                if s != symbol@ {
                    assert(before.books.contains_key(s));
                    assert(before.keeps(s));
                }
            }
        }
    }

    /// Takes in a change of a book. The local time of an event is the reading at its place.
    pub fn process_depth_at(&mut self, data: Depth, times: &Vec<i64>) -> (r: MarketStep)
        requires
            old(self).wf(),
            data.wf(),
            times@.len() > 0,
        ensures
            final(self).wf(),
            final(self)@ == old(self)@.after_diff(data),
            published(r.events@) == stamped(old(self)@.diff_told(data), times@, 0),
            r.requests(data.symbol@, old(self)@.diff_requests(data)),
    {
        let ghost before = self@;
        let symbol = data.symbol.clone();
        let mut events: Vec<PublishEvent> = Vec::new();
        assert(published(events@) =~= seq![]);
        assert(stamped(seq![], times@, 0) =~= seq![]);
        let known = match self.depth_sync.get(symbol.as_str()) {
            Some(DepthSync::AwaitingSnapshot { .. }) => {
                assert(before.awaits(symbol@));
                assert(before.keeps(symbol@));
                if let Some(DepthSync::AwaitingSnapshot { buffer }) = self.depth_sync.take(
                    symbol.as_str(),
                ) {
                    let mut buffer = buffer;
                    let ghost kept = buffer@;
                    buffer.push(data);
                    proof {
                        assert(self@.books =~= before.books.remove(symbol@));
                        assert forall|s: Seq<char>| #[trigger]
                            self@.books.contains_key(s) implies self@.keeps(s) by {
                            assert(before.books.contains_key(s));
                            assert(before.keeps(s));
                        }
                        assert(kept == before.books[symbol@]->Awaiting_0);
                        assert forall|i: int| 0 <= i < buffer@.len() implies (
                        #[trigger] buffer@[i]).wf() && buffer@[i].symbol@ == symbol@ by {
                            if i < kept.len() {
                                assert(buffer@[i] == kept[i]);
                            }
                        }
                    }
                    self.put(symbol.as_str(), DepthSync::AwaitingSnapshot { buffer });
                    assert(self@.books =~= before.after_diff(data).books);
                }
                return MarketStep { events, snapshot: None };
            },
            Some(DepthSync::Synced { prev_u }) => {
                if data.first_update_id as i128 == *prev_u as i128 + 1 {
                    assert(before.continues(data));
                    emit_depth(
                        symbol.as_str(),
                        &data.bids,
                        &data.asks,
                        to_nanos(data.event_time),
                        times,
                        &mut events,
                    );
                    assert(published(events@) =~= stamped(diff_feed(data), times@, 0));
                    self.put(symbol.as_str(), DepthSync::Synced { prev_u: data.last_update_id });
                    return MarketStep { events, snapshot: None };
                }
                true
            },
            None => false,
        };
        assert(before.diff_requests(data));
        if known {
            self.count_resync(symbol.as_str());
        }
        let buffer: Vec<Depth> = vec![data];
        assert(buffer@ =~= seq![data]);
        self.put(symbol.as_str(), DepthSync::AwaitingSnapshot { buffer });
        MarketStep { events, snapshot: Some(symbol) }
    }

    /// Takes in an event of the stream: a change of a book, or a trade. The clock of the system is
    /// read for each event that may be told.
    pub fn process_message(&mut self, stream: MarketEventStream) -> (r: MarketStep)
        requires
            old(self).wf(),
            stream.wf(),
            stream is DepthUpdate || stream is Trade,
        ensures
            final(self).wf(),
            exists|times: Seq<i64>| #[trigger] processed(old(self)@, stream, times, final(self)@, r),
    {
        let mut times: Vec<i64> = Vec::new();
        times.push(now_nanos());
        if let MarketEventStream::DepthUpdate(data) = &stream {
            read_clock(&data.bids, &mut times);
            read_clock(&data.asks, &mut times);
        }
        self.process_message_at(stream, &times)
    }

    /// Takes in an event of the stream. The local time of an event is the reading at its place.
    pub fn process_message_at(&mut self, stream: MarketEventStream, times: &Vec<i64>) -> (r:
        MarketStep)
        requires
            old(self).wf(),
            stream.wf(),
            stream is DepthUpdate || stream is Trade,
            times@.len() > 0,
        ensures
            final(self).wf(),
            processed(old(self)@, stream, times@, final(self)@, r),
    {
        match stream {
            MarketEventStream::DepthUpdate(data) => self.process_depth_at(data, times),
            MarketEventStream::Trade(data) => {
                let events = process_trade_at(&data, times[0]);
                assert(stamped(trade_feed(data), seq![times@[0]], 0) =~= stamped(
                    trade_feed(data),
                    times@,
                    0,
                ));
                MarketStep { events, snapshot: None }
            },
            _ => MarketStep::nothing(),
        }
    }

    /// Takes in a snapshot at the time of the system. The clock is read for each event that may be
    /// told.
    pub fn process_snapshot(&mut self, symbol: String, data: rest::Depth) -> (r: MarketStep)
        requires
            old(self).wf(),
        ensures
            final(self).wf(),
            final(self)@ == old(self)@.after_snapshot(symbol@, data.last_update_id),
            exists|now: i64, times: Seq<i64>| #[trigger]
                snapshot_events(old(self)@, symbol@, data, now, times, r.events@),
            r.requests(symbol@, old(self)@.snapshot_requests(symbol@, data.last_update_id)),
    {
        let now = now_nanos();
        let mut times: Vec<i64> = Vec::new();
        times.push(now_nanos());
        read_clock(&data.bids, &mut times);
        read_clock(&data.asks, &mut times);
        if let Some(DepthSync::AwaitingSnapshot { buffer }) = self.depth_sync.get(symbol.as_str()) {
            let mut i: usize = 0;
            while i < buffer.len()
                invariant
                    i <= buffer@.len(),
                    times@.len() > 0,
                decreases buffer.len() - i,
            {
                read_clock(&buffer[i].bids, &mut times);
                read_clock(&buffer[i].asks, &mut times);
                i += 1;
            }
        }
        self.process_snapshot_at(symbol, data, now, &times)
    }

    /// Takes in a snapshot at the time `now`. The local time of an event is the reading at its
    /// place.
    pub fn process_snapshot_at(
        &mut self,
        symbol: String,
        data: rest::Depth,
        now: i64,
        times: &Vec<i64>,
    ) -> (r: MarketStep)
        requires
            old(self).wf(),
            times@.len() > 0,
        ensures
            final(self).wf(),
            final(self)@ == old(self)@.after_snapshot(symbol@, data.last_update_id),
            snapshot_events(old(self)@, symbol@, data, now, times@, r.events@),
            r.requests(symbol@, old(self)@.snapshot_requests(symbol@, data.last_update_id)),
    {
        let ghost before = self@;
        let mut events: Vec<PublishEvent> = Vec::new();
        assert(published(events@) =~= seq![]);
        assert(stamped(seq![], times@, 0) =~= seq![]);
        let awaited = match self.depth_sync.get(symbol.as_str()) {
            Some(DepthSync::AwaitingSnapshot { .. }) => true,
            _ => false,
        };
        if !awaited {
            return MarketStep { events, snapshot: None };
        }
        assert(before.awaits(symbol@));
        assert(before.keeps(symbol@));
        let buffer: Vec<Depth> = match self.depth_sync.take(symbol.as_str()) {
            Some(DepthSync::AwaitingSnapshot { buffer }) => buffer,
            _ => Vec::new(),
        };
        proof {
            assert(buffer@ == before.books[symbol@]->Awaiting_0);
            assert(self@.books =~= before.books.remove(symbol@));
            assert forall|s: Seq<char>| #[trigger] self@.books.contains_key(s) implies self@.keeps(
                s,
            ) by {
                assert(before.books.contains_key(s));
                assert(before.keeps(s));
            }
        }
        let snap = data.last_update_id;
        let ghost diffs = before.pending(symbol@, snap);
        clear_both(symbol.as_str(), now, times, &mut events);
        emit_depth(symbol.as_str(), &data.bids, &data.asks, now, times, &mut events);
        let ghost head = clear_feed(symbol@, now as int) + depth_feed(
            symbol@,
            data.bids@,
            data.asks@,
            now as int,
        );
        proof {
            lemma_stamped_parts(
                clear_feed(symbol@, now as int),
                depth_feed(symbol@, data.bids@, data.asks@, now as int),
                times@,
                0,
            );
            assert(published(events@) =~= stamped(head, times@, 0));
        }
        let mut prev_u: i64 = snap;
        let mut aligned = false;
        let mut i: usize = 0;
        proof {
            reveal(Seq::filter);
            assert(survivors(buffer@.take(0), snap) =~= seq![]);
            assert(head =~= head + replay_feed(symbol@, seq![]));
        }
        while i < buffer.len()
            invariant
                i <= buffer@.len(),
                self.wf(),
                before == old(self)@,
                before.awaits(symbol@),
                self@.books == before.books.remove(symbol@),
                self@.resyncs == before.resyncs,
                snap == data.last_update_id,
                diffs == survivors(buffer@, snap),
                diffs == before.pending(symbol@, snap),
                head == clear_feed(symbol@, now as int) + depth_feed(
                    symbol@,
                    data.bids@,
                    data.asks@,
                    now as int,
                ),
                forall|k: int|
                    0 <= k < buffer@.len() ==> (#[trigger] buffer@[k]).wf() && buffer@[k].symbol@
                        == symbol@,
                survivors(buffer@.take(i as int), snap).is_prefix_of(diffs),
                aligned == (survivors(buffer@.take(i as int), snap).len() > 0),
                prev_u == last_update(snap, survivors(buffer@.take(i as int), snap)),
                forall|k: int|
                    0 <= k < survivors(buffer@.take(i as int), snap).len() ==> #[trigger] fits(
                        snap,
                        diffs,
                        k,
                    ),
                times@.len() > 0,
                published(events@) == stamped(
                    head + replay_feed(symbol@, survivors(buffer@.take(i as int), snap)),
                    times@,
                    0,
                ),
            decreases buffer.len() - i,
        {
            let ghost so_far = survivors(buffer@.take(i as int), snap);
            let ghost n = so_far.len() as int;
            let ghost told = events@;
            proof {
                lemma_survivors_next(buffer@, snap, i as int);
            }
            let d = &buffer[i];
            if d.last_update_id > snap {
                proof {
                    assert(so_far.push(*d).is_prefix_of(diffs));
                    assert(diffs[n] == so_far.push(*d)[n]);
                    assert(diffs[n] == *d);
                    if n > 0 {
                        assert(diffs[n - 1] == so_far.push(*d)[n - 1]);
                    }
                }
                let ok = if !aligned {
                    d.first_update_id as i128 <= snap as i128 + 1 && snap as i128 + 1
                        <= d.last_update_id as i128
                } else {
                    d.first_update_id as i128 == prev_u as i128 + 1
                };
                assert(ok == fits(snap, diffs, n));
                if !ok {
                    proof {
                        lemma_fitting(snap, diffs, 0, n);
                        assert(diffs.take(n) =~= so_far);
                    }
                    self.count_resync(symbol.as_str());
                    let empty: Vec<Depth> = Vec::new();
                    assert(empty@ =~= seq![]);
                    self.put(symbol.as_str(), DepthSync::AwaitingSnapshot { buffer: empty });
                    proof {
                        assert(self@.books =~= before.after_snapshot(symbol@, snap).books);
                    }
                    return MarketStep { events, snapshot: Some(symbol) };
                }
                aligned = true;
                prev_u = d.last_update_id;
                emit_depth(
                    symbol.as_str(),
                    &d.bids,
                    &d.asks,
                    to_nanos(d.event_time),
                    times,
                    &mut events,
                );
                proof {
                    let next = so_far.push(*d);
                    assert(next.drop_last() =~= so_far);
                    assert(next.last() == *d);
                    let feed = depth_feed(
                        symbol@,
                        d.bids@,
                        d.asks@,
                        d.event_time * 1_000_000,
                    );
                    let first = head + replay_feed(symbol@, so_far);
                    assert(head + replay_feed(symbol@, next) =~= first + feed);
                    lemma_stamped_parts(first, feed, times@, 0);
                    assert(published(told).len() == told.len());
                    assert(published(events@) =~= stamped(
                        head + replay_feed(symbol@, next),
                        times@,
                        0,
                    ));
                }
            }
            i += 1;
        }
        proof {
            assert(buffer@.take(i as int) =~= buffer@);
            lemma_fitting(snap, diffs, 0, diffs.len() as int);
            assert(diffs.take(diffs.len() as int) =~= diffs);
        }
        self.put(symbol.as_str(), DepthSync::Synced { prev_u });
        assert(self@.books =~= before.after_snapshot(symbol@, snap).books);
        MarketStep { events, snapshot: None }
    }
}

/// The request to subscribe to trades, book changes and the best bid and ask of a symbol, laid out
/// at a margin.
pub open spec fn subscribe_chars(symbol: Seq<char>, id: Seq<char>, margin: Seq<char>) -> Seq<char> {
    "{\n"@ + margin + "    \"method\": \"SUBSCRIBE\",\n"@ + margin + "    \"params\": [\n"@ + margin
        + "        \""@ + symbol + "@trade\",\n"@ + margin + "        \""@ + symbol
        + "@depth@100ms\",\n"@ + margin + "        \""@ + symbol + "@bookTicker\"\n"@ + margin
        + "    ],\n"@ + margin + "    \"id\": \""@ + id + "\"\n"@ + margin + "}"@
}

/// The margin of the requests that a connection begins with.
pub const OPENING_MARGIN: &'static str = "            ";

/// The margin of the requests that follow.
pub const LATER_MARGIN: &'static str = "                        ";

/// The request to subscribe to trades, book changes and the best bid and ask of a symbol. The
/// identifier is drawn at random.
pub fn subscribe_message(symbol: &str, id: &str, margin: &str) -> (s: String)
    ensures
        s@ == subscribe_chars(symbol@, id@, margin@),
{
    let mut s = "{\n".to_owned();
    s.append(margin);
    s.append("    \"method\": \"SUBSCRIBE\",\n");
    s.append(margin);
    s.append("    \"params\": [\n");
    s.append(margin);
    s.append("        \"");
    s.append(symbol);
    s.append("@trade\",\n");
    s.append(margin);
    s.append("        \"");
    s.append(symbol);
    s.append("@depth@100ms\",\n");
    s.append(margin);
    s.append("        \"");
    s.append(symbol);
    s.append("@bookTicker\"\n");
    s.append(margin);
    s.append("    ],\n");
    s.append(margin);
    s.append("    \"id\": \"");
    s.append(id);
    s.append("\"\n");
    s.append(margin);
    s.append("}");
    s
}

/// Whether requests subscribe to symbols one by one, each under the identifier at its place.
pub open spec fn resubscribes(
    symbols: Seq<Seq<char>>,
    ids: Seq<Seq<char>>,
    out: Seq<Seq<char>>,
) -> bool {
    &&& out.len() == symbols.len()
    &&& forall|i: int|
        0 <= i < out.len() ==> #[trigger] out[i] == subscribe_chars(
            symbols[i],
            ids[i],
            OPENING_MARGIN@,
        )
}

/// The requests that a new connection begins with: one for each registered symbol, as an earlier
/// connection's subscriptions are lost with it. There is an identifier for each.
pub fn resubscribe_messages(symbols: &Vec<String>, ids: &Vec<String>) -> (r: Vec<String>)
    requires
        symbols@.len() <= ids@.len(),
    ensures
        r@.len() == symbols@.len(),
        forall|i: int|
            0 <= i < r@.len() ==> (#[trigger] r@[i])@ == subscribe_chars(
                symbols@[i]@,
                ids@[i]@,
                OPENING_MARGIN@,
            ),
        resubscribes(texts(symbols@), texts(ids@), texts(r@)),
{
    let mut out: Vec<String> = Vec::new();
    let mut i: usize = 0;
    while i < symbols.len()
        invariant
            i <= symbols@.len(),
            symbols@.len() <= ids@.len(),
            out@.len() == i,
            forall|k: int|
                0 <= k < i ==> (#[trigger] out@[k])@ == subscribe_chars(
                    symbols@[k]@,
                    ids@[k]@,
                    OPENING_MARGIN@,
                ),
        decreases symbols.len() - i,
    {
        out.push(subscribe_message(symbols[i].as_str(), ids[i].as_str(), OPENING_MARGIN));
        i += 1;
    }
    proof {
        let told = texts(out@);
        assert forall|k: int| 0 <= k < told.len() implies #[trigger] told[k] == subscribe_chars(
            texts(symbols@)[k],
            texts(ids@)[k],
            OPENING_MARGIN@,
        ) by {
            assert(told[k] == out@[k]@);
        }
    }
    out
}

/// What a connection of the market-data stream waits for.
#[derive(Debug)]
pub enum MarketInput {
    /// A snapshot of a symbol has arrived.
    Snapshot(String, rest::Depth),
    /// The timer ticked, so many nanoseconds after the last ping.
    Tick(u128),
    /// A symbol was registered; the identifier for its request.
    Registered(String, String),
    /// So many registrations were missed.
    Missed(u64),
    /// No more symbols will be registered.
    Closed,
    /// The socket delivered something.
    Socket(SocketEvent),
}

/// What a connection of the market-data stream does next.
#[derive(Debug)]
pub enum MarketAction {
    /// Publish events, request a snapshot, and go on.
    Continue(MarketStep),
    /// Send a text and go on.
    Send(String),
    /// Answer a ping, take the time of it, and go on.
    Pong,
    /// End without an error.
    Finish,
    /// End with an error.
    Fail(BinanceSpotError),
    /// A frame arrived that no subscription asks for.
    Unexpected,
}

impl MarketAction {
    /// Whether the connection goes on and nothing else is done.
    pub open spec fn idle(self) -> bool {
        self is Continue && self->Continue_0.idle()
    }
}

/// Whether `r` and `after` are what a frame does to the stream `before`.
pub open spec fn framed(
    before: MarketView,
    frame: MarketStream,
    after: MarketView,
    r: MarketAction,
) -> bool {
    match frame {
        MarketStream::EventStream(stream) => if stream is DepthUpdate || stream is Trade {
            &&& r is Continue
            &&& exists|times: Seq<i64>| #[trigger]
                processed(before, stream, times, after, r->Continue_0)
        } else {
            after == before && r is Unexpected
        },
        MarketStream::BookTicker(data) => {
            &&& after == before
            &&& r is Continue
            &&& exists|now: i64|
                published(r->Continue_0.events@) == #[trigger] ticker_feed(data, now)
            &&& r->Continue_0.snapshot is None
        },
        MarketStream::Result(_) => after == before && r.idle(),
    }
}

/// The error of a connection that the other side closed.
pub open spec fn closed_error(frame: Option<String>, e: BinanceSpotError) -> bool {
    e is ConnectionAbort && e->ConnectionAbort_0@ == match frame {
        Some(text) => text@,
        None => ""@,
    }
}

/// Whether `r` and `after` are what the socket's delivery does to the stream `before`.
pub open spec fn socketed(
    before: MarketView,
    event: SocketEvent,
    after: MarketView,
    r: MarketAction,
) -> bool {
    match event {
        SocketEvent::Text(text) => {
            if MarketStream::shape(text@) {
                exists|frame: MarketStream| #[trigger]
                    frame.reads(text@) && framed(before, frame, after, r)
            } else {
                after == before && r.idle()
            }
        },
        SocketEvent::Ping => after == before && r is Pong,
        SocketEvent::Close(frame) => {
            &&& after == before
            &&& r is Fail
            &&& closed_error(frame, r->Fail_0)
        },
        SocketEvent::Other => after == before && r.idle(),
        SocketEvent::Failed(error) => after == before && r
            == MarketAction::Fail(error),
        SocketEvent::Ended => after == before && r == MarketAction::Fail(
            BinanceSpotError::ConnectionInterrupted,
        ),
    }
}

/// Whether `r` and `after` are what the connection does with what it waited for, where the stream was
/// `before`.
pub open spec fn stepped(
    before: MarketView,
    input: MarketInput,
    after: MarketView,
    r: MarketAction,
) -> bool {
    match input {
        MarketInput::Snapshot(symbol, data) => {
            &&& after == before.after_snapshot(symbol@, data.last_update_id)
            &&& r is Continue
            &&& exists|now: i64, times: Seq<i64>| #[trigger]
                snapshot_events(
                    before,
                    symbol@,
                    data,
                    now,
                    times,
                    r->Continue_0.events@,
                )
            &&& r->Continue_0.requests(
                symbol@,
                before.snapshot_requests(symbol@, data.last_update_id),
            )
        },
        MarketInput::Tick(elapsed) => {
            &&& after == before
            &&& if elapsed > PING_TIMEOUT_NANOS {
                r == MarketAction::Fail(BinanceSpotError::ConnectionInterrupted)
            } else {
                r.idle()
            }
        },
        MarketInput::Registered(symbol, id) => {
            &&& after == before
            &&& r is Send
            &&& r->Send_0@ == subscribe_chars(symbol@, id@, LATER_MARGIN@)
        },
        MarketInput::Missed(_) => after == before && r.idle(),
        MarketInput::Closed => after == before && r is Finish,
        MarketInput::Socket(event) => socketed(before, event, after, r),
    }
}

impl MarketDataStream {
    /// Takes in a frame.
    pub fn on_frame(&mut self, frame: MarketStream) -> (r: MarketAction)
        requires
            old(self).wf(),
            frame.wf(),
        ensures
            final(self).wf(),
            framed(old(self)@, frame, final(self)@, r),
    {
        match frame {
            MarketStream::EventStream(stream) => match stream {
                MarketEventStream::DepthUpdate(data) => MarketAction::Continue(
                    self.process_message(MarketEventStream::DepthUpdate(data)),
                ),
                MarketEventStream::Trade(data) => MarketAction::Continue(
                    self.process_message(MarketEventStream::Trade(data)),
                ),
                _ => MarketAction::Unexpected,
            },
            MarketStream::BookTicker(data) => MarketAction::Continue(
                MarketStep { events: process_book_ticker(&data), snapshot: None },
            ),
            MarketStream::Result(_) => MarketAction::Continue(MarketStep::nothing()),
        }
    }

    /// Takes in what the socket delivered.
    pub fn on_socket(&mut self, event: SocketEvent) -> (r: MarketAction)
        requires
            old(self).wf(),
        ensures
            final(self).wf(),
            socketed(old(self)@, event, final(self)@, r),
    {
        match event {
            SocketEvent::Text(text) => match from_text::<MarketStream>(text.as_str()) {
                Some(frame) => {
                    let ghost read = frame;
                    let r = self.on_frame(frame);
                    assert(read.reads(text@));
                    r
                },
                None => MarketAction::Continue(MarketStep::nothing()),
            },
            SocketEvent::Ping => MarketAction::Pong,
            SocketEvent::Close(frame) => MarketAction::Fail(
                BinanceSpotError::ConnectionAbort(
                    match frame {
                        Some(text) => text,
                        None => "".to_owned(),
                    },
                ),
            ),
            SocketEvent::Other => MarketAction::Continue(MarketStep::nothing()),
            SocketEvent::Failed(error) => MarketAction::Fail(error),
            SocketEvent::Ended => MarketAction::Fail(BinanceSpotError::ConnectionInterrupted),
        }
    }

    /// Takes in what the connection waited for.
    pub fn step(&mut self, input: MarketInput) -> (r: MarketAction)
        requires
            old(self).wf(),
        ensures
            final(self).wf(),
            stepped(old(self)@, input, final(self)@, r),
    {
        match input {
            MarketInput::Snapshot(symbol, data) => MarketAction::Continue(
                self.process_snapshot(symbol, data),
            ),
            MarketInput::Tick(elapsed) => if timed_out(elapsed) {
                MarketAction::Fail(BinanceSpotError::ConnectionInterrupted)
            } else {
                MarketAction::Continue(MarketStep::nothing())
            },
            MarketInput::Registered(symbol, id) => MarketAction::Send(
                subscribe_message(symbol.as_str(), id.as_str(), LATER_MARGIN),
            ),
            MarketInput::Missed(_) => MarketAction::Continue(MarketStep::nothing()),
            MarketInput::Closed => MarketAction::Finish,
            MarketInput::Socket(event) => self.on_socket(event),
        }
    }
}

/// The state after changes, one after the other.
pub open spec fn after_diffs(v: MarketView, diffs: Seq<Depth>) -> MarketView
    decreases diffs.len(),
{
    if diffs.len() == 0 {
        v
    } else {
        after_diffs(v, diffs.drop_last()).after_diff(diffs.last())
    }
}

/// What is told of changes, one after the other.
pub open spec fn diffs_told(v: MarketView, diffs: Seq<Depth>) -> Seq<Published>
    decreases diffs.len(),
{
    if diffs.len() == 0 {
        seq![]
    } else {
        diffs_told(v, diffs.drop_last()) + after_diffs(v, diffs.drop_last()).diff_told(diffs.last())
    }
}

/// Whether changes of a symbol follow the update `prev_u` without a gap.
pub open spec fn follows(prev_u: i64, symbol: Seq<char>, diffs: Seq<Depth>) -> bool {
    forall|i: int| #[trigger] follows_at(prev_u, symbol, diffs, i)
}

/// Whether the change at `i` begins where the one before it ended.
pub open spec fn follows_at(prev_u: i64, symbol: Seq<char>, diffs: Seq<Depth>, i: int) -> bool {
    0 <= i < diffs.len() ==> {
        &&& diffs[i].symbol@ == symbol
        &&& diffs[i].first_update_id == 1 + if i == 0 {
            prev_u
        } else {
            diffs[i - 1].last_update_id
        }
    }
}

/// Changes that follow a complete book without a gap are all told, and the book stays complete.
pub proof fn law_contiguous_changes_are_told(
    v: MarketView,
    prev_u: i64,
    symbol: Seq<char>,
    diffs: Seq<Depth>,
)
    requires
        v.books.contains_key(symbol),
        v.books[symbol] == SyncView::Synced(prev_u),
        follows(prev_u, symbol, diffs),
    ensures
        diffs_told(v, diffs) == replay_feed(symbol, diffs),
        after_diffs(v, diffs).books.contains_key(symbol),
        after_diffs(v, diffs).books[symbol] == SyncView::Synced(last_update(prev_u, diffs)),
        after_diffs(v, diffs).resyncs == v.resyncs,
    decreases diffs.len(),
{
    if diffs.len() > 0 {
        let rest = diffs.drop_last();
        assert forall|i: int| #[trigger] follows_at(prev_u, symbol, rest, i) by {
            assert(follows_at(prev_u, symbol, diffs, i));
        }
        law_contiguous_changes_are_told(v, prev_u, symbol, rest);
        assert(follows_at(prev_u, symbol, diffs, diffs.len() - 1));
        assert(after_diffs(v, rest).continues(diffs.last()));
    }
}

/// A change that does not follow a complete book is not told: the book waits for a snapshot, and
/// until that arrives no change is told.
pub proof fn law_nothing_is_told_across_a_gap(v: MarketView, d: Depth, diffs: Seq<Depth>)
    requires
        !v.continues(d),
        forall|i: int| 0 <= i < diffs.len() ==> (#[trigger] diffs[i]).symbol@ == d.symbol@,
    ensures
        v.diff_told(d).len() == 0,
        after_diffs(v.after_diff(d), diffs).awaits(d.symbol@),
        diffs_told(v.after_diff(d), diffs).len() == 0,
    decreases diffs.len(),
{
    if diffs.len() > 0 {
        assert(diffs.last() == diffs[diffs.len() - 1]);
        assert forall|i: int| 0 <= i < diffs.drop_last().len() implies (
        #[trigger] diffs.drop_last()[i]).symbol@ == d.symbol@ by {
            assert(diffs.drop_last()[i] == diffs[i]);
        }
        law_nothing_is_told_across_a_gap(v, d, diffs.drop_last());
    }
}

/// The changes told after a snapshot are not covered by it; the first spans the first update after
/// it, and each other begins where the one before it ended.
pub proof fn law_replay_follows_the_snapshot(v: MarketView, symbol: Seq<char>, snap: i64, i: int)
    requires
        v.awaits(symbol),
        0 <= i < fitting(snap, v.pending(symbol, snap), 0),
    ensures
        ({
            let diffs = v.pending(symbol, snap);
            &&& fitting(snap, diffs, 0) <= diffs.len()
            &&& v.books[symbol]->Awaiting_0.contains(diffs[i])
            &&& diffs[i].last_update_id > snap
            &&& if i == 0 {
                diffs[0].first_update_id <= snap + 1 <= diffs[0].last_update_id
            } else {
                diffs[i].first_update_id == diffs[i - 1].last_update_id + 1
            }
        }),
{
    let buffer = v.books[symbol]->Awaiting_0;
    let diffs = v.pending(symbol, snap);
    lemma_fitting_fits(snap, diffs, 0);
    assert(fits(snap, diffs, i));
    lemma_survivor(buffer, snap, i);
}

/// Whatever survives was kept, and is not covered.
proof fn lemma_survivor(buffer: Seq<Depth>, snap: i64, i: int)
    requires
        0 <= i < survivors(buffer, snap).len(),
    ensures
        survivors(buffer, snap)[i].last_update_id > snap,
        buffer.contains(survivors(buffer, snap)[i]),
    decreases buffer.len(),
{
    reveal(Seq::filter);
    if buffer.len() > 0 {
        let rest = buffer.drop_last();
        if i < survivors(rest, snap).len() {
            lemma_survivor(rest, snap, i);
            let d = survivors(rest, snap)[i];
            let k = choose|k: int| 0 <= k < rest.len() && rest[k] == d;
            assert(buffer[k] == d);
        } else {
            assert(buffer[buffer.len() - 1] == survivors(buffer, snap)[i]);
        }
    }
}

/// A snapshot that completes the book is told with all changes that it does not cover, and the
/// book is complete up to the last of them.
pub proof fn law_snapshot_completes_the_book(
    v: MarketView,
    symbol: Seq<char>,
    data: rest::Depth,
    now: i64,
)
    requires
        v.completes(symbol, data.last_update_id),
    ensures
        ({
            let diffs = v.pending(symbol, data.last_update_id);
            let after = v.after_snapshot(symbol, data.last_update_id);
            &&& v.snapshot_told(symbol, data, now) == clear_feed(symbol, now as int) + depth_feed(
                symbol,
                data.bids@,
                data.asks@,
                now as int,
            ) + replay_feed(symbol, diffs)
            &&& after.books[symbol] == SyncView::Synced(last_update(data.last_update_id, diffs))
            &&& after.resyncs == v.resyncs
            &&& !v.snapshot_requests(symbol, data.last_update_id)
        }),
{
    let diffs = v.pending(symbol, data.last_update_id);
    assert(diffs.take(diffs.len() as int) =~= diffs);
}

/// Whatever follows a snapshot, both sides of the book are cleared before its levels are told.
pub proof fn law_snapshot_clears_the_book_first(
    v: MarketView,
    symbol: Seq<char>,
    data: rest::Depth,
    now: i64,
)
    requires
        v.awaits(symbol),
    ensures
        v.snapshot_told(symbol, data, now).len() >= 2,
        v.snapshot_told(symbol, data, now).take(2) == clear_feed(symbol, now as int),
{
    assert(v.snapshot_told(symbol, data, now).take(2) =~= clear_feed(symbol, now as int));
}

/// A change or a snapshot of one symbol leaves the books of the others as they are.
pub proof fn law_other_books_stay(v: MarketView, d: Depth, snap: i64, other: Seq<char>)
    requires
        other != d.symbol@,
    ensures
        v.after_diff(d).books.contains_key(other) == v.books.contains_key(other),
        v.books.contains_key(other) ==> v.after_diff(d).books[other] == v.books[other],
        v.after_diff(d).resyncs_of(other) == v.resyncs_of(other),
        v.after_snapshot(d.symbol@, snap).books.contains_key(other) == v.books.contains_key(other),
        v.books.contains_key(other) ==> v.after_snapshot(d.symbol@, snap).books[other]
            == v.books[other],
        v.after_snapshot(d.symbol@, snap).resyncs_of(other) == v.resyncs_of(other),
{
}

/// A book that starts anew is counted; the first change of a book is not.
pub proof fn law_resyncs_are_counted(v: MarketView, d: Depth)
    requires
        v.resyncs_of(d.symbol@) < u64::MAX,
    ensures
        v.after_diff(d).resyncs_of(d.symbol@) == v.resyncs_of(d.symbol@) + if v.diff_requests(d)
            && v.books.contains_key(d.symbol@) {
            1int
        } else {
            0int
        },
{
}

/// Whether an event tells, without its local time, of the price and the quantity that two texts
/// spell, for a symbol and at a time of the exchange.
pub open spec fn tells_of(
    told: Published,
    symbol: Seq<char>,
    ev: FeedKind,
    exch_ts: int,
    px: Seq<char>,
    qty: Seq<char>,
) -> bool {
    match told {
        Published::Feed(s, e) => {
            &&& s == symbol
            &&& e.ev == ev
            &&& e.exch_ts == exch_ts
            &&& e.px is Some
            &&& Some(e.px->0 as int) == decimal_value(px)
            &&& Some(e.qty as int) == decimal_value(qty)
            &&& e.order_id == 0
            &&& e.ival == 0
            &&& e.fval == 0
        },
        _ => false,
    }
}

/// The levels of a side are told one by one, in their order: the event at a place tells of the price
/// and of the quantity of the level at that place, and of no other level.
pub proof fn law_levels_are_told_one_by_one(
    symbol: Seq<char>,
    ev: FeedKind,
    exch_ts: i64,
    levels: Seq<(String, String)>,
    i: int,
)
    requires
        are_levels(levels),
        0 <= i < levels.len(),
    ensures
        side_feed(symbol, ev, exch_ts as int, levels).len() == levels.len(),
        ({
            let told = side_feed(symbol, ev, exch_ts as int, levels)[i];
            &&& told is Feed
            &&& told->Feed_0 == symbol
            &&& told->Feed_1.ev == ev
            &&& told->Feed_1.exch_ts == exch_ts
            &&& told->Feed_1.px is Some
            &&& decimal_value(levels[i].0@) == Some(told->Feed_1.px->0 as int)
            &&& decimal_value(levels[i].1@) == Some(told->Feed_1.qty as int)
        }),
{
    assert(is_level(levels[i]));
}

/// Two levels are told at the same price just where their prices are the same, and at the same
/// quantity just where their quantities are, wherever they stand and whatever stands around them.
pub proof fn law_different_levels_are_told_apart(
    symbol: Seq<char>,
    ev: FeedKind,
    exch_ts: i64,
    a: Seq<(String, String)>,
    i: int,
    b: Seq<(String, String)>,
    j: int,
)
    requires
        are_levels(a),
        are_levels(b),
        0 <= i < a.len(),
        0 <= j < b.len(),
    ensures
        ({
            let one = side_feed(symbol, ev, exch_ts as int, a)[i]->Feed_1;
            let other = side_feed(symbol, ev, exch_ts as int, b)[j]->Feed_1;
            &&& one.px == other.px <==> decimal_value(a[i].0@) == decimal_value(b[j].0@)
            &&& one.qty == other.qty <==> decimal_value(a[i].1@) == decimal_value(b[j].1@)
        }),
{
    law_levels_are_told_one_by_one(symbol, ev, exch_ts, a, i);
    law_levels_are_told_one_by_one(symbol, ev, exch_ts, b, j);
}

/// The batch of a book tells of every level of both sides once: first the bids, in their order, as
/// bids, after them the asks, in their order, as asks, between the start of a batch and its end.
/// Where a price or a quantity of either side is no decimal, nothing is told.
pub proof fn law_batch_tells_of_every_level(
    symbol: Seq<char>,
    bids: Seq<(String, String)>,
    asks: Seq<(String, String)>,
    exch_ts: i64,
)
    ensures
        ({
            let told = depth_feed(symbol, bids, asks, exch_ts as int);
            are_levels(bids) && are_levels(asks) ==> {
                &&& told.len() == bids.len() + asks.len() + 2
                &&& told[0] == Published::BatchStart(0)
                &&& told[told.len() - 1] == Published::BatchEnd(0)
                &&& forall|i: int|
                    #![trigger bids[i]]
                    0 <= i < bids.len() ==> tells_of(
                        told[1 + i],
                        symbol,
                        FeedKind::BidDepth,
                        exch_ts as int,
                        bids[i].0@,
                        bids[i].1@,
                    )
                &&& forall|i: int|
                    #![trigger asks[i]]
                    0 <= i < asks.len() ==> tells_of(
                        told[1 + bids.len() + i],
                        symbol,
                        FeedKind::AskDepth,
                        exch_ts as int,
                        asks[i].0@,
                        asks[i].1@,
                    )
            }
        }),
        forall|i: int|
            0 <= i < bids.len() && (decimal_value((#[trigger] bids[i]).0@) is None
                || decimal_value(bids[i].1@) is None) ==> depth_feed(
                symbol,
                bids,
                asks,
                exch_ts as int,
            ).len() == 0,
        forall|i: int|
            0 <= i < asks.len() && (decimal_value((#[trigger] asks[i]).0@) is None
                || decimal_value(asks[i].1@) is None) ==> depth_feed(
                symbol,
                bids,
                asks,
                exch_ts as int,
            ).len() == 0,
{
    let told = depth_feed(symbol, bids, asks, exch_ts as int);
    if are_levels(bids) && are_levels(asks) {
        assert forall|i: int| #![trigger bids[i]] 0 <= i < bids.len() implies tells_of(
            told[1 + i],
            symbol,
            FeedKind::BidDepth,
            exch_ts as int,
            bids[i].0@,
            bids[i].1@,
        ) by {
            assert(is_level(bids[i]));
            assert(told[1 + i] == side_feed(symbol, FeedKind::BidDepth, exch_ts as int, bids)[i]);
        }
        assert forall|i: int| #![trigger asks[i]] 0 <= i < asks.len() implies tells_of(
            told[1 + bids.len() + i],
            symbol,
            FeedKind::AskDepth,
            exch_ts as int,
            asks[i].0@,
            asks[i].1@,
        ) by {
            assert(is_level(asks[i]));
            assert(told[1 + bids.len() + i] == side_feed(
                symbol,
                FeedKind::AskDepth,
                exch_ts as int,
                asks,
            )[i]);
        }
    }
    assert forall|i: int|
        0 <= i < bids.len() && (decimal_value((#[trigger] bids[i]).0@) is None || decimal_value(
            bids[i].1@,
        ) is None) implies depth_feed(symbol, bids, asks, exch_ts as int).len() == 0 by {
        assert(!is_level(bids[i]));
    }
    assert forall|i: int|
        0 <= i < asks.len() && (decimal_value((#[trigger] asks[i]).0@) is None || decimal_value(
            asks[i].1@,
        ) is None) implies depth_feed(symbol, bids, asks, exch_ts as int).len() == 0 by {
        assert(!is_level(asks[i]));
    }
}

/// A change that continues a complete book is told with all its levels, for its symbol and at its
/// time; the book is then complete up to its last update, and no snapshot is requested.
pub proof fn law_next_change_is_told_whole(v: MarketView, d: Depth)
    requires
        d.wf(),
        v.books.contains_key(d.symbol@),
        v.books[d.symbol@] is Synced,
        v.books[d.symbol@]->Synced_0 == d.first_update_id - 1,
        are_levels(d.bids@),
        are_levels(d.asks@),
    ensures
        ({
            let told = v.diff_told(d);
            let ns = d.event_time * 1_000_000;
            &&& told.len() == d.bids@.len() + d.asks@.len() + 2
            &&& told[0] is BatchStart
            &&& told[told.len() - 1] is BatchEnd
            &&& forall|i: int|
                #![trigger d.bids@[i]]
                0 <= i < d.bids@.len() ==> tells_of(
                    told[1 + i],
                    d.symbol@,
                    FeedKind::BidDepth,
                    ns,
                    d.bids@[i].0@,
                    d.bids@[i].1@,
                )
            &&& forall|i: int|
                #![trigger d.asks@[i]]
                0 <= i < d.asks@.len() ==> tells_of(
                    told[1 + d.bids@.len() + i],
                    d.symbol@,
                    FeedKind::AskDepth,
                    ns,
                    d.asks@[i].0@,
                    d.asks@[i].1@,
                )
        }),
        v.after_diff(d).books.contains_key(d.symbol@),
        v.after_diff(d).books[d.symbol@] is Synced,
        v.after_diff(d).books[d.symbol@]->Synced_0 == d.last_update_id,
        v.after_diff(d).resyncs == v.resyncs,
        !v.diff_requests(d),
{
    law_batch_tells_of_every_level(
        d.symbol@,
        d.bids@,
        d.asks@,
        (d.event_time * 1_000_000) as i64,
    );
}

/// A change that arrives while a snapshot is on its way is kept behind those that arrived before it:
/// it is not told, and no other snapshot is requested.
pub proof fn law_changes_wait_for_the_snapshot(v: MarketView, d: Depth, i: int)
    requires
        v.books.contains_key(d.symbol@),
        v.books[d.symbol@] is Awaiting,
    ensures
        v.diff_told(d).len() == 0,
        !v.diff_requests(d),
        v.after_diff(d).resyncs == v.resyncs,
        v.after_diff(d).books[d.symbol@] is Awaiting,
        ({
            let before = v.books[d.symbol@]->Awaiting_0;
            let after = v.after_diff(d).books[d.symbol@]->Awaiting_0;
            &&& after.len() == before.len() + 1
            &&& after[before.len() as int] == d
            &&& 0 <= i < before.len() ==> after[i] == before[i]
        }),
{
}

/// A change that does not continue a complete book, and the first change of a book, are not told:
/// each is kept as the first change after a snapshot that is then requested.
pub proof fn law_gap_starts_the_book_anew(v: MarketView, d: Depth)
    requires
        v.books.contains_key(d.symbol@) ==> v.books[d.symbol@] is Synced
            && v.books[d.symbol@]->Synced_0 != d.first_update_id - 1,
    ensures
        v.diff_told(d).len() == 0,
        v.diff_requests(d),
        v.after_diff(d).books.contains_key(d.symbol@),
        v.after_diff(d).books[d.symbol@] is Awaiting,
        v.after_diff(d).books[d.symbol@]->Awaiting_0.len() == 1,
        v.after_diff(d).books[d.symbol@]->Awaiting_0[0] == d,
        !v.books.contains_key(d.symbol@) ==> v.after_diff(d).resyncs == v.resyncs,
{
}

/// The count of a book that starts anew goes up by one, as far as the count goes, and the counts of
/// the others stay.
pub proof fn law_count_goes_up_by_one(v: MarketView, symbol: Seq<char>, other: Seq<char>)
    ensures
        v.resyncs.contains_key(symbol) ==> v.resyncs_of(symbol) == v.resyncs[symbol],
        !v.resyncs.contains_key(symbol) ==> v.resyncs_of(symbol) == 0,
        v.counted(symbol).contains_key(symbol),
        v.resyncs_of(symbol) < u64::MAX ==> v.counted(symbol)[symbol] == v.resyncs_of(symbol) + 1,
        v.resyncs_of(symbol) == u64::MAX ==> v.counted(symbol)[symbol] == u64::MAX,
        other != symbol ==> v.counted(symbol).contains_key(other) == v.resyncs.contains_key(other),
        other != symbol && v.resyncs.contains_key(other) ==> v.counted(symbol)[other]
            == v.resyncs[other],
{
}

/// Of the changes kept, those that a snapshot covers are left out and the others stay, in their
/// order: a change survives just where its last update comes after the snapshot.
pub proof fn law_covered_changes_are_left_out(a: Seq<Depth>, b: Seq<Depth>, d: Depth, snap: i64)
    ensures
        survivors(a + b, snap) == survivors(a, snap) + survivors(b, snap),
        d.last_update_id > snap ==> survivors(seq![d], snap) == seq![d],
        d.last_update_id <= snap ==> survivors(seq![d], snap).len() == 0,
        survivors(a, snap).contains(d) <==> a.contains(d) && d.last_update_id > snap,
{
    let pred = |d: Depth| d.last_update_id > snap;
    Seq::filter_distributes_over_add(a, b, pred);
    reveal(Seq::filter);
    assert(seq![d].drop_last() =~= seq![]);
    assert(seq![d].last() == d);
    assert(Seq::<Depth>::empty().filter(pred) =~= seq![]);
    if d.last_update_id > snap {
        assert(survivors(seq![d], snap) =~= seq![d]);
    }
    if survivors(a, snap).contains(d) {
        let i = choose|i: int| 0 <= i < survivors(a, snap).len() && survivors(a, snap)[i] == d;
        lemma_survivor(a, snap, i);
    }
    if a.contains(d) && d.last_update_id > snap {
        let i = choose|i: int| 0 <= i < a.len() && a[i] == d;
        lemma_survivors_next(a, snap, i);
        let part = survivors(a.take(i + 1), snap);
        assert(part[part.len() - 1] == d);
        assert(survivors(a, snap)[part.len() - 1] == d);
    }
}

/// Of the changes that follow a snapshot, those up to the first gap are told, and all of them just
/// where there is no gap: the first must span the first update after the snapshot, and each other
/// must begin with the update after the last one of the change before it.
pub proof fn law_replay_ends_at_the_first_gap(snap: i64, diffs: Seq<Depth>)
    ensures
        ({
            let n = fitting(snap, diffs, 0);
            &&& 0 <= n <= diffs.len()
            &&& n > 0 ==> diffs[0].first_update_id <= snap + 1 && snap < diffs[0].last_update_id
            &&& forall|i: int|
                #![trigger diffs[i]]
                0 < i < n ==> diffs[i].first_update_id - 1 == diffs[i - 1].last_update_id
            &&& n == 0 && diffs.len() > 0 ==> diffs[0].first_update_id > snap + 1
                || diffs[0].last_update_id <= snap
            &&& 0 < n < diffs.len() ==> diffs[n].first_update_id != diffs[n - 1].last_update_id + 1
        }),
{
    lemma_fitting_fits(snap, diffs, 0);
    lemma_fitting_ends(snap, diffs, 0);
    let n = fitting(snap, diffs, 0);
    if n > 0 {
        assert(fits(snap, diffs, 0));
    }
    assert forall|i: int| #![trigger diffs[i]] 0 < i < n implies diffs[i].first_update_id - 1
        == diffs[i - 1].last_update_id by {
        assert(fits(snap, diffs, i));
    }
}

/// The change at `fitting` does not fit.
proof fn lemma_fitting_ends(snap: i64, diffs: Seq<Depth>, i: int)
    requires
        0 <= i <= diffs.len(),
    ensures
        fitting(snap, diffs, i) == diffs.len() || !fits(snap, diffs, fitting(snap, diffs, i)),
    decreases diffs.len() - i,
{
    if i < diffs.len() && fits(snap, diffs, i) {
        lemma_fitting_ends(snap, diffs, i + 1);
    }
}

/// Changes are told one after the other, each as the batch of its own levels at its own time: what
/// is told of two lists of changes is what is told of the first and then of the second.
pub proof fn law_changes_are_told_in_order(symbol: Seq<char>, a: Seq<Depth>, b: Seq<Depth>, d: Depth)
    ensures
        replay_feed(symbol, a + b) == replay_feed(symbol, a) + replay_feed(symbol, b),
        replay_feed(symbol, seq![d]) == depth_feed(
            symbol,
            d.bids@,
            d.asks@,
            d.event_time * 1_000_000,
        ),
        replay_feed(symbol, seq![]).len() == 0,
    decreases b.len(),
{
    reveal_with_fuel(replay_feed, 2);
    assert(seq![d].drop_last() =~= seq![]);
    assert(seq![d].last() == d);
    assert(replay_feed(symbol, seq![d]) =~= depth_feed(
        symbol,
        d.bids@,
        d.asks@,
        d.event_time * 1_000_000,
    ));
    if b.len() == 0 {
        assert(a + b =~= a);
        assert(replay_feed(symbol, a + b) =~= replay_feed(symbol, a) + replay_feed(symbol, b));
    } else {
        law_changes_are_told_in_order(symbol, a, b.drop_last(), d);
        assert((a + b).drop_last() =~= a + b.drop_last());
        assert((a + b).last() == b.last());
        assert(replay_feed(symbol, a + b) =~= replay_feed(symbol, a) + replay_feed(symbol, b));
    }
}

/// A snapshot that is awaited is told in one order: both sides are cleared at its time, then come
/// the levels of the snapshot at its time, then the changes that it does not cover up to the first
/// gap. Where there is no gap the book is complete up to the last change, or up to the snapshot if
/// none follows it; where there is one, the book waits for another snapshot, keeps no change, and is
/// counted.
pub proof fn law_snapshot_sets_the_book(v: MarketView, symbol: Seq<char>, data: rest::Depth, now: i64)
    requires
        v.books.contains_key(symbol),
        v.books[symbol] is Awaiting,
    ensures
        ({
            let snap = data.last_update_id;
            let diffs = survivors(v.books[symbol]->Awaiting_0, snap);
            let n = fitting(snap, diffs, 0);
            let told = v.snapshot_told(symbol, data, now);
            let levels = depth_feed(symbol, data.bids@, data.asks@, now as int);
            let after = v.after_snapshot(symbol, snap);
            &&& told.take(2) == clear_feed(symbol, now as int)
            &&& told.subrange(2, levels.len() + 2int) == levels
            &&& told.skip(levels.len() + 2int) == replay_feed(symbol, diffs.take(n))
            &&& after.books.contains_key(symbol)
            &&& n == diffs.len() <==> after.books[symbol] is Synced
            &&& n == diffs.len() <==> !v.snapshot_requests(symbol, snap)
            &&& n == diffs.len() && n == 0 ==> after.books[symbol]->Synced_0 == snap
            &&& n == diffs.len() && n > 0 ==> after.books[symbol]->Synced_0
                == diffs[n - 1].last_update_id
            &&& n == diffs.len() ==> after.resyncs == v.resyncs
            &&& n != diffs.len() ==> after.books[symbol]->Awaiting_0.len() == 0
            &&& n != diffs.len() ==> after.resyncs == v.counted(symbol)
        }),
{
    let snap = data.last_update_id;
    let diffs = survivors(v.books[symbol]->Awaiting_0, snap);
    let n = fitting(snap, diffs, 0);
    let told = v.snapshot_told(symbol, data, now);
    let levels = depth_feed(symbol, data.bids@, data.asks@, now as int);
    assert(told.take(2) =~= clear_feed(symbol, now as int));
    assert(told.subrange(2, levels.len() + 2int) =~= levels);
    assert(told.skip(levels.len() + 2int) =~= replay_feed(symbol, diffs.take(n)));
}

/// A snapshot that is not awaited is not told and changes nothing.
pub proof fn law_stray_snapshot_is_ignored(v: MarketView, symbol: Seq<char>, data: rest::Depth, now: i64)
    requires
        v.books.contains_key(symbol) ==> v.books[symbol] is Synced,
    ensures
        v.snapshot_told(symbol, data, now).len() == 0,
        v.after_snapshot(symbol, data.last_update_id) == v,
        !v.snapshot_requests(symbol, data.last_update_id),
{
}

/// A book is cleared by one event for each side, the bids first, which carry its symbol and the time
/// of the exchange, and neither a price nor a quantity.
pub proof fn law_both_sides_are_cleared(symbol: Seq<char>, exch_ts: i64)
    ensures
        ({
            let told = clear_feed(symbol, exch_ts as int);
            &&& told.len() == 2
            &&& told[0] is Feed
            &&& told[1] is Feed
            &&& told[0]->Feed_1.ev is BidDepthClear
            &&& told[1]->Feed_1.ev is AskDepthClear
            &&& forall|i: int|
                0 <= i < 2 ==> {
                    &&& (#[trigger] told[i])->Feed_0 == symbol
                    &&& told[i]->Feed_1.exch_ts == exch_ts
                    &&& told[i]->Feed_1.px is None
                    &&& told[i]->Feed_1.qty == 0
                }
        }),
{
}

/// A trade is told once, at its time, price and quantity, for its symbol: as a sale where the buyer
/// made the market, as a purchase where the seller did. A trade that is to be ignored, or one whose
/// numbers are no decimals, is not told.
pub proof fn law_trade_is_told_by_its_taker(t: Trade)
    requires
        t.wf(),
    ensures
        ({
            let told = trade_feed(t);
            let good = decimal_value(t.price@) is Some && decimal_value(t.quantity@) is Some;
            &&& told.len() == if good && !t.ignore {
                1int
            } else {
                0
            }
            &&& good && !t.ignore && t.is_market_maker ==> tells_of(
                told[0],
                t.symbol@,
                FeedKind::SellTrade,
                t.event_time * 1_000_000,
                t.price@,
                t.quantity@,
            )
            &&& good && !t.ignore && !t.is_market_maker ==> tells_of(
                told[0],
                t.symbol@,
                FeedKind::BuyTrade,
                t.event_time * 1_000_000,
                t.price@,
                t.quantity@,
            )
        }),
{
}

/// The best bid and ask are told in one batch, the bid as the bid and the ask as the ask, each with
/// its own price and its own quantity, both at the time of the reading. Where one of the four numbers
/// is no decimal, nothing is told.
pub proof fn law_best_bid_and_ask_are_told_together(t: BookTicker, now: i64)
    ensures
        ({
            let told = ticker_feed(t, now);
            let good = decimal_value(t.best_bid@) is Some && decimal_value(t.best_bid_qty@) is Some
                && decimal_value(t.best_ask@) is Some && decimal_value(t.best_ask_qty@) is Some;
            &&& !good ==> told.len() == 0
            &&& good ==> {
                &&& told.len() == 4
                &&& told[0] == Published::BatchStart(0)
                &&& tells_of(
                    told[1],
                    t.symbol@,
                    FeedKind::BidDepthBbo,
                    now as int,
                    t.best_bid@,
                    t.best_bid_qty@,
                )
                &&& tells_of(
                    told[2],
                    t.symbol@,
                    FeedKind::AskDepthBbo,
                    now as int,
                    t.best_ask@,
                    t.best_ask_qty@,
                )
                &&& told[1]->Feed_1.local_ts == now
                &&& told[2]->Feed_1.local_ts == now
                &&& told[3] == Published::BatchEnd(0)
            }
        }),
{
}

/// Stamping events changes nothing but their local times, and neither adds, drops nor moves one: the
/// event at a place gets the reading of its own place, and the last reading where there is none.
pub proof fn law_every_event_has_its_own_time(feed: Seq<Published>, times: Seq<i64>, from: int, i: int)
    requires
        times.len() > 0,
        0 <= from,
        0 <= i < feed.len(),
    ensures
        stamped(feed, times, from).len() == feed.len(),
        ({
            let told = stamped(feed, times, from)[i];
            &&& !(feed[i] is Feed) ==> told == feed[i]
            &&& feed[i] is Feed ==> {
                let a = feed[i]->Feed_1;
                let b = told->Feed_1;
                &&& told is Feed
                &&& told->Feed_0 == feed[i]->Feed_0
                &&& a.ev == b.ev
                &&& a.exch_ts == b.exch_ts
                &&& a.order_id == b.order_id
                &&& a.px == b.px
                &&& a.qty == b.qty
                &&& a.ival == b.ival
                &&& a.fval == b.fval
                &&& from + i < times.len() ==> b.local_ts == times[from + i]
                &&& from + i >= times.len() ==> b.local_ts == times[times.len() - 1]
            }
        }),
{
}

/// A trade and the best bid and ask leave every book as it is, and make no snapshot be requested. A
/// frame that no subscription asks for does nothing.
pub proof fn law_only_changes_touch_the_books(
    before: MarketView,
    frame: MarketStream,
    after: MarketView,
    r: MarketAction,
)
    requires
        framed(before, frame, after, r),
    ensures
        !(frame is EventStream && frame->EventStream_0 is DepthUpdate) ==> after == before,
        r is Continue && r->Continue_0.snapshot is Some ==> frame is EventStream
            && frame->EventStream_0 is DepthUpdate,
        r is Unexpected <==> frame is EventStream && !(frame->EventStream_0 is DepthUpdate)
            && !(frame->EventStream_0 is Trade),
        r is Unexpected || r is Continue,
        frame is Result ==> r->Continue_0.events@.len() == 0,
{
}

/// A change is told just where it continues a complete book: then its batch, stamped, is all that is
/// published. A snapshot is requested of the symbol of the change, and of no other.
pub proof fn law_change_is_told_or_a_snapshot_requested(
    before: MarketView,
    d: Depth,
    times: Seq<i64>,
    after: MarketView,
    r: MarketStep,
)
    requires
        processed(before, MarketEventStream::DepthUpdate(d), times, after, r),
    ensures
        before.continues(d) ==> published(r.events@) == stamped(diff_feed(d), times, 0),
        !before.continues(d) ==> r.events@.len() == 0,
        r.snapshot is Some ==> r.snapshot->0@ == d.symbol@,
        r.snapshot is Some <==> !before.awaits(d.symbol@) && !before.continues(d),
        after.books.contains_key(d.symbol@),
        after.awaits(d.symbol@) <==> !before.continues(d),
{
    assert(published(r.events@).len() == r.events@.len());
}

/// A request to subscribe names, between quotes, the trades, the book changes and the best bid and
/// ask of its symbol, and its own identifier, whatever the margin.
pub proof fn law_subscription_names_its_streams(symbol: Seq<char>, id: Seq<char>, margin: Seq<char>)
    ensures
        ({
            let text = subscribe_chars(symbol, id, margin);
            &&& holds(text, "\"method\": \"SUBSCRIBE\""@)
            &&& holds(text, "\""@ + symbol + "@trade\""@)
            &&& holds(text, "\""@ + symbol + "@depth@100ms\""@)
            &&& holds(text, "\""@ + symbol + "@bookTicker\""@)
            &&& holds(text, "\"id\": \""@ + id + "\""@)
        }),
{
    let t0 = "{\n"@ + margin;
    let t1 = t0 + "    \"method\": \"SUBSCRIBE\",\n"@;
    let t2 = t1 + margin + "    \"params\": [\n"@ + margin;
    let t3 = t2 + "        \""@ + symbol + "@trade\",\n"@;
    let t4 = t3 + margin + "        \""@ + symbol + "@depth@100ms\",\n"@;
    let t5 = t4 + margin + "        \""@ + symbol + "@bookTicker\"\n"@;
    let t6 = t5 + margin + "    ],\n"@ + margin;
    let t7 = t6 + "    \"id\": \""@ + id + "\"\n"@;
    assert(subscribe_chars(symbol, id, margin) == t7 + margin + "}"@);
    let quote = "\""@;
    assert(holds(t1, "\"method\": \"SUBSCRIBE\""@)) by {
        reveal_strlit("    \"method\": \"SUBSCRIBE\",\n");
        reveal_strlit("\"method\": \"SUBSCRIBE\"");
        let part = "\"method\": \"SUBSCRIBE\""@;
        let line = "    \"method\": \"SUBSCRIBE\",\n"@;
        assert(line.subrange(4, 4int + part.len()) =~= part);
        lemma_holds_within(t0, line, "\"method\": \"SUBSCRIBE\""@);
    }
    assert("        \""@.len() > 0 && "        \""@.last() == '"') by {
        reveal_strlit("        \"");
    }
    assert(quote =~= seq!['"']) by {
        reveal_strlit("\"");
    }
    assert(holds(t3, quote + symbol + "@trade\""@)) by {
        reveal_strlit("@trade\",\n");
        reveal_strlit("@trade\"");
        assert("@trade\""@ =~= "@trade\",\n"@.take(7));
        lemma_holds_quoted(t2, "        \""@, symbol, "@trade\",\n"@, 7);
    }
    assert(holds(t4, quote + symbol + "@depth@100ms\""@)) by {
        reveal_strlit("@depth@100ms\",\n");
        reveal_strlit("@depth@100ms\"");
        assert("@depth@100ms\""@ =~= "@depth@100ms\",\n"@.take(13));
        lemma_holds_quoted(t3 + margin, "        \""@, symbol, "@depth@100ms\",\n"@, 13);
    }
    assert(holds(t5, quote + symbol + "@bookTicker\""@)) by {
        reveal_strlit("@bookTicker\"\n");
        reveal_strlit("@bookTicker\"");
        assert("@bookTicker\""@ =~= "@bookTicker\"\n"@.take(12));
        lemma_holds_quoted(t4 + margin, "        \""@, symbol, "@bookTicker\"\n"@, 12);
    }
    assert(holds(t7, "\"id\": \""@ + id + quote)) by {
        reveal_strlit("    \"id\": \"");
        reveal_strlit("\"id\": \"");
        reveal_strlit("\"\n");
        let part = "\"id\": \""@ + id + quote;
        let line = "    \"id\": \""@ + id + "\"\n"@;
        assert(line.subrange(4, 4int + part.len()) =~= part);
        lemma_holds_within(t6, line, part);
        assert(t6 + line =~= t7);
    }
    assert forall|a: Seq<char>, b: Seq<char>, part: Seq<char>| holds(a, part) implies
        #[trigger] holds(a + b, part) by {
        lemma_holds_more(a, b, part);
    }
}

/// A text whose last line quotes a name and what follows it holds both between the quotes.
proof fn lemma_holds_quoted(a: Seq<char>, open: Seq<char>, name: Seq<char>, close: Seq<char>, n: int)
    requires
        open.len() > 0,
        open.last() == '"',
        0 <= n <= close.len(),
    ensures
        holds(a + open + name + close, seq!['"'] + name + close.take(n)),
{
    let text = a + open + name + close;
    let part = seq!['"'] + name + close.take(n);
    let i = a.len() + open.len() - 1;
    assert(text.subrange(i, i + part.len()) =~= part);
}

/// A connection that the other side closed ends with the reason that was given, or with none.
pub proof fn law_closing_gives_its_reason(frame: Option<String>, e: BinanceSpotError)
    requires
        closed_error(frame, e),
    ensures
        e is ConnectionAbort,
        frame is Some ==> e->ConnectionAbort_0@ == frame->0@,
        frame is None ==> e->ConnectionAbort_0@.len() == 0,
{
    reveal_strlit("");
}

/// A connection ends with an error only where no ping came for more than five minutes, where the
/// other side closed it, where the socket failed or where it ended, and ends without one only where
/// no more symbols will be registered. It answers pings and sends nothing but subscriptions. The books
/// change by nothing but snapshots and frames.
pub proof fn law_connection_ends_for_a_reason(
    before: MarketView,
    input: MarketInput,
    after: MarketView,
    r: MarketAction,
)
    requires
        stepped(before, input, after, r),
    ensures
        r is Fail <==> {
            ||| input is Tick && input->Tick_0 > 300_000_000_000
            ||| input is Socket && {
                ||| input->Socket_0 is Close
                ||| input->Socket_0 is Failed
                ||| input->Socket_0 is Ended
            }
        },
        r is Fail && input is Socket && input->Socket_0 is Failed ==> r->Fail_0
            == input->Socket_0->Failed_0,
        r is Fail && input is Socket && input->Socket_0 is Close ==> r->Fail_0 is ConnectionAbort,
        r is Fail && (input is Tick || input->Socket_0 is Ended)
            ==> r->Fail_0 is ConnectionInterrupted,
        r is Finish <==> input is Closed,
        r is Pong <==> input is Socket && input->Socket_0 is Ping,
        r is Send <==> input is Registered,
        after != before ==> input is Snapshot || (input is Socket && input->Socket_0 is Text),
        input is Tick || input is Missed ==> r is Fail || (r->Continue_0.events@.len() == 0
            && r->Continue_0.snapshot is None),
{
}

/// A symbol that was registered is subscribed to by that symbol and under the identifier drawn for
/// it.
pub proof fn law_registered_symbol_is_subscribed(
    before: MarketView,
    symbol: String,
    id: String,
    after: MarketView,
    r: MarketAction,
)
    requires
        stepped(before, MarketInput::Registered(symbol, id), after, r),
    ensures
        after == before,
        r is Send,
        holds(r->Send_0@, "\""@ + symbol@ + "@trade\""@),
        holds(r->Send_0@, "\""@ + symbol@ + "@depth@100ms\""@),
        holds(r->Send_0@, "\""@ + symbol@ + "@bookTicker\""@),
        holds(r->Send_0@, "\"id\": \""@ + id@ + "\""@),
{
    law_subscription_names_its_streams(symbol@, id@, LATER_MARGIN@);
}

/// A new connection subscribes to every symbol, in their order, each under its own identifier.
pub proof fn law_every_symbol_is_resubscribed(
    symbols: Seq<Seq<char>>,
    ids: Seq<Seq<char>>,
    out: Seq<Seq<char>>,
    i: int,
)
    requires
        resubscribes(symbols, ids, out),
        0 <= i < symbols.len(),
    ensures
        out.len() == symbols.len(),
        holds(out[i], "\""@ + symbols[i] + "@trade\""@),
        holds(out[i], "\""@ + symbols[i] + "@depth@100ms\""@),
        holds(out[i], "\""@ + symbols[i] + "@bookTicker\""@),
        holds(out[i], "\"id\": \""@ + ids[i] + "\""@),
{
    assert(out[i] == subscribe_chars(symbols[i], ids[i], OPENING_MARGIN@));
    law_subscription_names_its_streams(symbols[i], ids[i], OPENING_MARGIN@);
}

/// Levels are told only where each of them spells two decimals.
pub proof fn law_levels_are_pairs_of_decimals(v: Seq<(String, String)>)
    ensures
        are_levels(v) <==> forall|i: int|
            0 <= i < v.len() ==> decimal_value((#[trigger] v[i]).0@) is Some && decimal_value(
                v[i].1@,
            ) is Some,
{
    if are_levels(v) {
        assert forall|i: int| 0 <= i < v.len() implies decimal_value((#[trigger] v[i]).0@) is Some
            && decimal_value(v[i].1@) is Some by {
            assert(is_level(v[i]));
        }
    }
    if forall|i: int|
        0 <= i < v.len() ==> decimal_value((#[trigger] v[i]).0@) is Some && decimal_value(
            v[i].1@,
        ) is Some {
        assert forall|i: int| 0 <= i < v.len() implies is_level(#[trigger] v[i]) by {
            assert(decimal_value(v[i].0@) is Some);
        }
    }
}

/// A trade is published as the one event that tells of it, with the first reading as its local time;
/// the books stay as they are.
pub proof fn law_trade_is_published_once(
    before: MarketView,
    t: Trade,
    times: Seq<i64>,
    after: MarketView,
    r: MarketStep,
)
    requires
        t.wf(),
        times.len() > 0,
        processed(before, MarketEventStream::Trade(t), times, after, r),
    ensures
        after == before,
        r.snapshot is None,
        t.ignore || decimal_value(t.price@) is None || decimal_value(t.quantity@) is None
            <==> r.events@.len() == 0,
        r.events@.len() > 0 ==> {
            let told = r.events@[0]@;
            &&& r.events@.len() == 1
            &&& tells_of(
                told,
                t.symbol@,
                if t.is_market_maker {
                    FeedKind::SellTrade
                } else {
                    FeedKind::BuyTrade
                },
                t.event_time * 1_000_000,
                t.price@,
                t.quantity@,
            )
            &&& told->Feed_1.local_ts == times[0]
        },
{
    let told = published(r.events@);
    assert(told.len() == r.events@.len());
    if r.events@.len() > 0 {
        assert(told[0] == r.events@[0]@);
        law_every_event_has_its_own_time(trade_feed(t), times, 0, 0);
    }
}

/// What is published of a snapshot begins, where it is awaited, with the events that clear the bids
/// and the asks of its symbol at its time, and is nothing where it is not.
pub proof fn law_snapshot_is_published_from_the_clearing_on(
    before: MarketView,
    symbol: Seq<char>,
    data: rest::Depth,
    now: i64,
    times: Seq<i64>,
    events: Seq<PublishEvent>,
)
    requires
        times.len() > 0,
        snapshot_events(before, symbol, data, now, times, events),
    ensures
        !before.awaits(symbol) ==> events.len() == 0,
        before.awaits(symbol) ==> {
            let told = before.snapshot_told(symbol, data, now);
            &&& events.len() == told.len()
            &&& events.len() >= 2
            &&& events[0]@ is Feed
            &&& events[0]@->Feed_0 == symbol
            &&& events[0]@->Feed_1.ev is BidDepthClear
            &&& events[0]@->Feed_1.exch_ts == now
            &&& events[1]@ is Feed
            &&& events[1]@->Feed_0 == symbol
            &&& events[1]@->Feed_1.ev is AskDepthClear
            &&& events[1]@->Feed_1.exch_ts == now
            &&& forall|i: int|
                0 <= i < events.len() && told[i] is Feed ==> {
                    &&& (#[trigger] events[i])@->Feed_1.px == told[i]->Feed_1.px
                    &&& events[i]@->Feed_1.qty == told[i]->Feed_1.qty
                    &&& events[i]@->Feed_1.ev == told[i]->Feed_1.ev
                    &&& events[i]@->Feed_1.local_ts == reading(times, i)
                }
        },
{
    let told = before.snapshot_told(symbol, data, now);
    let out = published(events);
    assert(out.len() == events.len());
    assert forall|i: int| 0 <= i < events.len() implies (#[trigger] events[i])@ == stamp(
        told[i],
        reading(times, i),
    ) by {
        assert(out[i] == events[i]@);
    }
    if before.awaits(symbol) {
        law_snapshot_clears_the_book_first(before, symbol, data, now);
        assert(told[0] == told.take(2)[0]);
        assert(told[1] == told.take(2)[1]);
    }
}

} // verus!
