use connector::binancespot::market_data_stream::{
    process_book_ticker, process_book_ticker_at, process_trade_at, resubscribe_messages,
    subscribe_message, MarketAction, MarketDataStream, MarketInput, MarketStep, LATER_MARGIN,
    OPENING_MARGIN,
};
use connector::binancespot::msg::from_text;
use connector::binancespot::msg::rest;
use connector::binancespot::msg::rest::AccountInfomation;
use connector::binancespot::msg::stream::{BookTicker, Depth, MarketEventStream, Trade};
use connector::binancespot::msg::wsapi::WsApiOrderResult;
use connector::binancespot::ordermanager::OrderManager;
use connector::binancespot::socket::SocketEvent;
use connector::binancespot::user_data_stream::{
    cancel_all, cancel_all_at, get_position_information, logon_message, logon_payload, reconcile_done,
    spawn_reconcile, sweep_count, sweep_report, UserAction, UserDataStream,
};
use connector::binancespot::wsapi::{ws_api_response_id, WsApiCommand};
use connector::binancespot::BinanceSpotError;
use connector::json::Json;
use connector::table::TextSet;
use connector::types::{
    Event, FeedKind, LiveEvent, OrdType, Order, PublishEvent, Side, Status, TimeInForce,
};

const UNIT: i128 = 1_000_000_000_000;

fn diff(first: i64, last: i64) -> Depth {
    Depth {
        event_time: last * 10,
        symbol: "btc".to_string(),
        first_update_id: first,
        last_update_id: last,
        bids: vec![("1.5".to_string(), format!("{last}"))],
        asks: Vec::new(),
    }
}

fn snapshot(id: i64) -> rest::Depth {
    rest::Depth {
        last_update_id: id,
        bids: vec![("1".to_string(), "2".to_string())],
        asks: vec![("3".to_string(), "4".to_string())],
    }
}

fn feeds(events: &[PublishEvent]) -> Vec<Event> {
    let mut out: Vec<Event> = Vec::new();
    for e in events {
        if let PublishEvent::LiveEvent(LiveEvent::Feed { symbol, event }) = e {
            assert_eq!(symbol, "btc");
            out.push(*event);
        }
    }
    out
}

/// The last updates of the changes that were told.
fn told(step: &MarketStep) -> Vec<i128> {
    feeds(&step.events)
        .iter()
        .filter(|e| e.ev == FeedKind::BidDepth && e.px == Some(3 * UNIT / 2))
        .map(|e| e.qty / UNIT)
        .collect()
}

fn depth(stream: &mut MarketDataStream, first: i64, last: i64) -> MarketStep {
    stream.process_message(MarketEventStream::DepthUpdate(diff(first, last)))
}

#[test]
fn a_book_is_built_from_a_snapshot_and_the_changes_after_it() {
    let mut s = MarketDataStream::new();
    let step = depth(&mut s, 5, 6);
    assert_eq!(step.snapshot, Some("btc".to_string()));
    assert!(step.events.is_empty());
    for (first, last) in [(7, 10), (11, 12)] {
        let step = depth(&mut s, first, last);
        assert_eq!(step.snapshot, None);
        assert!(step.events.is_empty());
    }
    // The snapshot covers the first change and half of the second.
    let step = s.process_snapshot("btc".to_string(), snapshot(8));
    assert_eq!(step.snapshot, None);
    assert_eq!(told(&step), vec![10, 12]);
    let events = feeds(&step.events);
    assert_eq!(events[0].ev, FeedKind::BidDepthClear);
    assert_eq!(events[0].px, None);
    assert_eq!(events[1].ev, FeedKind::AskDepthClear);
    assert_eq!((events[2].ev, events[2].px, events[2].qty), (FeedKind::BidDepth, Some(UNIT), 2 * UNIT));
    assert_eq!((events[3].ev, events[3].px, events[3].qty), (FeedKind::AskDepth, Some(3 * UNIT), 4 * UNIT));
    // Changes carry the time of the exchange, the snapshot that of the system.
    assert_eq!(events[4].exch_ts, 100_000_000);
    assert_eq!(events[2].exch_ts, events[0].exch_ts);
    // From now on changes are told as they come.
    let step = depth(&mut s, 13, 15);
    assert_eq!(told(&step), vec![15]);
    assert!(matches!(step.events[0], PublishEvent::BatchStart(0)));
    assert!(matches!(step.events[2], PublishEvent::BatchEnd(0)));
    // A second snapshot is not awaited.
    let step = s.process_snapshot("btc".to_string(), snapshot(20));
    assert!(step.events.is_empty());
    assert_eq!(step.snapshot, None);
    assert_eq!(told(&depth(&mut s, 16, 16)), vec![16]);
}

#[test]
fn each_event_carries_a_reading_of_its_own() {
    let mut s = MarketDataStream::new();
    s.process_depth_at(diff(1, 3), &vec![7]);
    let times: Vec<i64> = (100..120).collect();
    let step = s.process_snapshot_at("btc".to_string(), snapshot(2), 8, &times);
    let events = feeds(&step.events);
    let local: Vec<i64> = events.iter().map(|e| e.local_ts).collect();
    // Two events that clear the book, a batch of two levels, a batch of one.
    assert_eq!(local, vec![100, 101, 103, 104, 107]);
    assert_eq!((events[0].exch_ts, events[3].exch_ts, events[4].exch_ts), (8, 8, 30_000_000));
    // The last reading stands for those that are missing.
    let mut d = diff(4, 4);
    d.asks.push(("2".to_string(), "1".to_string()));
    let step = s.process_message_at(MarketEventStream::DepthUpdate(d), &vec![5, 6]);
    let local: Vec<i64> = feeds(&step.events).iter().map(|e| e.local_ts).collect();
    assert_eq!(local, vec![6, 6]);
}

#[test]
fn the_clock_is_read_in_order() {
    let mut s = MarketDataStream::new();
    depth(&mut s, 1, 1);
    depth(&mut s, 2, 3);
    let before = chrono::Utc::now().timestamp_nanos_opt().unwrap();
    let step = s.process_snapshot("btc".to_string(), snapshot(1));
    let after = chrono::Utc::now().timestamp_nanos_opt().unwrap();
    let local: Vec<i64> = feeds(&step.events).iter().map(|e| e.local_ts).collect();
    assert_eq!(local.len(), 5);
    assert!(local.windows(2).all(|w| w[0] <= w[1]));
    assert!(before <= local[0] && local[4] <= after);
}

#[test]
fn a_gap_starts_the_book_anew() {
    let mut s = MarketDataStream::new();
    depth(&mut s, 1, 2);
    s.process_snapshot("btc".to_string(), snapshot(2));
    assert_eq!(told(&depth(&mut s, 3, 4)), vec![4]);
    let step = depth(&mut s, 6, 7);
    assert!(step.events.is_empty());
    assert_eq!(step.snapshot, Some("btc".to_string()));
    // Nothing is told until the snapshot comes.
    assert!(depth(&mut s, 8, 9).events.is_empty());
    let step = s.process_snapshot("btc".to_string(), snapshot(5));
    assert_eq!(told(&step), vec![7, 9]);
}

#[test]
fn a_snapshot_that_is_too_old_is_followed_by_another() {
    let mut s = MarketDataStream::new();
    depth(&mut s, 5, 6);
    let step = s.process_snapshot("btc".to_string(), snapshot(3));
    assert_eq!(step.snapshot, Some("btc".to_string()));
    assert!(told(&step).is_empty());
    // What was kept is gone; what comes next is kept.
    depth(&mut s, 7, 8);
    let step = s.process_snapshot("btc".to_string(), snapshot(6));
    assert_eq!(step.snapshot, None);
    assert_eq!(told(&step), vec![8]);
}

#[test]
fn a_gap_among_the_kept_changes_stops_the_replay() {
    let mut s = MarketDataStream::new();
    depth(&mut s, 1, 5);
    depth(&mut s, 6, 7);
    depth(&mut s, 9, 9);
    let step = s.process_snapshot("btc".to_string(), snapshot(3));
    assert_eq!(told(&step), vec![5, 7]);
    assert_eq!(step.snapshot, Some("btc".to_string()));
}

#[test]
fn a_book_at_the_end_of_the_numbers_has_no_next_change() {
    let mut s = MarketDataStream::new();
    depth(&mut s, 1, 1);
    let step = s.process_snapshot("btc".to_string(), snapshot(i64::MAX));
    assert_eq!(step.snapshot, None);
    assert!(depth(&mut s, i64::MIN, 3).snapshot.is_some());
}

#[test]
fn levels_that_are_no_decimals_are_not_told() {
    let mut s = MarketDataStream::new();
    depth(&mut s, 1, 1);
    s.process_snapshot("btc".to_string(), snapshot(1));
    let mut d = diff(2, 3);
    d.asks.push(("x".to_string(), "1".to_string()));
    let step = s.process_message(MarketEventStream::DepthUpdate(d));
    assert!(step.events.is_empty());
    assert_eq!(step.snapshot, None);
    assert_eq!(told(&depth(&mut s, 4, 4)), vec![4]);
}

#[test]
fn books_of_different_symbols_do_not_meet() {
    let mut s = MarketDataStream::new();
    depth(&mut s, 1, 1);
    s.process_snapshot("btc".to_string(), snapshot(1));
    let mut d = diff(9, 9);
    d.symbol = "eth".to_string();
    let step = s.process_message(MarketEventStream::DepthUpdate(d));
    assert_eq!(step.snapshot, Some("eth".to_string()));
    assert_eq!(told(&depth(&mut s, 2, 2)), vec![2]);
}

fn trade(price: &str, maker: bool, ignore: bool) -> Trade {
    Trade {
        event_time: 17,
        symbol: "btc".to_string(),
        trade_id: 1,
        price: price.to_string(),
        quantity: "0.5".to_string(),
        trade_time: 16,
        is_market_maker: maker,
        ignore,
    }
}

#[test]
fn trades_are_told_by_the_side_that_took() {
    let events = feeds(&process_trade_at(&trade("7", false, false), 99));
    assert_eq!(events[0].ev, FeedKind::BuyTrade);
    assert_eq!((events[0].exch_ts, events[0].local_ts), (17_000_000, 99));
    assert_eq!((events[0].px, events[0].qty), (Some(7 * UNIT), UNIT / 2));
    let events = feeds(&process_trade_at(&trade("7", true, false), 99));
    assert_eq!(events[0].ev, FeedKind::SellTrade);
    assert!(process_trade_at(&trade("7", true, true), 99).is_empty());
    assert!(process_trade_at(&trade("seven", true, false), 99).is_empty());
    let mut s = MarketDataStream::new();
    let step = s.process_message(MarketEventStream::Trade(trade("7", true, false)));
    assert_eq!(step.events.len(), 1);
    let now = chrono::Utc::now().timestamp_nanos_opt().unwrap();
    assert!((now - feeds(&step.events)[0].local_ts).abs() < 60_000_000_000);
}

fn ticker(bid: &str) -> BookTicker {
    BookTicker {
        update_id: 1,
        symbol: "btc".to_string(),
        best_bid: bid.to_string(),
        best_bid_qty: "2".to_string(),
        best_ask: "3".to_string(),
        best_ask_qty: "4".to_string(),
    }
}

#[test]
fn the_best_bid_and_ask_are_told_together_or_not_at_all() {
    let events = process_book_ticker_at(&ticker("1"), 99);
    assert!(matches!(events[0], PublishEvent::BatchStart(0)));
    assert!(matches!(events[3], PublishEvent::BatchEnd(0)));
    let told = feeds(&events);
    assert_eq!((told[0].ev, told[0].px, told[0].qty), (FeedKind::BidDepthBbo, Some(UNIT), 2 * UNIT));
    assert_eq!((told[1].ev, told[1].px, told[1].qty), (FeedKind::AskDepthBbo, Some(3 * UNIT), 4 * UNIT));
    assert_eq!((told[0].exch_ts, told[0].local_ts), (99, 99));
    assert!(process_book_ticker_at(&ticker(""), 99).is_empty());
    let now = feeds(&process_book_ticker(&ticker("1")))[0];
    assert_eq!(now.exch_ts, now.local_ts);
}

#[test]
fn subscriptions_name_three_streams() {
    let symbol = "btcusdt";
    let id = "id1";
    let later = format!(r#"{{
                            "method": "SUBSCRIBE",
                            "params": [
                                "{symbol}@trade",
                                "{symbol}@depth@100ms",
                                "{symbol}@bookTicker"
                            ],
                            "id": "{id}"
                        }}"#);
    assert_eq!(subscribe_message(symbol, id, LATER_MARGIN), later);
    assert!(Json::new(&later).is_valid());
    // A new connection subscribes to all registered symbols.
    let symbols = vec![symbol.to_string(), "b".to_string()];
    let ids = vec![id.to_string(), "2".to_string()];
    let opening = format!(r#"{{
                "method": "SUBSCRIBE",
                "params": [
                    "{symbol}@trade",
                    "{symbol}@depth@100ms",
                    "{symbol}@bookTicker"
                ],
                "id": "{id}"
            }}"#);
    let texts = resubscribe_messages(&symbols, &ids);
    assert_eq!(texts, vec![opening, subscribe_message("b", "2", OPENING_MARGIN)]);
}

#[test]
fn the_market_connection_takes_its_steps() {
    let mut s = MarketDataStream::new();
    let text = r#"{"e":"depthUpdate","E":1,"s":"BTC","U":1,"u":2,"b":[],"a":[]}"#.to_string();
    match s.step(MarketInput::Socket(SocketEvent::Text(text))) {
        MarketAction::Continue(step) => assert_eq!(step.snapshot, Some("btc".to_string())),
        other => panic!("{other:?}"),
    }
    match s.step(MarketInput::Snapshot("btc".to_string(), snapshot(2))) {
        MarketAction::Continue(step) => assert_eq!(feeds(&step.events).len(), 4),
        other => panic!("{other:?}"),
    }
    let bbo = r#"{"u":1,"s":"BTC","b":"1","B":"1","a":"2","A":"1"}"#.to_string();
    match s.step(MarketInput::Socket(SocketEvent::Text(bbo))) {
        MarketAction::Continue(step) => assert_eq!(step.events.len(), 4),
        other => panic!("{other:?}"),
    }
    for ignored in ["nonsense", r#"{"result":null,"id":"x"}"#] {
        match s.step(MarketInput::Socket(SocketEvent::Text(ignored.to_string()))) {
            MarketAction::Continue(step) => {
                assert!(step.events.is_empty() && step.snapshot.is_none())
            }
            other => panic!("{other:?}"),
        }
    }
    let agg = r#"{"e":"aggTrade","E":1,"s":"A","a":2,"p":"1","q":"2","f":1,"l":2,"T":3,"m":true,"M":false}"#;
    assert!(matches!(
        s.step(MarketInput::Socket(SocketEvent::Text(agg.to_string()))),
        MarketAction::Unexpected
    ));
    assert!(matches!(s.step(MarketInput::Socket(SocketEvent::Ping)), MarketAction::Pong));
    assert!(matches!(
        s.step(MarketInput::Socket(SocketEvent::Other)),
        MarketAction::Continue(_)
    ));
    assert!(matches!(
        s.step(MarketInput::Socket(SocketEvent::Ended)),
        MarketAction::Fail(BinanceSpotError::ConnectionInterrupted)
    ));
    assert!(matches!(
        s.step(MarketInput::Socket(SocketEvent::Close(None))),
        MarketAction::Fail(BinanceSpotError::ConnectionAbort(why)) if why.is_empty()
    ));
    assert!(matches!(
        s.step(MarketInput::Socket(SocketEvent::Close(Some("bye".to_string())))),
        MarketAction::Fail(BinanceSpotError::ConnectionAbort(why)) if why == "bye"
    ));
    assert!(matches!(
        s.step(MarketInput::Socket(SocketEvent::Failed(BinanceSpotError::InvalidRequest))),
        MarketAction::Fail(BinanceSpotError::InvalidRequest)
    ));
    assert!(matches!(
        s.step(MarketInput::Tick(300_000_000_000)),
        MarketAction::Continue(_)
    ));
    assert!(matches!(
        s.step(MarketInput::Tick(300_000_000_001)),
        MarketAction::Fail(BinanceSpotError::ConnectionInterrupted)
    ));
    assert!(matches!(s.step(MarketInput::Missed(3)), MarketAction::Continue(_)));
    assert!(matches!(s.step(MarketInput::Closed), MarketAction::Finish));
    match s.step(MarketInput::Registered("eth".to_string(), "i".to_string())) {
        MarketAction::Send(text) => assert_eq!(text, subscribe_message("eth", "i", LATER_MARGIN)),
        other => panic!("{other:?}"),
    }
}

#[test]
fn only_pending_id_routes_auth_falls_through() {
    let mut pending = TextSet::new();
    pending.insert("order-1");

    let order_resp = r#"{"id":"order-1","status":200,"result":{}}"#;
    assert_eq!(
        ws_api_response_id(order_resp, &pending),
        Some("order-1".to_string())
    );

    let auth = r#"{"id":"logon-random-id","status":200,"result":{"apiKey":"x","authorizedSince":1,"connectedSince":1,"returnRateLimits":true,"serverTime":1,"userDataStream":true}}"#;
    assert_eq!(ws_api_response_id(auth, &pending), None);

    let exec = r#"{"subscriptionId":0,"event":{"e":"executionReport","i":1}}"#;
    assert_eq!(ws_api_response_id(exec, &pending), None);
}

struct Session {
    stream: UserDataStream,
    orders: OrderManager,
    symbols: TextSet,
    inflight: TextSet,
}

impl Session {
    fn new() -> Session {
        Session {
            stream: UserDataStream::new(),
            orders: OrderManager::new("p"),
            symbols: TextSet::new(),
            inflight: TextSet::new(),
        }
    }

    fn text(&mut self, text: &str) -> UserAction {
        self.socket(SocketEvent::Text(text.to_string()))
    }

    fn socket(&mut self, event: SocketEvent) -> UserAction {
        self.stream.on_socket(
            event,
            "next".to_string(),
            &mut self.orders,
            &self.symbols,
            &mut self.inflight,
        )
    }
}

const LOGON: &str = r#"{"id":"l","status":200,"result":{"apiKey":"x","authorizedSince":1,"connectedSince":1,"returnRateLimits":true,"serverTime":1,"userDataStream":true}}"#;
const SUBSCRIBED: &str = r#"{"id":"s","status":200,"result":{"subscriptionId":0}}"#;

#[test]
fn the_session_is_ready_once_user_data_is_subscribed_to() {
    let mut s = Session::new();
    s.symbols.insert("btc");
    s.symbols.insert("eth");
    // Before the subscription nothing is swept.
    assert!(matches!(
        s.stream.on_reconcile("btc".to_string(), &mut s.inflight),
        UserAction::Continue(events) if events.is_empty()
    ));
    match s.text(LOGON) {
        UserAction::Send(text) => {
            assert_eq!(text, r#"{"id":"next","method":"userDataStream.subscribe"}"#)
        }
        other => panic!("{other:?}"),
    }
    s.inflight.insert("eth");
    match s.text(SUBSCRIBED) {
        UserAction::Ready(symbols) => assert_eq!(symbols, vec!["btc".to_string()]),
        other => panic!("{other:?}"),
    }
    // A symbol that is being swept is not swept again until that is done.
    assert!(matches!(
        s.stream.on_reconcile("btc".to_string(), &mut s.inflight),
        UserAction::Continue(_)
    ));
    reconcile_done(&mut s.inflight, "btc");
    assert!(matches!(
        s.stream.on_reconcile("btc".to_string(), &mut s.inflight),
        UserAction::Sweep(symbol) if symbol == "btc"
    ));
    assert!(!spawn_reconcile(&mut s.inflight, "btc"));
    assert!(spawn_reconcile(&mut s.inflight, "sol"));
}

#[test]
fn a_refused_logon_or_subscription_ends_the_connection() {
    let mut s = Session::new();
    assert!(matches!(
        s.text(r#"{"id":"l","status":401,"error":{"code":-1,"msg":"m"}}"#),
        UserAction::Fail(BinanceSpotError::ConnectionInterrupted)
    ));
    assert!(matches!(
        s.text(r#"{"id":"l","status":400,"result":{"subscriptionId":0}}"#),
        UserAction::Fail(BinanceSpotError::ConnectionInterrupted)
    ));
}

fn command(id: &str) -> WsApiCommand {
    WsApiCommand { id: id.to_string(), text: format!("text of {id}") }
}

#[test]
fn answers_reach_the_request_that_waits_for_them() {
    let mut s = Session::new();
    match s.stream.on_command(command("a"), false) {
        UserAction::Send(text) => assert_eq!(text, "text of a"),
        other => panic!("{other:?}"),
    }
    assert!(matches!(s.stream.on_command(command("b"), false), UserAction::Send(_)));
    // Nobody waits for this one any more: it is not sent.
    assert!(matches!(s.stream.on_command(command("c"), true), UserAction::Continue(_)));
    let refused = |id: &str| format!(r#"{{"id":"{id}","status":400,"error":{{"code":-2010,"msg":"m"}}}}"#);
    match s.text(&refused("a")) {
        UserAction::Resolve(
            id,
            WsApiOrderResult::Refused(BinanceSpotError::OrderError { code, .. }),
        ) => assert_eq!((id.as_str(), code), ("a", -2010)),
        other => panic!("{other:?}"),
    }
    // An answer that comes again is taken for that of a logon.
    assert!(matches!(s.text(&refused("a")), UserAction::Fail(_)));
    // One that cannot be read makes the request be dropped.
    match s.text(r#"{"id":"b","status":"x"}"#) {
        UserAction::Drop(id) => assert_eq!(id, "b"),
        other => panic!("{other:?}"),
    }
    assert!(matches!(s.text(&refused("c")), UserAction::Fail(_)));
}

#[test]
fn abandoned_requests_are_forgotten_on_a_tick() {
    let mut s = Session::new();
    s.stream.on_command(command("a"), false);
    s.stream.on_command(command("b"), false);
    let gone = vec!["a".to_string(), "x".to_string()];
    assert!(matches!(s.stream.on_tick(300_000_000_000, &gone), UserAction::Continue(_)));
    let answer = |id: &str| format!(r#"{{"id":"{id}","status":400}}"#);
    assert!(matches!(s.text(&answer("a")), UserAction::Fail(_)));
    assert!(matches!(s.text(&answer("b")), UserAction::Resolve(_, _)));
    assert!(matches!(
        s.stream.on_tick(300_000_000_001, &gone),
        UserAction::Fail(BinanceSpotError::ConnectionInterrupted)
    ));
}

#[test]
fn the_user_connection_takes_its_steps() {
    let mut s = Session::new();
    assert!(matches!(s.socket(SocketEvent::Ping), UserAction::Pong));
    assert!(matches!(s.socket(SocketEvent::Other), UserAction::Continue(_)));
    assert!(matches!(
        s.socket(SocketEvent::Ended),
        UserAction::Fail(BinanceSpotError::ConnectionInterrupted)
    ));
    assert!(matches!(
        s.socket(SocketEvent::Close(Some("bye".to_string()))),
        UserAction::Fail(BinanceSpotError::ConnectionAbort(why)) if why == "bye"
    ));
    assert!(matches!(
        s.socket(SocketEvent::Failed(BinanceSpotError::InvalidRequest)),
        UserAction::Fail(BinanceSpotError::InvalidRequest)
    ));
    assert!(matches!(s.text("nonsense"), UserAction::Continue(events) if events.is_empty()));
    assert!(matches!(s.stream.on_missed(), UserAction::Continue(_)));
    assert!(matches!(s.stream.on_closed(), UserAction::Finish));
}

fn position(e: &PublishEvent) -> (&str, i128, i64) {
    match e {
        PublishEvent::LiveEvent(LiveEvent::Position { symbol, qty, exch_ts }) => {
            (symbol.as_str(), *qty, *exch_ts)
        }
        other => panic!("{other:?}"),
    }
}

#[test]
fn user_events_are_told() {
    let mut s = Session::new();
    let account = r#"{"subscriptionId":0,"event":{"e":"outboundAccountPosition","E":7,"u":6,"B":[
        {"a":"BTC","f":"1.5","l":"0"},{"a":"USDT","f":"-2","l":"0"}]}}"#;
    match s.text(account) {
        UserAction::Continue(events) => {
            assert_eq!(events.len(), 2);
            assert_eq!(position(&events[0]), ("btc", 3 * UNIT / 2, 7_000_000));
            assert_eq!(position(&events[1]), ("usdt", -2 * UNIT, 7_000_000));
        }
        other => panic!("{other:?}"),
    }
    let update = r#"{"event":{"e":"balanceUpdate","E":1,"a":"BTC","d":"1","T":2}}"#;
    assert!(matches!(s.text(update), UserAction::Continue(events) if events.is_empty()));
    let o = Order::new(1, 10, UNIT, UNIT, Side::Buy, OrdType::Limit, TimeInForce::GTC);
    s.orders.prepare_client_order_id("btc".to_string(), o, "x").unwrap();
    let report = |coid: &str| {
        format!(
            r#"{{"event":{{"e":"executionReport","E":5,"s":"BTC","c":"{coid}","S":"BUY","o":"LIMIT","f":"GTC",
            "q":"1","p":"10","P":"0","F":"0","g":-1,"x":"TRADE","X":"FILLED","r":"NONE","i":1,
            "l":"1","z":"1","L":"10","n":"0","T":5,"t":1,"I":1,"w":false,"m":true,"M":true,
            "O":1,"Z":"0","Y":"0","Q":"0","V":"NONE"}}}}"#
        )
    };
    match s.text(&report("px")) {
        UserAction::Continue(events) => match &events[0] {
            PublishEvent::LiveEvent(LiveEvent::Order { symbol, order }) => {
                assert_eq!(symbol, "btc");
                assert_eq!((order.status, order.leaves_qty), (Status::Filled, 0));
            }
            other => panic!("{other:?}"),
        },
        other => panic!("{other:?}"),
    }
    // Reports that are repeated, of other connectors or of unknown orders tell nothing.
    for coid in ["px", "other", "punknown"] {
        assert!(matches!(
            s.text(&report(coid)),
            UserAction::Continue(events) if events.is_empty()
        ));
    }
}

#[test]
fn a_logon_is_signed_over_its_key_and_time() {
    assert_eq!(logon_payload("key".to_string(), 1784), "apiKey=key&timestamp=1784");
    let text = logon_message("i".to_string(), "key".to_string(), "sig".to_string(), 1784);
    assert_eq!(
        text,
        r#"{"id":"i","method":"session.logon","params":{"apiKey":"key","signature":"sig","timestamp":1784}}"#
    );
}

#[test]
fn a_sweep_reports_what_it_last_counted() {
    assert_eq!(sweep_count(&Vec::new()), None);
    assert_eq!(sweep_count(&vec![Some(2)]), None);
    assert_eq!(sweep_count(&vec![None, Some(0)]), Some(0));
    assert_eq!(sweep_count(&vec![Some(2), None, None, None]), None);
    assert_eq!(sweep_count(&vec![Some(2), None, None, None, None]), Some(2));
    assert_eq!(sweep_count(&vec![Some(2), Some(3), Some(1), Some(1), None]), Some(1));
    // Where every count failed the market is never said to be clean.
    assert_eq!(sweep_count(&vec![None, None, None, None, None]), Some(u32::MAX));
    assert!(matches!(
        sweep_report("btc", 3),
        PublishEvent::LiveEvent(LiveEvent::Reconciled { symbol, open_orders: 3 }) if symbol == "btc"
    ));
}

#[test]
fn canceling_all_orders_tells_of_each() {
    let mut orders = OrderManager::new("p");
    let o = Order::new(1, 10, UNIT, UNIT, Side::Buy, OrdType::Limit, TimeInForce::GTC);
    orders.prepare_client_order_id("btc".to_string(), o, "x").unwrap();
    let events = cancel_all(&mut orders, "btc");
    assert_eq!(events.len(), 1);
    match &events[0] {
        PublishEvent::LiveEvent(LiveEvent::Order { symbol, order }) => {
            assert_eq!(symbol, "btc");
            assert_eq!(order.status, Status::Canceled);
        }
        other => panic!("{other:?}"),
    }
    assert!(cancel_all(&mut orders, "btc").is_empty());
    let o = Order::new(2, 10, UNIT, UNIT, Side::Buy, OrdType::Limit, TimeInForce::GTC);
    orders.prepare_client_order_id("btc".to_string(), o, "y").unwrap();
    let events = cancel_all_at(&mut orders, "btc", &vec![77]);
    assert!(matches!(
        &events[0],
        PublishEvent::LiveEvent(LiveEvent::Order { order, .. }) if order.exch_timestamp == 77
    ));
}

#[test]
fn symbols_without_a_balance_are_told_to_hold_nothing() {
    let account: AccountInfomation = from_text(
        r#"{"makerCommission":1,"takerCommission":2,"buyerCommission":3,"sellerCommission":4,
        "commissionRates":{"maker":"0.1","taker":"0.2","buyer":"0","seller":"0"},
        "canTrade":true,"canWithdraw":false,"canDeposit":true,"brokered":false,
        "requireSelfTradePrevention":false,"preventSor":false,"updateTime":123,
        "accountType":"SPOT","balances":[{"asset":"BTC","free":"1.5","locked":"0"}],
        "permissions":["SPOT"],"uid":77}"#,
    )
    .unwrap();
    assert!(account.is_wf());
    let mut late = account.clone();
    late.update_time = 9_223_372_036_855;
    assert!(!late.is_wf());
    let mut symbols = TextSet::new();
    symbols.insert("btc");
    symbols.insert("ethbtc");
    let events = get_position_information(&account, &symbols);
    assert_eq!(events.len(), 2);
    assert_eq!(position(&events[0]), ("btc", 3 * UNIT / 2, 123_000_000));
    assert_eq!(position(&events[1]), ("ethbtc", 0, 0));
}
