use connector::binancespot::msg::from_text;
use connector::binancespot::msg::rest::OrderResponse;
use connector::binancespot::msg::stream::ExecutionReport;
use connector::binancespot::msg::wsapi::WsApiOrderResult;
use connector::binancespot::ordermanager::OrderManager;
use connector::binancespot::{
    cancel, cancel_done, cancel_replied, connection_error, is_placeable, register, rest_order,
    submit, submit_done, submit_replied, BinanceSpotError, Config, OrderAction, WsApiReply,
};
use connector::json::Json;
use connector::table::TextSet;
use connector::types::{
    Detail, ErrorKind, LiveEvent, OrdType, Order, PublishEvent, Side, Status, TimeInForce,
};

const UNIT: i128 = 1_000_000_000_000;

fn report(coid: &str, x: &str, xs: &str, l: &str, z: &str, m: bool, e: i64) -> ExecutionReport {
    let json = format!(
        r#"{{"E":{e},"s":"btcfdusd","c":"{coid}","S":"BUY","o":"LIMIT","f":"GTC",
        "q":"0.00800000","p":"64685.0","P":"0","F":"0","g":-1,"x":"{x}","X":"{xs}",
        "r":"NONE","i":1,"l":"{l}","z":"{z}","L":"64685.0","n":"0","T":{e},"t":1,"I":1,
        "w":false,"m":{m},"M":true,"O":1,"Z":"0","Y":"0","Q":"0","V":"NONE"}}"#
    );
    from_text(&json).expect("executionReport must decode")
}

fn order(id: u64) -> Order {
    // tick size 0.1, quantity 0.008
    Order::new(
        id,
        646850,
        UNIT / 10,
        UNIT / 1000 * 8,
        Side::Buy,
        OrdType::Limit,
        TimeInForce::GTC,
    )
}

fn register_order(om: &mut OrderManager) -> String {
    om.prepare_client_order_id("btcfdusd".to_string(), order(1), "0123456789abcdef")
        .expect("register")
}

fn response(status: &str, executed: &str, time: i64) -> OrderResponse {
    let json = format!(
        r#"{{"symbol":"BTCFDUSD","orderId":9,"orderListId":-1,"clientOrderId":"x",
        "transactTime":{time},"price":"64685.0","origQty":"0.008","executedQty":"{executed}",
        "cummulativeQuoteQty":"0","status":"{status}","timeInForce":"GTC","type":"LIMIT",
        "side":"BUY"}}"#
    );
    from_text(&json).expect("order response must decode")
}

fn refusal(code: i64) -> BinanceSpotError {
    BinanceSpotError::OrderError { code, msg: "no".to_string() }
}

#[test]
fn maker_set_on_fill_not_on_ack() {
    let mut om = OrderManager::new("t1s");
    let coid = register_order(&mut om);
    let acked = om.update_from_ws(&report(&coid, "NEW", "NEW", "0", "0", false, 1000)).unwrap();
    assert!(!acked.unwrap().maker, "an acknowledgement must not set maker");
    let filled = om
        .update_from_ws(&report(&coid, "TRADE", "FILLED", "0.008", "0.008", true, 2000))
        .unwrap();
    assert!(filled.unwrap().maker, "a fill must set maker");
}

#[test]
fn maker_survives_late_out_of_order_fill() {
    let mut om = OrderManager::new("t1s");
    let coid = register_order(&mut om);
    let a = om
        .update_from_ws(&report(&coid, "TRADE", "PARTIALLY_FILLED", "0.003", "0.003", false, 3000))
        .unwrap();
    assert!(!a.unwrap().maker);
    let b = om
        .update_from_ws(&report(&coid, "TRADE", "FILLED", "0.002", "0.005", true, 2999))
        .unwrap();
    assert!(b.unwrap().maker, "the maker flag of a late fill must not be lost");
}

#[test]
fn a_report_sets_the_state_of_the_order() {
    let mut om = OrderManager::new("t1s");
    let coid = register_order(&mut om);
    let o = om
        .update_from_ws(&report(&coid, "TRADE", "PARTIALLY_FILLED", "0.003", "0.003", false, 3000))
        .unwrap()
        .unwrap();
    assert_eq!(o.status, Status::PartiallyFilled);
    assert_eq!(o.exch_timestamp, 3_000_000_000);
    assert_eq!(o.exec_price_tick, 646850);
    assert_eq!(o.exec_qty, UNIT / 1000 * 3);
    assert_eq!(o.qty, UNIT / 1000 * 8);
    assert_eq!(o.leaves_qty, UNIT / 1000 * 5);
    assert_eq!(om.orders(None), vec![o]);
    assert_eq!(om.orders(Some("btcfdusd".to_string())), vec![o]);
    assert!(om.orders(Some("ethusdt".to_string())).is_empty());
}

#[test]
fn a_late_fill_is_told_after_the_order_was_told_done() {
    let mut om = OrderManager::new("t1s");
    let coid = register_order(&mut om);
    // The cancellation is answered first.
    let canceled = om.update_from_rest(&coid, &response("CANCELED", "0", 5000)).unwrap();
    assert_eq!(canceled.status, Status::Canceled);
    assert_eq!(om.get_client_order_id("btcfdusd", 1), None);
    // Then the stream tells of a fill that came before it.
    let late = om
        .update_from_ws(&report(&coid, "TRADE", "FILLED", "0.008", "0.008", true, 4000))
        .unwrap()
        .expect("a late fill must be told");
    assert_eq!(late.status, Status::Canceled);
    assert_eq!(late.leaves_qty, 0);
    // Both channels have told that the order is done: it is forgotten.
    assert!(matches!(
        om.update_from_ws(&report(&coid, "TRADE", "FILLED", "0.008", "0.008", true, 4000)),
        Err(BinanceSpotError::OrderNotFound)
    ));
    assert_eq!(om.update_from_rest(&coid, &response("CANCELED", "0", 6000)), None);
}

#[test]
fn a_repeated_report_tells_nothing_once_the_order_is_done() {
    let mut om = OrderManager::new("t1s");
    let coid = register_order(&mut om);
    let done = report(&coid, "TRADE", "FILLED", "0.008", "0.008", true, 2000);
    assert!(om.update_from_ws(&done).unwrap().is_some());
    assert_eq!(om.update_from_ws(&done).unwrap(), None);
    // The answer to the request confirms it and makes it be forgotten.
    assert_eq!(om.update_from_rest(&coid, &response("FILLED", "0.008", 1000)), None);
    assert!(matches!(om.update_from_ws(&done), Err(BinanceSpotError::OrderNotFound)));
}

#[test]
fn quantities_that_differ_by_a_unit_are_the_same() {
    let mut om = OrderManager::new("t1s");
    let coid = register_order(&mut om);
    let a = om
        .update_from_ws(&report(&coid, "X", "PARTIALLY_FILLED", "0", "0.000000000001", true, 1000))
        .unwrap()
        .unwrap();
    assert!(!a.maker);
    assert_eq!(a.leaves_qty, a.qty);
    let b = om
        .update_from_ws(&report(&coid, "X", "PARTIALLY_FILLED", "0", "0.000000000002", true, 1000))
        .unwrap()
        .unwrap();
    assert!(b.maker);
    assert_eq!(b.leaves_qty, b.qty - 2);
}

#[test]
fn orders_of_others_are_not_taken() {
    let mut om = OrderManager::new("t1s");
    assert!(matches!(
        om.update_from_ws(&report("other", "NEW", "NEW", "0", "0", false, 1)),
        Err(BinanceSpotError::PrefixUnmatched)
    ));
    assert!(matches!(
        om.update_from_ws(&report("t1sx", "NEW", "NEW", "0", "0", false, 1)),
        Err(BinanceSpotError::OrderNotFound)
    ));
}

#[test]
fn an_identifier_in_use_is_refused() {
    let mut om = OrderManager::new("p");
    let id = om.prepare_client_order_id("a".to_string(), order(1), "x").unwrap();
    assert_eq!(id, "px");
    assert_eq!(om.get_client_order_id("a", 1), Some("px".to_string()));
    assert_eq!(om.get_client_order_id("a", 2), None);
    assert_eq!(om.get_client_order_id("b", 1), None);
    // The same order.
    assert_eq!(om.prepare_client_order_id("a".to_string(), order(1), "y"), None);
    // The same client order identifier.
    assert_eq!(om.prepare_client_order_id("b".to_string(), order(1), "x"), None);
    assert_eq!(
        om.prepare_client_order_id("b".to_string(), order(1), "y"),
        Some("py".to_string())
    );
}

#[test]
fn a_failed_submission_expires() {
    let mut om = OrderManager::new("p");
    let id = om.prepare_client_order_id("a".to_string(), order(1), "x").unwrap();
    let o = om.update_submit_fail(&id, &refusal(-2019)).unwrap();
    assert_eq!(o.status, Status::Expired);
    assert_eq!(o.req, Status::Unset);
    assert_eq!(om.get_client_order_id("a", 1), None);
    assert_eq!(om.update_submit_fail(&id, &refusal(-2019)), None);
    assert_eq!(om.update_submit_fail(&"unknown".to_string(), &refusal(1)), None);
    // The identifier is free again.
    assert!(om.prepare_client_order_id("a".to_string(), order(1), "y").is_some());
}

#[test]
fn a_failed_cancellation_keeps_the_status_unless_the_order_is_unknown() {
    let mut om = OrderManager::new("t1s");
    let coid = register_order(&mut om);
    om.update_from_ws(&report(&coid, "NEW", "NEW", "0", "0", false, 1000)).unwrap();
    let o = om.update_cancel_fail(&coid, &refusal(-1000)).unwrap();
    assert_eq!(o.status, Status::New);
    assert_eq!(om.get_client_order_id("btcfdusd", 1), Some(coid.clone()));
    let o = om.update_cancel_fail(&coid, &refusal(-2011)).unwrap();
    assert_eq!(o.status, Status::Unset);
    assert_eq!(om.get_client_order_id("btcfdusd", 1), None);
    let mut om = OrderManager::new("t1s");
    let coid = register_order(&mut om);
    let o = om.update_from_rest_fail(&coid, Some(Status::Rejected)).unwrap();
    assert_eq!(o.status, Status::Rejected);
}

#[test]
fn orders_that_are_done_for_long_are_forgotten() {
    let minute: i64 = 60_000_000_000;
    let mut om = OrderManager::new("t1s");
    let coid = register_order(&mut om);
    om.update_from_ws(&report(&coid, "NEW", "NEW", "0", "0", false, 1000)).unwrap();
    // One in the market is never forgotten.
    om.gc_at(i64::MAX);
    om.gc();
    assert_eq!(om.orders(None).len(), 1);
    om.update_from_ws(&report(&coid, "TRADE", "FILLED", "0.008", "0.008", true, 2000)).unwrap();
    let done = 2_000_000_000;
    om.gc_at(done + 5 * minute);
    assert!(om.update_from_rest_fail(&coid, Some(Status::New)).is_none());
    assert!(om.update_from_ws(&report(&coid, "X", "FILLED", "0", "0.008", true, 2000)).is_ok());
    om.gc_at(done + 5 * minute + 1);
    assert!(matches!(
        om.update_from_ws(&report(&coid, "X", "FILLED", "0", "0.008", true, 2000)),
        Err(BinanceSpotError::OrderNotFound)
    ));
}

#[test]
fn an_order_that_no_channel_ended_is_never_forgotten() {
    let mut om = OrderManager::new("t1s");
    let coid = register_order(&mut om);
    om.gc_at(i64::MAX);
    om.gc();
    assert_eq!(om.get_client_order_id("btcfdusd", 1), Some(coid.clone()));
    assert!(om.update_from_ws(&report(&coid, "NEW", "NEW", "0", "0", false, 1000)).unwrap().is_some());
}

#[test]
fn an_order_that_is_forgotten_does_not_hide_a_newer_one_of_its_identifier() {
    let mut om = OrderManager::new("t1s");
    let first = register_order(&mut om);
    om.update_from_ws(&report(&first, "TRADE", "FILLED", "0.008", "0.008", true, 2000)).unwrap();
    let second = om.prepare_client_order_id("btcfdusd".to_string(), order(1), "second").unwrap();
    om.gc_at(i64::MAX);
    assert_eq!(om.get_client_order_id("btcfdusd", 1), Some(second));
    assert!(matches!(
        om.update_from_ws(&report(&first, "X", "FILLED", "0", "0.008", true, 2000)),
        Err(BinanceSpotError::OrderNotFound)
    ));
}

#[test]
fn the_clock_of_the_system_drives_the_collection() {
    let mut om = OrderManager::new("t1s");
    let coid = register_order(&mut om);
    om.update_from_ws(&report(&coid, "TRADE", "FILLED", "0.008", "0.008", true, 2000)).unwrap();
    om.gc();
    assert!(matches!(
        om.update_from_ws(&report(&coid, "X", "FILLED", "0", "0.008", true, 2000)),
        Err(BinanceSpotError::OrderNotFound)
    ));
}

#[test]
fn canceled_orders_carry_the_time_of_their_cancellation() {
    let mut om = OrderManager::new("p");
    om.prepare_client_order_id("a".to_string(), order(1), "1").unwrap();
    om.prepare_client_order_id("a".to_string(), order(2), "2").unwrap();
    let told = om.cancel_all_from_rest_at("a", &vec![123]);
    assert_eq!(told.len(), 2);
    assert!(told.iter().all(|o| o.exch_timestamp == 123 && o.status == Status::Canceled));
    // Each order has a reading of its own where there are enough.
    om.prepare_client_order_id("b".to_string(), order(1), "3").unwrap();
    om.prepare_client_order_id("b".to_string(), order(2), "4").unwrap();
    let told = om.cancel_all_from_rest_at("b", &vec![1, 2, 3, 4]);
    assert_ne!(told[0].exch_timestamp, told[1].exch_timestamp);
}

#[test]
fn canceling_all_orders_of_a_symbol_leaves_the_others() {
    let mut om = OrderManager::new("p");
    let a = om.prepare_client_order_id("a".to_string(), order(1), "1").unwrap();
    let b = om.prepare_client_order_id("a".to_string(), order(2), "2").unwrap();
    let c = om.prepare_client_order_id("b".to_string(), order(1), "3").unwrap();
    om.update_from_ws(&report(&a, "X", "FILLED", "0", "0.008", true, 1)).unwrap();
    let before = chrono::Utc::now().timestamp_nanos_opt().unwrap();
    let told = om.cancel_all_from_rest("a");
    let after = chrono::Utc::now().timestamp_nanos_opt().unwrap();
    assert_eq!(told.len(), 1);
    assert_eq!(told[0].order_id, 2);
    assert_eq!(told[0].status, Status::Canceled);
    assert!(before <= told[0].exch_timestamp && told[0].exch_timestamp <= after);
    // The first was told done by both, the second waits for the stream.
    assert!(matches!(
        om.update_from_ws(&report(&a, "X", "FILLED", "0", "0.008", true, 1)),
        Err(BinanceSpotError::OrderNotFound)
    ));
    assert_eq!(om.update_from_ws(&report(&b, "X", "NEW", "0", "0", true, 1)).unwrap(), None);
    assert_eq!(om.get_client_order_id("a", 2), None);
    assert_eq!(om.get_client_order_id("b", 1), Some(c));
}

fn told_order(e: &PublishEvent) -> (String, Order) {
    match e {
        PublishEvent::LiveEvent(LiveEvent::Order { symbol, order }) => (symbol.clone(), *order),
        other => panic!("{other:?}"),
    }
}

fn told_code(e: &PublishEvent) -> i64 {
    match e {
        PublishEvent::LiveEvent(LiveEvent::Error(error)) => {
            assert_eq!(error.kind, ErrorKind::OrderError);
            match &error.value {
                Detail::Fields(fields) => {
                    assert_eq!(fields[0].0, "code");
                    assert_eq!(fields[1].0, "msg");
                    match fields[0].1 {
                        Detail::Int(code) => code,
                        _ => panic!("{fields:?}"),
                    }
                }
                other => panic!("{other:?}"),
            }
        }
        other => panic!("{other:?}"),
    }
}

#[test]
fn a_submission_goes_through_the_session() {
    let mut om = OrderManager::new("p");
    let mut o = order(1);
    o.time_in_force = TimeInForce::GTX;
    let (coid, cmd) = match submit(&mut om, "btcfdusd", o, true, "xyz", "req1", 17) {
        OrderAction::Session(coid, cmd) => (coid, cmd),
        other => panic!("{other:?}"),
    };
    assert_eq!(coid, "pxyz");
    assert_eq!(cmd.id, "req1");
    assert_eq!(
        cmd.text,
        r#"{"id":"req1","method":"order.place","params":{"symbol":"BTCFDUSD","side":"BUY","type":"LIMIT_MAKER","quantity":"0.00800","price":"64685.0","newClientOrderId":"pxyz","newOrderRespType":"FULL","timestamp":17}}"#
    );
    let events = match submit_replied(
        &mut om,
        "btcfdusd",
        coid.clone(),
        WsApiReply::Answer(WsApiOrderResult::Accepted(response("NEW", "0", 1000))),
    ) {
        OrderAction::Finish(events) => events,
        other => panic!("{other:?}"),
    };
    let (symbol, told) = told_order(&events[0]);
    assert_eq!((symbol.as_str(), told.status), ("btcfdusd", Status::New));
    assert_eq!(events.len(), 1);
}

#[test]
fn an_order_with_a_time_in_force_carries_it() {
    let mut om = OrderManager::new("p");
    let mut o = order(1);
    o.time_in_force = TimeInForce::FOK;
    o.side = Side::Sell;
    let cmd = match submit(&mut om, "b", o, true, "x", "r", 17) {
        OrderAction::Session(_, cmd) => cmd,
        other => panic!("{other:?}"),
    };
    assert_eq!(
        cmd.text,
        r#"{"id":"r","method":"order.place","params":{"symbol":"B","side":"SELL","type":"LIMIT","timeInForce":"FOK","quantity":"0.00800","price":"64685.0","newClientOrderId":"px","newOrderRespType":"FULL","timestamp":17}}"#
    );
    let params = Json::new(&cmd.text).as_record().unwrap().get("params").unwrap().as_record();
    assert_eq!(params.unwrap().get_text("timeInForce").unwrap(), "FOK");
}

#[test]
fn a_submission_falls_back_to_rest_under_the_same_identifier() {
    let mut om = OrderManager::new("p");
    for reply in [WsApiReply::Unsent, WsApiReply::TimedOut, WsApiReply::Dropped] {
        match submit_replied(&mut om, "s", "px".to_string(), reply) {
            OrderAction::Rest(coid) => assert_eq!(coid, "px"),
            other => panic!("{other:?}"),
        }
    }
    for reply in [WsApiReply::Unsent, WsApiReply::TimedOut, WsApiReply::Dropped] {
        match cancel_replied(&mut om, "s", "px".to_string(), reply) {
            OrderAction::Rest(coid) => assert_eq!(coid, "px"),
            other => panic!("{other:?}"),
        }
    }
    match submit(&mut om, "s", order(1), false, "x", "r", 1) {
        OrderAction::Rest(coid) => assert_eq!(coid, "px"),
        other => panic!("{other:?}"),
    }
}

#[test]
fn an_order_that_cannot_be_taken_on_expires() {
    let mut om = OrderManager::new("p");
    assert!(matches!(
        submit(&mut om, "s", order(1), false, "x", "r", 1),
        OrderAction::Rest(_)
    ));
    // Whatever the order is, it has no need to be written.
    let mut o = order(1);
    o.req = Status::New;
    o.side = Side::Unsupported;
    o.qty = i128::MAX;
    assert!(!is_placeable(&o) && !o.is_wf());
    assert!(om.is_in_use("s", 1, "y"));
    assert!(om.is_in_use("s", 2, "x"));
    assert!(!om.is_in_use("s", 2, "y"));
    match submit(&mut om, "s", o, true, "y", "r", 1) {
        OrderAction::Finish(events) => {
            let (symbol, told) = told_order(&events[0]);
            assert_eq!(symbol, "s");
            assert_eq!((told.status, told.req), (Status::Expired, Status::Unset));
            assert_eq!((told.side, told.qty), (Side::Unsupported, i128::MAX));
            assert_eq!(events.len(), 1);
        }
        other => panic!("{other:?}"),
    }
}

#[test]
fn a_rest_order_carries_the_price_and_its_digits() {
    let r = rest_order(&order(1), "btc", "px");
    assert_eq!((r.client_order_id.as_str(), r.symbol.as_str()), ("px", "btc"));
    assert_eq!((r.price, r.price_prec, r.qty), (64685 * UNIT, 1, UNIT / 1000 * 8));
    assert_eq!((r.side, r.order_type, r.time_in_force), (Side::Buy, OrdType::Limit, TimeInForce::GTC));
}

#[test]
fn responses_beyond_the_limits_are_told_apart() {
    let mut resp = response("NEW", "0", 1000);
    assert!(resp.is_wf());
    assert!(WsApiOrderResult::Accepted(resp.clone()).is_wf());
    resp.transact_time = 9_223_372_036_855;
    assert!(!resp.is_wf());
    assert!(!WsApiOrderResult::Accepted(resp.clone()).is_wf());
    resp.transact_time = -9_223_372_036_854;
    resp.orig_qty = 1_000_000_000 * UNIT * UNIT;
    assert!(resp.is_wf());
    resp.orig_qty += 1;
    assert!(!resp.is_wf());
    assert!(WsApiOrderResult::Refused(refusal(1)).is_wf());
}

#[test]
fn a_refused_submission_is_told_with_its_error() {
    let mut om = OrderManager::new("p");
    submit(&mut om, "s", order(1), false, "x", "r", 1);
    let result = WsApiOrderResult::Refused(refusal(-2010));
    let events = submit_done(&mut om, "s", &"px".to_string(), result);
    assert_eq!(told_order(&events[0]).1.status, Status::Expired);
    assert_eq!(told_code(&events[1]), -2010);
    // The error is told even of an order that is no longer there.
    let result = WsApiOrderResult::Refused(refusal(-7));
    let events = submit_done(&mut om, "s", &"gone".to_string(), result);
    assert_eq!(events.len(), 1);
    assert_eq!(told_code(&events[0]), -7);
}

#[test]
fn a_cancellation_goes_by_the_client_order_identifier() {
    let mut om = OrderManager::new("p");
    submit(&mut om, "s", order(1), false, "x", "r", 1);
    match cancel(&om, "s", &order(1), true, "req", 18) {
        OrderAction::Session(coid, cmd) => {
            assert_eq!(coid, "px");
            assert_eq!(
                cmd.text,
                r#"{"id":"req","method":"order.cancel","params":{"symbol":"S","origClientOrderId":"px","timestamp":18}}"#
            );
        }
        other => panic!("{other:?}"),
    }
    assert!(matches!(
        cancel(&om, "s", &order(1), false, "req", 18),
        OrderAction::Rest(coid) if coid == "px"
    ));
    assert!(matches!(
        cancel(&om, "s", &order(2), true, "req", 18),
        OrderAction::Finish(events) if events.is_empty()
    ));
    let result = WsApiOrderResult::Accepted(response("CANCELED", "0", 1));
    let events = cancel_done(&mut om, "s", &"px".to_string(), result);
    assert_eq!(told_order(&events[0]).1.status, Status::Canceled);
    let result = WsApiOrderResult::Refused(refusal(-2011));
    let events = cancel_done(&mut om, "s", &"px".to_string(), result);
    assert_eq!(events.len(), 1);
    assert_eq!(told_code(&events[0]), -2011);
}

#[test]
fn symbols_are_registered_in_lower_case_and_announced_once() {
    let mut symbols = TextSet::new();
    let r = register(&mut symbols, "BtcUSDT");
    assert_eq!((r.subscribe.as_deref(), r.sweep.as_str()), (Some("btcusdt"), "btcusdt"));
    // A symbol that is registered again is swept again.
    let r = register(&mut symbols, "BTCUSDT");
    assert_eq!((r.subscribe.as_deref(), r.sweep.as_str()), (None, "btcusdt"));
    assert_eq!(symbols.items(), vec!["btcusdt".to_string()]);
    assert!(symbols.contains("btcusdt"));
    assert!(!symbols.contains("BtcUSDT"));
}

#[test]
fn user_data_needs_a_key_and_a_secret() {
    let config = |key: &str, secret: &str| Config {
        stream_url: String::new(),
        api_url: String::new(),
        order_prefix: String::new(),
        api_key: key.to_string(),
        secret: secret.to_string(),
        ws_api_url: String::new(),
    };
    assert!(config("k", "s").has_credentials());
    assert!(!config("", "s").has_credentials());
    assert!(!config("k", "").has_credentials());
}

fn text_of(e: BinanceSpotError) -> String {
    match connection_error(e) {
        PublishEvent::LiveEvent(LiveEvent::Error(error)) => {
            assert_eq!(error.kind, ErrorKind::ConnectionInterrupted);
            match error.value {
                Detail::Text(s) => s,
                other => panic!("{other:?}"),
            }
        }
        other => panic!("{other:?}"),
    }
}

#[test]
fn errors_have_their_messages() {
    assert_eq!(refusal(-1).to_text(), "OrderError: -1 - no)");
    assert_eq!(text_of(BinanceSpotError::InstrumentNotFound), "InstrumentNotFound");
    assert_eq!(text_of(BinanceSpotError::InvalidRequest), "InvalidRequest");
    assert_eq!(text_of(BinanceSpotError::ListenKeyExpired), "ListenKeyExpired");
    assert_eq!(text_of(BinanceSpotError::ConnectionInterrupted), "ConnectionInterrupted");
    assert_eq!(
        text_of(BinanceSpotError::ConnectionAbort("why".to_string())),
        "ConnectionAbort: why"
    );
    assert_eq!(text_of(BinanceSpotError::PrefixUnmatched), "PrefixUnmatched");
    assert_eq!(text_of(BinanceSpotError::OrderNotFound), "OrderNotFound");
    assert_eq!(text_of(BinanceSpotError::Config("d".to_string())), "Config: d");
    let socket = || BinanceSpotError::Tunstenite { msg: "m".to_string(), debug: "D".to_string() };
    assert_eq!(socket().to_text(), "Tunstenite: D");
    assert_eq!(text_of(socket()), "m");
    let req = |status: Option<String>| BinanceSpotError::ReqError {
        status,
        msg: "m".to_string(),
        debug: "D".to_string(),
    };
    assert_eq!(req(None).to_text(), "ReqError: D");
    match Detail::from(req(Some("418 I'm a teapot".to_string()))) {
        Detail::Fields(fields) => {
            assert_eq!(fields.len(), 2);
            assert_eq!(fields[0].0, "status_code");
            assert!(matches!(&fields[0].1, Detail::Text(s) if s == "418 I'm a teapot"));
            assert!(matches!(&fields[1].1, Detail::Text(s) if s == "m"));
        }
        other => panic!("{other:?}"),
    }
    assert!(matches!(Detail::from(req(None)), Detail::Fields(fields) if fields.len() == 1));
}
