use connector::binancefutures::rest::{
    into_results, payload, request_time, BinanceFuturesClient, Method, NewOrder,
    OrderResponseResult, TokenBucket,
};
use connector::binancefutures::BinanceFuturesError;
use connector::types::{OrdType, Side, TimeInForce};

const MILLI: u64 = 1_000_000;
const UNIT: i128 = 1_000_000_000_000;

#[test]
fn token_bucket_drains_and_refills() {
    let t0: u64 = 5_000_000_000;
    let mut tb = TokenBucket::new(10, 2, t0); // 10/s, burst 2
    assert!(tb.take(t0).is_none());
    assert!(tb.take(t0).is_none());
    // The third finds the bucket empty and is told how long to wait.
    let w = tb.take(t0).expect("empty bucket should return wait");
    let secs = w as f64 / 1e9;
    assert!(secs > 0.0 && secs <= 0.11, "wait={w:?}");
    // 0.2 s later there are two tokens again.
    let t1 = t0 + 200 * MILLI;
    assert!(tb.take(t1).is_none());
    assert!(tb.take(t1).is_none());
    assert!(tb.take(t1).is_some());
}

#[test]
fn token_bucket_caps_at_capacity() {
    let t0: u64 = 5_000_000_000;
    let mut tb = TokenBucket::new(10, 2, t0);
    // However long it fills, it holds two.
    let t1 = t0 + 100 * 1_000 * MILLI;
    assert!(tb.take(t1).is_none());
    assert!(tb.take(t1).is_none());
    assert!(tb.take(t1).is_some());
}

#[test]
fn waiting_as_told_is_enough_and_nothing_less_is() {
    let mut tb = TokenBucket::new(3, 1, 0);
    assert_eq!(tb.take(0), None);
    let wait = tb.take(0).unwrap();
    assert_eq!(wait, 333_333_334);
    assert_eq!(tb.take(wait - 1), Some(1));
    assert_eq!(tb.take(wait), None);
}

#[test]
fn a_time_that_has_passed_fills_nothing() {
    let mut tb = TokenBucket::new(20, 1, 1_000);
    assert_eq!(tb.take(1_000), None);
    assert_eq!(tb.take(0), Some(50_000_000));
    tb.refill(u64::MAX);
    assert_eq!(tb.take(0), None);
}

#[test]
fn requests_in_a_window_are_bounded() {
    let mut client = BinanceFuturesClient::new("u", "k", "s", 0);
    let mut granted = 0;
    // One request every millisecond for a second: the burst, and twenty more.
    for i in 0..1_001u64 {
        if client.bucket.take(i * MILLI).is_none() {
            granted += 1;
        }
    }
    assert_eq!(granted, 60);
}

fn client() -> BinanceFuturesClient {
    BinanceFuturesClient::new("https://f", "key", "secret", 0)
}

#[test]
fn signs_a_post_over_the_stamp_and_the_body() {
    let c = client();
    let call = c.submit_order(
        "id1",
        "btcusdt",
        Side::Buy,
        64685 * UNIT + UNIT / 10,
        2,
        UNIT / 100_000 * 8,
        OrdType::Limit,
        TimeInForce::GTX,
    );
    let body = "newClientOrderId=id1&symbol=btcusdt&side=BUY&price=64685.10&quantity=0.00008&type=LIMIT&timeInForce=GTX";
    assert_eq!(call.text, body);
    assert_eq!(payload(&call, 1234), format!("recvWindow=5000&timestamp=1234{body}"));
    let r = c.request(&call, 1234, "abc");
    assert_eq!(r.method, Method::Post);
    assert_eq!(
        r.url,
        "https://f/fapi/v1/order?recvWindow=5000&timestamp=1234&signature=abc"
    );
    assert_eq!(r.api_key, Some("key".to_string()));
    assert_eq!(r.body, Some(body.to_string()));
    assert_eq!(c.secret, "secret");
}

#[test]
fn signs_a_get_over_its_query() {
    let c = client();
    let mut call = c.get_position_information();
    assert_eq!(payload(&call, -5), "recvWindow=5000&timestamp=-5");
    let r = c.request(&call, -5, "sig");
    assert_eq!(
        r.url,
        "https://f/fapi/v2/positionRisk?recvWindow=5000&timestamp=-5&signature=sig"
    );
    assert_eq!(r.body, None);
    call.text = "symbol=a".to_string();
    assert_eq!(payload(&call, 7), "symbol=a&recvWindow=5000&timestamp=7");
    assert_eq!(
        c.request(&call, 7, "sig").url,
        "https://f/fapi/v2/positionRisk?symbol=a&recvWindow=5000&timestamp=7&signature=sig"
    );
}

#[test]
fn depth_needs_no_signature() {
    let c = client();
    let r = c.request(&c.get_depth("btcusdt"), 1, "unused");
    assert_eq!(r.method, Method::Get);
    assert_eq!(r.url, "https://f/fapi/v1/depth?symbol=btcusdt&limit=1000");
    assert_eq!(r.api_key, None);
    assert_eq!(r.body, None);
}

fn new_order(i: u32) -> NewOrder {
    (
        format!("id{i}"),
        "btcusdt".to_string(),
        Side::Sell,
        UNIT,
        1,
        2 * UNIT,
        OrdType::Limit,
        TimeInForce::GTC,
    )
}

#[test]
fn a_batch_holds_five_orders() {
    let c = client();
    let orders: Vec<NewOrder> = vec![new_order(0), new_order(1)];
    let call = c.submit_orders(&orders).unwrap();
    assert_eq!(
        call.text,
        r#"{"batchOrders":[{"newClientOrderId":"id0","symbol":"btcusdt","side":"SELL","price":"1.0","quantity":"2.00000","type":"LIMIT","timeInForce":"GTC"},{"newClientOrderId":"id1","symbol":"btcusdt","side":"SELL","price":"1.0","quantity":"2.00000","type":"LIMIT","timeInForce":"GTC"}]}"#
    );
    assert_eq!(call.path, "/fapi/v1/batchOrders");
    assert_eq!(c.submit_orders(&Vec::new()).unwrap().text, r#"{"batchOrders":[]}"#);
    let five: Vec<NewOrder> = (0..5).map(new_order).collect();
    assert!(c.submit_orders(&five).is_ok());
    let six: Vec<NewOrder> = (0..6).map(new_order).collect();
    assert!(matches!(c.submit_orders(&six), Err(BinanceFuturesError::InvalidRequest)));
    // Too many are refused whatever they are.
    let mut unknown: Vec<NewOrder> = (0..6).map(new_order).collect();
    unknown[3].2 = Side::Unsupported;
    assert!(matches!(c.submit_orders(&unknown), Err(BinanceFuturesError::InvalidRequest)));
}

#[test]
fn ten_orders_are_canceled_at_once() {
    let c = client();
    let ids = vec!["a".to_string(), "b".to_string()];
    let call = c.cancel_orders("btcusdt", &ids).unwrap();
    assert_eq!(call.method, Method::Post);
    assert_eq!(
        call.text,
        r#"{"symbol":"btcusdt","origClientOrderIdList":["a","b"]}"#
    );
    let ten: Vec<String> = (0..10).map(|i| format!("{i}")).collect();
    assert!(c.cancel_orders("s", &ten).is_ok());
    let eleven: Vec<String> = (0..11).map(|i| format!("{i}")).collect();
    assert!(matches!(
        c.cancel_orders("s", &eleven),
        Err(BinanceFuturesError::InvalidRequest)
    ));
}

#[test]
fn the_other_requests_have_their_paths() {
    let c = client();
    let call = c.modify_order("id", "s", Side::Buy, UNIT / 2, 1, UNIT);
    assert_eq!((call.method, call.path.as_str()), (Method::Put, "/fapi/v1/order"));
    assert_eq!(
        call.text,
        "symbol=s&origClientOrderId=id&side=BUY&price=0.5&quantity=1.00000"
    );
    let call = c.cancel_order("id", "s");
    assert_eq!((call.method, call.path.as_str()), (Method::Delete, "/fapi/v1/order"));
    assert_eq!(call.text, "symbol=s&origClientOrderId=id");
    let call = c.cancel_all_orders("s");
    assert_eq!(
        (call.method, call.path.as_str(), call.text.as_str()),
        (Method::Delete, "/fapi/v1/allOpenOrders", "symbol=s")
    );
    let call = c.start_user_data_stream();
    assert_eq!(
        (call.method, call.path.as_str(), call.text.as_str()),
        (Method::Post, "/fapi/v1/listenKey", "")
    );
    let call = c.keepalive_user_data_stream();
    assert_eq!((call.method, call.path.as_str()), (Method::Put, "/fapi/v1/listenKey"));
}

#[test]
fn answers_become_results_in_order() {
    let answers = vec![
        OrderResponseResult::Accepted(7),
        OrderResponseResult::Refused(-2010, "no".to_string()),
    ];
    let results = into_results(answers);
    assert!(matches!(results[0], Ok(7)));
    match &results[1] {
        Err(BinanceFuturesError::OrderError { code, msg }) => {
            assert_eq!((*code, msg.as_str()), (-2010, "no"));
        }
        other => panic!("{other:?}"),
    }
}

#[test]
fn requests_are_stamped_a_second_back() {
    let before = chrono::Utc::now().timestamp_millis();
    let t = request_time();
    let after = chrono::Utc::now().timestamp_millis();
    assert!(before - 1000 <= t && t <= after - 1000);
}
