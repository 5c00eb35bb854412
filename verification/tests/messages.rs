use connector::binancespot::msg::rest::{
    AccountInfomation, CancelOrderResponse, CancelOrderResponseResult, Depth, OrderResponse,
    OrderResponseResult,
};
use connector::binancespot::msg::stream::{
    MarketEventStream, MarketStream, SignParams, SignRequest, SubscribeRequest, UserDataRequest,
    UserEventStream, UserStream, UserStreamSubscribeRequest,
};
use connector::binancespot::msg::wsapi::{
    OrderCancelParams, OrderPlaceParams, WsApiOrderResponse, WsApiOrderResult, WsApiRequest,
};
use connector::binancespot::msg::from_text;
use connector::binancespot::BinanceSpotError;
use connector::json::{Json, ToJson};
use connector::types::{OrdType, Side, Status, TimeInForce};

fn units(x: i128) -> f64 {
    x as f64 / 1e12
}

#[test]
fn spot_new_order_full_response_without_orig_quote_order_qty_decodes_ok() {
    let json = r#"{
        "symbol":"BTCFDUSD","orderId":123456,"orderListId":-1,"clientOrderId":"m1sabc",
        "transactTime":1784126821000,"price":"65454.37000000","origQty":"0.00010000",
        "executedQty":"0.00000000","cummulativeQuoteQty":"0.00000000","status":"NEW",
        "timeInForce":"GTC","type":"LIMIT_MAKER","side":"BUY",
        "workingTime":1784126821000,"selfTradePreventionMode":"NONE","fills":[]
    }"#;
    match from_text::<OrderResponseResult>(json).expect("must decode") {
        OrderResponseResult::Accepted(o) => {
            assert_eq!(o.order_id, 123456);
            assert!((units(o.orig_quote_order_qty) - 0.0).abs() < 1e-12);
            assert!((units(o.price) - 65454.37).abs() < 1e-6);
        }
        OrderResponseResult::Refused(e) => panic!("resting NEW order mis-decoded as error: {e:?}"),
    }
}

#[test]
fn spot_order_error_response_still_decodes_as_err() {
    let json = r#"{"code":-2010,"msg":"Account has insufficient balance for requested action."}"#;
    match from_text::<OrderResponseResult>(json).expect("must decode") {
        OrderResponseResult::Refused(e) => assert_eq!(e.code, -2010),
        OrderResponseResult::Accepted(_) => panic!("error response mis-decoded as Ok"),
    }
}

#[test]
fn spot_ack_response_without_full_fields_does_not_decode_as_ok() {
    let ack_json = r#"{
        "symbol":"BTCFDUSD","orderId":25749045654,"orderListId":-1,
        "clientOrderId":"m1sabc","transactTime":1784163492705
    }"#;
    let result = from_text::<OrderResponseResult>(ack_json);
    assert!(result.is_none(), "{result:?}");
}

#[test]
fn spot_full_response_with_immediate_fill_decodes_ok() {
    let json = r#"{
        "symbol":"BTCFDUSD","orderId":25749045654,"orderListId":-1,"clientOrderId":"m1sabc",
        "transactTime":1784163492705,"price":"64699.03000000","origQty":"0.00008000",
        "executedQty":"0.00008000","cummulativeQuoteQty":"5.17592240","status":"FILLED",
        "timeInForce":"GTC","type":"LIMIT_MAKER","side":"BUY",
        "workingTime":1784163492705,"selfTradePreventionMode":"EXPIRE_MAKER",
        "fills":[{"price":"64699.03000000","qty":"0.00008000","commission":"0.00000008","commissionAsset":"BTC","tradeId":999}]
    }"#;
    match from_text::<OrderResponseResult>(json).expect("FULL FILLED response must decode") {
        OrderResponseResult::Accepted(o) => {
            assert_eq!(o.order_id, 25749045654);
            assert!((units(o.executed_qty) - 0.00008).abs() < 1e-10);
            assert_eq!(o.fills.len(), 1);
            assert!((units(o.fills[0].qty) - 0.00008).abs() < 1e-10);
            assert_eq!(o.fills[0].commission_asset, "btc");
            assert_eq!(o.cummulative_quote_qty, 5_175_922_400_000);
        }
        OrderResponseResult::Refused(e) => panic!("FULL FILLED response decoded as error: {e:?}"),
    }
}

#[test]
fn bookticker_frame_routes_to_bookticker() {
    let f = r#"{"u":400900217,"s":"BTCFDUSD","b":"64845.00","B":"0.04891","a":"64845.01","A":"0.01023"}"#;
    let m: MarketStream = from_text(f).unwrap();
    match m {
        MarketStream::BookTicker(bt) => {
            assert_eq!(bt.update_id, 400900217);
            assert_eq!(bt.symbol, "btcfdusd");
            assert_eq!(bt.best_bid, "64845.00");
            assert_eq!(bt.best_ask_qty, "0.01023");
        }
        other => panic!("bookTicker frame mis-routed: {other:?}"),
    }
}

#[test]
fn depthupdate_frame_routes_to_eventstream() {
    let f = r#"{"e":"depthUpdate","E":1720000000000,"s":"BTCFDUSD","U":1,"u":2,"b":[["64845.0","0.1"]],"a":[["64845.01","0.2"]]}"#;
    let m: MarketStream = from_text(f).unwrap();
    match m {
        MarketStream::EventStream(MarketEventStream::DepthUpdate(d)) => {
            assert_eq!(d.first_update_id, 1);
            assert_eq!(d.last_update_id, 2);
            assert_eq!(d.bids, vec![("64845.0".to_string(), "0.1".to_string())]);
            assert_eq!(d.asks, vec![("64845.01".to_string(), "0.2".to_string())]);
            assert_eq!(d.symbol, "btcfdusd");
        }
        other => panic!("depthUpdate frame mis-routed: {other:?}"),
    }
}

#[test]
fn subscribe_result_frame_routes_to_result() {
    let f = r#"{"result":null,"id":"abc123"}"#;
    let m: MarketStream = from_text(f).unwrap();
    match m {
        MarketStream::Result(r) => assert_eq!(r.id, "abc123"),
        other => panic!("Result frame mis-routed: {other:?}"),
    }
}

#[test]
fn execution_report_fill_routes_to_eventstream() {
    let f = r#"{"subscriptionId":0,"event":{
        "e":"executionReport","E":1784165213944,"s":"BTCFDUSD","c":"m1sABC",
        "S":"BUY","o":"LIMIT_MAKER","f":"GTC","q":"0.00008000","p":"64685.01000000",
        "P":"0.00000000","F":"0.00000000","g":-1,"C":"","x":"TRADE","X":"FILLED",
        "r":"NONE","i":25749045654,"l":"0.00008000","z":"0.00008000",
        "L":"64685.01000000","n":"0.00000000","N":"BNB","T":1784165213943,"t":2222896094,
        "I":53679698169,"w":false,"m":true,"M":true,"O":1784165200899,
        "Z":"5.17480080","Y":"5.17480080","Q":"0.00000000","W":1784165200899,"V":"EXPIRE_MAKER"
    }}"#;
    let u: UserStream = from_text(f).expect("executionReport must decode");
    match u {
        UserStream::EventStream(ref ev) => match &ev.event {
            UserEventStream::ExecutionReport(report) => {
                assert_eq!(report.order_id, 25749045654);
                assert!(
                    (units(report.order_last_filled_quantity) - 0.00008).abs() < 1e-10,
                    "last fill qty wrong: {}",
                    report.order_last_filled_quantity
                );
                assert!((units(report.order_filled_accumulated_quantity) - 0.00008).abs() < 1e-10);
                assert!(report.is_maker);
                assert_eq!(report.order_status, Status::Filled);
                assert_eq!(report.order_type, OrdType::Limit);
                assert_eq!(report.commission_asset, Some("BNB".to_string()));
                assert_eq!(report.working_time, Some(1784165200899));
                assert_eq!(report.trailing_time, None);
            }
            other => panic!("wrong UserEventStream variant: {other:?}"),
        },
        other => panic!("executionReport mis-routed (fill event silently dropped?): {other:?}"),
    }
}

#[test]
fn order_place_success_decodes_and_into_result_ok() {
    let f = r#"{
        "id":"place-abc","status":200,
        "result":{
            "symbol":"BTCFDUSD","orderId":123456,"orderListId":-1,"clientOrderId":"m1sabc",
            "transactTime":1784126821000,"price":"65454.37000000","origQty":"0.00010000",
            "executedQty":"0.00000000","cummulativeQuoteQty":"0.00000000","status":"NEW",
            "timeInForce":"GTC","type":"LIMIT_MAKER","side":"BUY",
            "workingTime":1784126821000,"selfTradePreventionMode":"NONE","fills":[]
        },
        "rateLimits":[{"rateLimitType":"ORDERS","interval":"SECOND","intervalNum":10,"limit":50,"count":1}]
    }"#;
    let resp: WsApiOrderResponse = from_text(f).expect("must decode");
    match resp.into_result() {
        WsApiOrderResult::Accepted(o) => {
            assert_eq!(o.order_id, 123456);
            assert!((units(o.price) - 65454.37).abs() < 1e-6);
        }
        WsApiOrderResult::Refused(e) => panic!("success frame mis-decoded as err: {e:?}"),
    }
}

#[test]
fn order_place_error_decodes_as_orderror() {
    let f = r#"{"id":"place-x","status":400,"error":{"code":-2010,"msg":"Account has insufficient balance for requested action."}}"#;
    let resp: WsApiOrderResponse = from_text(f).expect("must decode");
    match resp.into_result() {
        WsApiOrderResult::Refused(BinanceSpotError::OrderError { code, .. }) => {
            assert_eq!(code, -2010)
        }
        other => panic!("error frame mis-decoded: {other:?}"),
    }
}

#[test]
fn order_cancel_success_result_decodes_into_orderresponse() {
    let f = r#"{
        "id":"cancel-abc","status":200,
        "result":{
            "symbol":"BTCFDUSD","origClientOrderId":"m1sabc","orderId":123456,"orderListId":-1,
            "clientOrderId":"cancelXYZ","transactTime":1784126900000,"price":"65454.37000000",
            "origQty":"0.00010000","executedQty":"0.00000000","cummulativeQuoteQty":"0.00000000",
            "status":"CANCELED","timeInForce":"GTC","type":"LIMIT_MAKER","side":"BUY",
            "selfTradePreventionMode":"NONE"
        }
    }"#;
    let resp: WsApiOrderResponse = from_text(f).expect("cancel response must decode");
    match resp.into_result() {
        WsApiOrderResult::Accepted(o) => {
            assert_eq!(o.order_id, 123456);
            assert_eq!(o.status, Status::Canceled);
            assert_eq!(o.working_time, 0);
        }
        WsApiOrderResult::Refused(e) => panic!("cancel success mis-decoded as err: {e:?}"),
    }
}

#[test]
fn serialize_limit_maker_omits_tif_and_auth_fields() {
    let req = WsApiRequest {
        id: "place-1".to_string(),
        method: "order.place".to_string(),
        params: OrderPlaceParams {
            symbol: "BTCFDUSD".to_string(),
            side: "SELL".to_string(),
            order_type: "LIMIT_MAKER".to_string(),
            time_in_force: None,
            quantity: "0.00010".to_string(),
            price: "65454.37".to_string(),
            new_client_order_id: "m1sabc".to_string(),
            new_order_resp_type: "FULL".to_string(),
            timestamp: 1784126821000,
        },
    };
    let s = req.to_json();
    assert!(s.contains(r#""method":"order.place""#));
    assert!(s.contains(r#""type":"LIMIT_MAKER""#));
    assert!(s.contains(r#""newOrderRespType":"FULL""#));
    assert!(s.contains(r#""newClientOrderId":"m1sabc""#));
    assert!(!s.contains("timeInForce"), "LIMIT_MAKER must omit timeInForce: {s}");
    assert!(!s.contains("apiKey"), "logon session → no apiKey: {s}");
    assert!(!s.contains("signature"), "logon session → no signature: {s}");
}

#[test]
fn serialize_limit_gtc_includes_tif() {
    let req = WsApiRequest {
        id: "place-2".to_string(),
        method: "order.place".to_string(),
        params: OrderPlaceParams {
            symbol: "BTCFDUSD".to_string(),
            side: "BUY".to_string(),
            order_type: "LIMIT".to_string(),
            time_in_force: Some("GTC".to_string()),
            quantity: "0.00010".to_string(),
            price: "65454.37".to_string(),
            new_client_order_id: "m1sxyz".to_string(),
            new_order_resp_type: "FULL".to_string(),
            timestamp: 1784126821000,
        },
    };
    let s = req.to_json();
    assert!(s.contains(r#""timeInForce":"GTC""#), "non-GTX must include timeInForce: {s}");
    assert!(s.contains(r#""type":"LIMIT""#));
}

#[test]
fn serialize_cancel_uses_orig_client_order_id() {
    let req = WsApiRequest {
        id: "cancel-1".to_string(),
        method: "order.cancel".to_string(),
        params: OrderCancelParams {
            symbol: "BTCFDUSD".to_string(),
            orig_client_order_id: "m1sabc".to_string(),
            timestamp: 1784126900000,
        },
    };
    let s = req.to_json();
    assert!(s.contains(r#""method":"order.cancel""#));
    assert!(s.contains(r#""origClientOrderId":"m1sabc""#));
    assert!(!s.contains("apiKey"));
    assert!(!s.contains("signature"));
}

#[test]
fn requests_are_written_in_full() {
    let cancel = WsApiRequest {
        id: "c\"1\\\n\u{1}".to_string(),
        method: "order.cancel".to_string(),
        params: OrderCancelParams {
            symbol: "BTCFDUSD".to_string(),
            orig_client_order_id: "m1sabc".to_string(),
            timestamp: 17,
        },
    };
    assert_eq!(
        cancel.to_json(),
        r#"{"id":"c\"1\\\n\u0001","method":"order.cancel","params":{"symbol":"BTCFDUSD","origClientOrderId":"m1sabc","timestamp":17}}"#
    );
    let logon = SignRequest {
        id: "i".to_string(),
        method: "session.logon".to_string(),
        params: SignParams { api_key: "k".to_string(), signature: None, timestamp: 5 },
    };
    assert_eq!(
        logon.to_json(),
        r#"{"id":"i","method":"session.logon","params":{"apiKey":"k","signature":null,"timestamp":5}}"#
    );
    let data = UserDataRequest {
        id: "i".to_string(),
        method: "m".to_string(),
        params: SignParams {
            api_key: "k".to_string(),
            signature: Some("s".to_string()),
            timestamp: 5,
        },
    };
    assert_eq!(
        data.to_json(),
        r#"{"id":"i","method":"m","params":{"apiKey":"k","signature":"s","timestamp":5}}"#
    );
    assert_eq!(data.params.payload(), "apiKey=k&timestamp=5");
    let sub = SubscribeRequest { id: "i".to_string(), method: "m".to_string() };
    assert_eq!(sub.to_json(), r#"{"id":"i","method":"m"}"#);
    let sub = UserStreamSubscribeRequest { id: "i".to_string(), method: "m".to_string() };
    assert_eq!(sub.to_json(), r#"{"id":"i","method":"m"}"#);
}

#[test]
fn a_written_request_reads_back() {
    let text = WsApiRequest {
        id: "é\t\u{7f}/\u{8}\u{c}\r".to_string(),
        method: "m".to_string(),
        params: OrderCancelParams {
            symbol: "S".to_string(),
            orig_client_order_id: "x\\y".to_string(),
            timestamp: u64::MAX,
        },
    }
    .to_json();
    let j = Json::new(&text).as_record().unwrap();
    assert_eq!(j.get_text("id").unwrap(), "é\t\u{7f}/\u{8}\u{c}\r");
    let params = j.get("params").unwrap().as_record().unwrap();
    assert_eq!(params.get_text("origClientOrderId").unwrap(), "x\\y");
    assert_eq!(params.get_u64("timestamp"), Some(u64::MAX));
}

#[test]
fn answers_without_an_error_body_carry_their_status() {
    let resp: WsApiOrderResponse = from_text(r#"{"id":"x","status":429}"#).unwrap();
    match resp.into_result() {
        WsApiOrderResult::Refused(BinanceSpotError::OrderError { code, msg }) => {
            assert_eq!(code, 429);
            assert_eq!(msg, "ws-api order error (no error body)");
        }
        other => panic!("{other:?}"),
    }
    // A good status without a result is a refusal.
    let resp: WsApiOrderResponse =
        from_text(r#"{"id":"x","status":200,"error":{"code":-1,"msg":"m"}}"#).unwrap();
    assert!(matches!(
        resp.into_result(),
        WsApiOrderResult::Refused(BinanceSpotError::OrderError { code: -1, .. })
    ));
}

#[test]
fn cancel_response_becomes_an_order_response() {
    let json = r#"{"symbol":"BTCFDUSD","origClientOrderId":"a","orderId":9,"orderListId":-1,
        "clientOrderId":"b","transactTime":17,"price":"1","origQty":"2","executedQty":"0.5",
        "cummulativeQuoteQty":"0","status":"CANCELED","timeInForce":"IOC","type":"MARKET",
        "side":"SELL","selfTradePreventionMode":"NONE"}"#;
    let resp: CancelOrderResponse = from_text(json).unwrap();
    let resp = OrderResponse::from(resp);
    assert_eq!(resp.symbol, "btcfdusd");
    assert_eq!(resp.client_order_id, "b");
    assert_eq!(resp.working_time, 17);
    assert_eq!(resp.executed_qty, 500_000_000_000);
    assert_eq!(resp.side, Side::Sell);
    assert_eq!(resp.time_in_force, TimeInForce::IOC);
    assert_eq!(resp.order_type, OrdType::Market);
    assert!(resp.fills.is_empty());
    assert!(matches!(
        from_text::<CancelOrderResponseResult>(json),
        Some(CancelOrderResponseResult::Accepted(_))
    ));
    assert!(matches!(
        from_text::<CancelOrderResponseResult>(r#"{"code":1,"msg":""}"#),
        Some(CancelOrderResponseResult::Refused(_))
    ));
}

#[test]
fn market_frames_are_tried_in_order() {
    let trade = r#"{"e":"trade","E":1,"s":"A","t":2,"p":"1","q":"2","T":3,"m":true,"M":false}"#;
    assert!(matches!(
        from_text::<MarketStream>(trade),
        Some(MarketStream::EventStream(MarketEventStream::Trade(_)))
    ));
    let agg = r#"{"e":"aggTrade","E":1,"s":"A","a":2,"p":"1","q":"2","f":1,"l":2,"T":3,"m":true,"M":false}"#;
    assert!(matches!(
        from_text::<MarketStream>(agg),
        Some(MarketStream::EventStream(MarketEventStream::AggTrade(_)))
    ));
    let kline = r#"{"e":"kline","E":1,"s":"A","k":{"t":1,"T":2,"s":"A","i":"1m","f":1,"L":2,
        "o":"1","c":"1","h":"1","l":"1","v":"1","n":3,"x":false,"q":"1","V":"1","Q":"1","B":"0"}}"#;
    match from_text::<MarketStream>(kline) {
        Some(MarketStream::EventStream(MarketEventStream::Kline(e))) => {
            assert_eq!(e.kline.trade_count, 3);
            assert_eq!(e.kline.symbol, "a");
        }
        other => panic!("{other:?}"),
    }
    assert!(from_text::<MarketStream>(r#"{"e":"other"}"#).is_none());
    assert!(from_text::<MarketStream>("not json").is_none());
    assert!(from_text::<MarketStream>(r#"{"id":5,"result":null}"#).is_none());
}

#[test]
fn user_frames_are_tried_in_order() {
    let auth = r#"{"id":"a","status":200,"result":{"apiKey":"x","authorizedSince":1,"connectedSince":1,"returnRateLimits":true,"serverTime":1,"userDataStream":true},"rateLimits":[{"rateLimitType":"R","interval":"M","intervalNum":1,"limit":6000,"count":2}]}"#;
    match from_text::<UserStream>(auth) {
        Some(UserStream::AuthResponse(a)) => {
            assert_eq!(a.status, 200);
            assert_eq!(a.rate_limits.unwrap()[0].limit, 6000);
            assert_eq!(a.result.unwrap().api_key, "x");
        }
        other => panic!("{other:?}"),
    }
    // The result of a subscription is no logon result.
    let sub = r#"{"id":"a","status":200,"result":{"subscriptionId":0}}"#;
    match from_text::<UserStream>(sub) {
        Some(UserStream::SubscribeResponse(s)) => {
            assert_eq!(s.result.unwrap().text, r#"{"subscriptionId":0}"#);
        }
        other => panic!("{other:?}"),
    }
    // Without a result a frame is the answer to a logon.
    assert!(matches!(
        from_text::<UserStream>(r#"{"id":"a","status":200,"result":null}"#),
        Some(UserStream::AuthResponse(_))
    ));
    let list = r#"{"event":{"e":"listStatus","E":1,"s":"A","g":2,"c":"OCO","l":"R","L":"E","r":"NONE","C":"x","T":3,"O":[{"s":"A","i":1,"c":"y"}]}}"#;
    match from_text::<UserStream>(list) {
        Some(UserStream::EventStream(e)) => match e.event {
            UserEventStream::ListStatus(l) => assert_eq!(l.orders[0].symbol, "a"),
            other => panic!("{other:?}"),
        },
        other => panic!("{other:?}"),
    }
}

#[test]
fn times_beyond_the_range_of_nanoseconds_are_refused() {
    let depth = |e: &str| format!(r#"{{"e":"depthUpdate","E":{e},"s":"a","U":1,"u":2,"b":[],"a":[]}}"#);
    assert!(from_text::<MarketStream>(&depth("9223372036854")).is_some());
    assert!(from_text::<MarketStream>(&depth("9223372036855")).is_none());
    assert!(from_text::<MarketStream>(&depth("-9223372036854")).is_some());
    assert!(from_text::<MarketStream>(&depth("1.5")).is_none());
}

#[test]
fn messages_may_be_spelled_by_arrays() {
    let d: Depth = from_text(r#"[7, [["1","2"]], []]"#).unwrap();
    assert_eq!((d.last_update_id, d.asks.len(), d.bids.len()), (7, 1, 0));
    assert!(from_text::<Depth>(r#"[7, []]"#).is_none());
    assert!(from_text::<Depth>(r#"[7, [], [], 1]"#).is_none());
    // Defaults may be left out at the end.
    let r: WsApiOrderResponse = from_text(r#"["x", 400]"#).unwrap();
    assert!(r.result.is_none() && r.error.is_none());
    let r: WsApiOrderResponse = from_text(r#"["x", 400, null, [-2010, "no"]]"#).unwrap();
    assert_eq!(r.error.unwrap().code, -2010);
    // The type of an event comes first.
    match from_text::<MarketStream>(r#"["depthUpdate", 5, "BTC", 1, 2, [["1","2"]], []]"#) {
        Some(MarketStream::EventStream(MarketEventStream::DepthUpdate(d))) => {
            assert_eq!((d.symbol.as_str(), d.last_update_id), ("btc", 2));
        }
        other => panic!("{other:?}"),
    }
    assert!(matches!(
        from_text::<MarketStream>(r#"[null, "abc"]"#),
        Some(MarketStream::Result(r)) if r.id == "abc"
    ));
    assert!(from_text::<MarketStream>("[]").is_none());
    assert!(from_text::<MarketStream>("5").is_none());
}

#[test]
fn prices_of_the_stream_are_written_without_escapes() {
    let ticker = |bid: &str| {
        format!(r#"{{"u":1,"s":"B\u0054C","b":"{bid}","B":"1","a":"2","A":"1"}}"#)
    };
    match from_text::<MarketStream>(&ticker("1.5")) {
        Some(MarketStream::BookTicker(t)) => assert_eq!(t.symbol, "btc"),
        other => panic!("{other:?}"),
    }
    assert!(from_text::<MarketStream>(&ticker(r"1\u002e5")).is_none());
    let depth = |px: &str| {
        format!(r#"{{"e":"depthUpdate","E":1,"s":"a","U":1,"u":2,"b":[["{px}","1"]],"a":[]}}"#)
    };
    assert!(from_text::<MarketStream>(&depth("1.5")).is_some());
    assert!(from_text::<MarketStream>(&depth(r"1\u002e5")).is_none());
    // A snapshot of the REST interface is read either way.
    let d: Depth = from_text(r#"{"lastUpdateId":7,"bids":[["1\u002e5","2"]],"asks":[]}"#).unwrap();
    assert_eq!(d.bids[0].0, "1.5");
}

#[test]
fn what_is_not_read_may_hold_anything() {
    let text = r#"{"id":"x","status":400,"extra":1e999}"#;
    assert!(from_text::<WsApiOrderResponse>(text).is_some());
    // A frame whose kind is not known is held whole first.
    assert!(from_text::<UserStream>(text).is_none());
    assert!(from_text::<UserStream>(r#"{"id":"x","status":400,"extra":1e9}"#).is_some());
}

#[test]
fn snapshots_and_accounts_decode() {
    let d: Depth =
        from_text(r#"{"lastUpdateId":7,"bids":[["1","2"]],"asks":[["3","4"],["5","6"]]}"#).unwrap();
    assert_eq!(d.last_update_id, 7);
    assert_eq!(d.asks[1], ("5".to_string(), "6".to_string()));
    assert!(from_text::<Depth>(r#"{"lastUpdateId":7,"bids":[["1"]],"asks":[]}"#).is_none());
    let a: AccountInfomation = from_text(
        r#"{"makerCommission":1,"takerCommission":2,"buyerCommission":3,"sellerCommission":4,
        "commissionRates":{"maker":"0.1","taker":"0.2","buyer":"0","seller":"0"},
        "canTrade":true,"canWithdraw":false,"canDeposit":true,"brokered":false,
        "requireSelfTradePrevention":false,"preventSor":false,"updateTime":123,
        "accountType":"SPOT","balances":[{"asset":"BTC","free":"1.5","locked":"0"}],
        "permissions":["SPOT"],"uid":77}"#,
    )
    .unwrap();
    assert_eq!(a.balances[0].asset, "btc");
    assert_eq!(a.balances[0].free, 1_500_000_000_000);
    assert_eq!(a.commission_rates.taker, 200_000_000_000);
    assert_eq!(a.permissions, vec!["SPOT".to_string()]);
}
