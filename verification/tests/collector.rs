use connector::collector::file::{file_name, RotatingFile, Writer};
use connector::collector::http::{
    classify_stream, connect, depth_snapshot_url, fetch_symbol_list, keep_connection, stream_url,
    symbols_of, Next, Outcome, SocketAction, SocketEvent, WS_MARKET, WS_PUBLIC,
};
use connector::json::Json;

#[test]
fn routes_um_streams_to_endpoints() {
    // trades + mark price + liquidations -> /market
    assert_eq!(classify_stream("$symbol@trade"), "market");
    assert_eq!(classify_stream("$symbol@aggTrade"), "market");
    assert_eq!(classify_stream("$symbol@markPrice@1s"), "market");
    assert_eq!(classify_stream("$symbol@forceOrder"), "market");
    // book + depth -> /public
    assert_eq!(classify_stream("$symbol@bookTicker"), "public");
    assert_eq!(classify_stream("$symbol@depth@0ms"), "public");
    assert_eq!(classify_stream("$symbol@depth"), "public");
}

#[test]
fn classifies_streams_without_a_symbol_and_unknown_ones() {
    assert_eq!(classify_stream("trade"), "market");
    assert_eq!(classify_stream("$symbol@markPrice"), "market");
    assert_eq!(classify_stream("$symbol@trade@x"), "public");
    assert_eq!(classify_stream(""), "public");
    assert_eq!(classify_stream("@depthtrade"), "public");
    assert_eq!(WS_PUBLIC, "wss://fstream.binance.com/public");
    assert_eq!(WS_MARKET, "wss://fstream.binance.com/market");
}

#[test]
fn keeps_the_perpetual_symbols_in_order() {
    let text = r#"{"symbols":[
        {"symbol":"BTCUSDT","contractType":"PERPETUAL"},
        {"symbol":"BTCUSDT_240628","contractType":"CURRENT_QUARTER"},
        {"symbol":"ETHUSDT","contractType":"PERPETUAL"}]}"#;
    let symbols = symbols_of(text).unwrap();
    assert_eq!(symbols, vec!["BTCUSDT".to_string(), "ETHUSDT".to_string()]);
}

#[test]
fn refuses_a_document_that_lists_no_symbols() {
    assert!(symbols_of("{").is_none());
    assert!(symbols_of("{}").is_none());
    assert!(symbols_of(r#"{"symbols":{}}"#).is_none());
    assert!(symbols_of(r#"{"symbols":[{"symbol":"A"}]}"#).is_none());
    assert!(symbols_of(r#"{"symbols":[["PERPETUAL","A"]]}"#).is_none());
    let without_name = r#"{"symbols":[{"contractType":"PERPETUAL"}]}"#;
    assert!(fetch_symbol_list(&Json::new(without_name)).is_none());
    // The symbol of a contract that is not perpetual is not asked for.
    let quarter = r#"{"symbols":[{"contractType":"CURRENT_QUARTER"}]}"#;
    assert_eq!(fetch_symbol_list(&Json::new(quarter)).unwrap().len(), 0);
}

#[test]
fn asks_for_a_snapshot_of_the_symbol() {
    assert_eq!(
        depth_snapshot_url("BTCUSDT"),
        "https://fapi.binance.com/fapi/v1/depth?symbol=BTCUSDT&limit=1000"
    );
}

#[test]
fn connection_events_have_their_actions() {
    assert_eq!(connect(SocketEvent::Text), SocketAction::Forward);
    assert_eq!(connect(SocketEvent::ForwardFailed), SocketAction::Finish);
    assert_eq!(connect(SocketEvent::Ping), SocketAction::Pong);
    assert_eq!(connect(SocketEvent::PongFailed), SocketAction::Closed);
    assert_eq!(connect(SocketEvent::Close), SocketAction::Closed);
    assert_eq!(connect(SocketEvent::Other), SocketAction::Ignore);
    assert_eq!(connect(SocketEvent::Failed), SocketAction::Failed);
    assert_eq!(connect(SocketEvent::Ended), SocketAction::Finish);
    assert_eq!(connect(SocketEvent::Tick(300_000_000_000)), SocketAction::Ignore);
    assert_eq!(connect(SocketEvent::Tick(300_000_000_001)), SocketAction::TimedOut);
}

#[test]
fn joins_the_streams_of_all_symbols() {
    let streams = vec!["$symbol@trade".to_string(), "$symbol@depth@0ms".to_string()];
    let symbols = vec!["BTCUSDT".to_string(), "EthUSDT".to_string()];
    assert_eq!(
        stream_url(WS_MARKET, &streams, &symbols),
        "wss://fstream.binance.com/market/stream?streams=btcusdt@trade/btcusdt@depth@0ms/ethusdt@trade/ethusdt@depth@0ms"
    );
    assert_eq!(stream_url("u", &streams, &Vec::new()), "u/stream?streams=");
}

#[test]
fn pauses_after_repeated_errors() {
    let after = |errors: u32, lived: u128| {
        match keep_connection(errors, Outcome::Failed(lived), "u", &Vec::new(), &Vec::new()) {
            Next::Connect { errors, pause, .. } => (errors, pause),
            Next::Stop => panic!("an error must not stop the connections"),
        }
    };
    assert_eq!(after(0, 0), (1, 0));
    assert_eq!(after(2, 30_000_000_000), (3, 0));
    assert_eq!(after(3, 0), (4, 1));
    assert_eq!(after(25, 0), (26, 1));
    assert_eq!(after(25, 30_000_000_001), (0, 0));
    assert_eq!(after(u32::MAX, 0), (u32::MAX, 1));
}

#[test]
fn connects_again_until_a_connection_ends_without_an_error() {
    let streams = vec!["$symbol@trade".to_string(), "$symbol@aggTrade".to_string()];
    let symbols = vec!["BTCUSDT".to_string(), "ETHUSDT".to_string()];
    let mut urls: Vec<String> = Vec::new();
    let mut errors = 0;
    for outcome in [Outcome::Unstarted, Outcome::Failed(5), Outcome::Ended] {
        match keep_connection(errors, outcome, WS_MARKET, &streams, &symbols) {
            Next::Connect { errors: count, pause, url } => {
                assert_eq!(pause, 0);
                errors = count;
                urls.push(url);
            }
            Next::Stop => assert_eq!(outcome, Outcome::Ended),
        }
    }
    assert_eq!(errors, 1);
    let url = "wss://fstream.binance.com/market/stream?streams=btcusdt@trade/btcusdt@aggTrade/ethusdt@trade/ethusdt@aggTrade";
    assert_eq!(urls, vec![url.to_string(), url.to_string()]);
    // A connection that never was is no error, whatever came before.
    match keep_connection(9, Outcome::Unstarted, "u", &streams, &symbols) {
        Next::Connect { errors, pause, .. } => assert_eq!((errors, pause), (9, 0)),
        other => panic!("{other:?}"),
    }
}

const DAY: i64 = 86_400_000_000_000;

#[test]
fn names_files_by_day_and_session() {
    assert_eq!(file_name("d/btc", "20240101", "s1"), "d/btc_20240101_s1.gz");
    assert_eq!(RotatingFile::create(0, "d/btc", "s1"), "d/btc_19700101_s1.gz");
    assert_eq!(RotatingFile::create(-1, "d/btc", "s1"), "d/btc_19691231_s1.gz");
    // 2024-02-29 is day 19782.
    assert_eq!(RotatingFile::create(19_782 * DAY + 5, "x", "y"), "x_20240229_y.gz");
    assert_eq!(RotatingFile::create(i64::MIN, "x", "y"), "x_16770921_y.gz");
    assert_eq!(RotatingFile::create(i64::MAX, "x", "y"), "x_22620411_y.gz");
}

#[test]
fn rotates_when_the_day_changes() {
    let mut file = RotatingFile::new(DAY - 1, "d/btc".to_string(), "s".to_string());
    let step = file.write(DAY - 1, "{}");
    assert_eq!(step.open, None);
    assert_eq!(step.line, "86399999999999 {}\n");
    let step = file.write(DAY, "{}");
    assert_eq!(step.open, Some("d/btc_19700102_s.gz".to_string()));
    file.opened(DAY);
    assert_eq!(file.write(DAY + 1, "a").open, None);
    // A time of the day before opens that day's file again.
    assert_eq!(file.write(0, "a").open, Some("d/btc_19700101_s.gz".to_string()));
}

#[test]
fn writer_keeps_one_file_for_each_symbol() {
    let mut writer = Writer::new("out", "s");
    let step = writer.write(5, "BTCusdt", "data").unwrap();
    assert_eq!(step.key, "btcusdt");
    assert_eq!(step.open, Some("out/btcusdt_19700101_s.gz".to_string()));
    assert_eq!(step.line, "5 data\n");
    writer.opened(&step.key, 5);
    assert_eq!(writer.write(6, "btcUSDT", "more").unwrap().open, None);
    assert_eq!(
        writer.write(6, "ethusdt", "more").unwrap().open,
        Some("out/ethusdt_19700101_s.gz".to_string())
    );
    assert_eq!(
        writer.write(DAY, "btcusdt", "x").unwrap().open,
        Some("out/btcusdt_19700102_s.gz".to_string())
    );
}

#[test]
fn writer_knows_which_files_were_lost() {
    let mut writer = Writer::new("out", "s");
    writer.lost("btcusdt");
    assert!(writer.write(0, "BTCUSDT", "x").is_some());
    writer.opened("btcusdt", 0);
    assert!(writer.write(0, "BTCUSDT", "x").is_some());
    writer.lost("btcusdt");
    assert!(writer.write(0, "BTCUSDT", "x").is_none());
    assert!(writer.write(0, "ethusdt", "x").is_some());
}
