use binance_ws::feed::{
    decode_frame_value, decode_snapshot, decode_snapshot_value, decode_stream_frame,
    decode_update, snapshot_url, stream_symbols, stream_url,
};

fn pairs(levels: &[(&str, &str)]) -> Vec<(String, String)> {
    levels.iter().map(|(p, q)| (p.to_string(), q.to_string())).collect()
}

const FRAME: &str = r#"{"stream":"btcusdt@depth@100ms","data":{"e":"depthUpdate","E":1,"s":"btcusdt","U":5,"u":9,"b":[["50000.0","5"],["49999.37","3.3"]],"a":[["50001.0","2"]]}}"#;

#[test]
fn a_stream_frame_is_decoded() {
    let update = decode_stream_frame(FRAME).unwrap();
    assert_eq!(update.symbol, "BTCUSDT");
    assert_eq!(update.bids, pairs(&[("50000.0", "5"), ("49999.37", "3.3")]));
    assert_eq!(update.asks, pairs(&[("50001.0", "2")]));
    assert_eq!(update.update_id, 9);
}

#[test]
fn the_symbol_of_a_frame_is_recased() {
    let frame = r#"{"data":{"s":"EthUsdt","u":1,"b":[],"a":[]}}"#;
    let update = decode_stream_frame(frame).unwrap();
    assert_eq!(update.symbol, "ETHUSDT");
    assert!(update.bids.is_empty());
    assert!(update.asks.is_empty());
}

#[test]
fn text_of_prices_is_kept_as_written() {
    let frame = r#"{"data":{"s":"x","u":1,"b":[["0050.100","1e3"],["abc",""]],"a":[]}}"#;
    let update = decode_stream_frame(frame).unwrap();
    assert_eq!(update.bids, pairs(&[("0050.100", "1e3"), ("abc", "")]));
}

#[test]
fn entries_longer_than_a_pair_are_read_by_their_first_two() {
    let frame = r#"{"data":{"s":"x","u":1,"b":[["1","2",[]]],"a":[]}}"#;
    let update = decode_stream_frame(frame).unwrap();
    assert_eq!(update.bids, pairs(&[("1", "2")]));
}

#[test]
fn malformed_frames_are_dropped() {
    let dropped = [
        "",
        "not json",
        "[]",
        "{}",
        r#"{"data":5}"#,
        r#"{"data":{"u":1,"b":[],"a":[]}}"#,
        r#"{"data":{"s":7,"u":1,"b":[],"a":[]}}"#,
        r#"{"data":{"s":"x","b":[],"a":[]}}"#,
        r#"{"data":{"s":"x","u":"1","b":[],"a":[]}}"#,
        r#"{"data":{"s":"x","u":-1,"b":[],"a":[]}}"#,
        r#"{"data":{"s":"x","u":1.5,"b":[],"a":[]}}"#,
        r#"{"data":{"s":"x","u":1,"a":[]}}"#,
        r#"{"data":{"s":"x","u":1,"b":[]}}"#,
        r#"{"data":{"s":"x","u":1,"b":{},"a":[]}}"#,
        r#"{"data":{"s":"x","u":1,"b":[["1"]],"a":[]}}"#,
        r#"{"data":{"s":"x","u":1,"b":[[1,2]],"a":[]}}"#,
        r#"{"data":{"s":"x","u":1,"b":[["1",2]],"a":[]}}"#,
        r#"{"data":{"s":"x","u":1,"b":["1","2"],"a":[]}}"#,
        r#"{"data":{"s":"x","u":1,"b":[["1","2"]],"a":[["3","4"],null]}}"#,
        r#"{"data":{"s":"x","u":1,"b":[],"a":[]}"#,
    ];
    for frame in dropped {
        assert!(decode_stream_frame(frame).is_none(), "{}", frame);
    }
}

#[test]
fn a_parsed_frame_is_decoded() {
    let value: serde_json::Value = serde_json::from_str(FRAME).unwrap();
    let update = decode_frame_value(&value).unwrap();
    assert_eq!(update.symbol, "BTCUSDT");
    assert_eq!(update.update_id, 9);
    assert!(decode_frame_value(&serde_json::Value::Null).is_none());
}

#[test]
fn a_snapshot_is_decoded() {
    let body = r#"{"lastUpdateId":1027024,"bids":[["4.00000000","431.00000000"]],"asks":[["4.00000200","12.00000000"]]}"#;
    let update = decode_snapshot("bnbusdt", body).unwrap();
    assert_eq!(update.symbol, "BNBUSDT");
    assert_eq!(update.bids, pairs(&[("4.00000000", "431.00000000")]));
    assert_eq!(update.asks, pairs(&[("4.00000200", "12.00000000")]));
    assert_eq!(update.update_id, 1027024);
    let value: serde_json::Value = serde_json::from_str(body).unwrap();
    let again = decode_snapshot_value("bnbusdt", &value).unwrap();
    assert_eq!(again.symbol, "BNBUSDT");
    assert_eq!(again.update_id, 1027024);
}

#[test]
fn malformed_snapshots_are_dropped() {
    assert!(decode_snapshot("x", "").is_none());
    assert!(decode_snapshot("x", r#"{"code":-1121,"msg":"Invalid symbol."}"#).is_none());
    assert!(decode_snapshot("x", r#"{"bids":[],"asks":[]}"#).is_none());
    assert!(decode_snapshot("x", r#"{"lastUpdateId":1,"bids":[]}"#).is_none());
    assert!(decode_snapshot("x", r#"{"lastUpdateId":1,"bids":[],"asks":[]}"#).is_some());
}

#[test]
fn a_normalized_update_is_decoded() {
    let value: serde_json::Value = serde_json::from_str(
        r#"{"symbol":"BTCUSDT","bids":[["2","1"],["3","1"]],"asks":[["4","1"]],"lastUpdateId":5}"#,
    )
    .unwrap();
    let update = decode_update(&value).unwrap();
    assert_eq!(update.symbol, "BTCUSDT");
    assert_eq!(update.bids, pairs(&[("2", "1"), ("3", "1")]));
    assert_eq!(update.asks, pairs(&[("4", "1")]));
    assert_eq!(update.update_id, 5);
}

#[test]
fn the_symbol_of_a_normalized_update_is_taken_as_written() {
    let value: serde_json::Value =
        serde_json::from_str(r#"{"symbol":"btcusdt","bids":[],"asks":[],"lastUpdateId":5}"#)
            .unwrap();
    assert_eq!(decode_update(&value).unwrap().symbol, "btcusdt");
}

#[test]
fn malformed_updates_are_dropped() {
    for text in [
        r#"{"bids":[],"asks":[],"lastUpdateId":5}"#,
        r#"{"symbol":null,"bids":[],"asks":[],"lastUpdateId":5}"#,
        r#"{"symbol":"X","asks":[],"lastUpdateId":5}"#,
        r#"{"symbol":"X","bids":[],"asks":[]}"#,
        r#"{"symbol":"X","bids":[["1"]],"asks":[],"lastUpdateId":5}"#,
        r#"["symbol","bids","asks","lastUpdateId"]"#,
        r#""symbol""#,
    ] {
        let value: serde_json::Value = serde_json::from_str(text).unwrap();
        assert!(decode_update(&value).is_none(), "{}", text);
    }
}

#[test]
fn the_stream_address_names_every_topic() {
    assert_eq!(
        stream_url(&stream_symbols()),
        "wss://stream.binance.com:9443/stream?streams=btcusdt@depth@100ms/ethusdt@depth@100ms/bnbusdt@depth@100ms/xrpusdt@depth@100ms"
    );
    assert_eq!(
        stream_url(&vec!["abc".to_string()]),
        "wss://stream.binance.com:9443/stream?streams=abc@depth@100ms"
    );
    assert_eq!(stream_url(&Vec::new()), "wss://stream.binance.com:9443/stream?streams=");
}

#[test]
fn the_stream_symbols_are_the_configured_ones_in_lower_case() {
    assert_eq!(stream_symbols(), vec!["btcusdt", "ethusdt", "bnbusdt", "xrpusdt"]);
    let app = binance_ws::App::new(0);
    let upper: Vec<String> = stream_symbols().iter().map(|s| s.to_uppercase()).collect();
    let books: Vec<String> = app.order_books.iter().map(|b| b.symbol.clone()).collect();
    assert_eq!(upper, books);
}

#[test]
fn the_snapshot_address_names_the_symbol_in_upper_case() {
    assert_eq!(
        snapshot_url("btcusdt"),
        "https://api.binance.com/api/v3/depth?symbol=BTCUSDT&limit=20"
    );
}
