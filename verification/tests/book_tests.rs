use binance_ws::book::{find_book, sorted_side, OrderBook, OrderBookEntry, OrderSide};
use binance_ws::decimal::parse_decimal;
use binance_ws::feed::DepthUpdate;
use binance_ws::{App, HISTORY_DROP, HISTORY_LIMIT};

fn pairs(levels: &[(&str, &str)]) -> Vec<(String, String)> {
    levels.iter().map(|(p, q)| (p.to_string(), q.to_string())).collect()
}

fn update(symbol: &str, bids: &[(&str, &str)], asks: &[(&str, &str)], id: u64) -> DepthUpdate {
    DepthUpdate { symbol: symbol.to_string(), bids: pairs(bids), asks: pairs(asks), update_id: id }
}

fn prices(side: &[OrderBookEntry]) -> Vec<&str> {
    side.iter().map(|e| e.price.as_str()).collect()
}

fn value(entry: &OrderBookEntry) -> i128 {
    parse_decimal(&entry.price).unwrap().units
}

#[test]
fn bids_are_ordered_by_falling_price() {
    let side = sorted_side(&pairs(&[("2", "a"), ("10", "b"), ("9.5", "c"), ("100", "d")]), true);
    assert_eq!(prices(&side), vec!["100", "10", "9.5", "2"]);
    assert_eq!(side[1].quantity, "b");
}

#[test]
fn asks_are_ordered_by_rising_price() {
    let side = sorted_side(&pairs(&[("2", "a"), ("10", "b"), ("9.5", "c"), ("100", "d")]), false);
    assert_eq!(prices(&side), vec!["2", "9.5", "10", "100"]);
}

#[test]
fn prices_are_ordered_by_value_not_by_text() {
    let side = sorted_side(&pairs(&[("9", "1"), ("10", "1"), ("0100", "1"), ("-1", "1")]), false);
    assert_eq!(prices(&side), vec!["-1", "9", "10", "0100"]);
}

#[test]
fn levels_of_one_price_keep_their_order() {
    let received = pairs(&[("1.0", "a"), ("2", "b"), ("1.00", "c"), ("1", "d"), ("2.0", "e")]);
    let rising = sorted_side(&received, false);
    assert_eq!(prices(&rising), vec!["1.0", "1.00", "1", "2", "2.0"]);
    let falling = sorted_side(&received, true);
    assert_eq!(prices(&falling), vec!["2", "2.0", "1.0", "1.00", "1"]);
}

#[test]
fn levels_whose_price_does_not_parse_are_left_out() {
    let side = sorted_side(&pairs(&[("abc", "1"), ("3", "x"), ("", "1"), ("1e3", "1")]), true);
    assert_eq!(prices(&side), vec!["3"]);
    assert_eq!(side[0].quantity, "x");
    assert!(!side[0].is_likely_human);
}

#[test]
fn an_empty_side_stays_empty() {
    assert!(sorted_side(&Vec::new(), true).is_empty());
    assert!(sorted_side(&Vec::new(), false).is_empty());
}

#[test]
fn apply_orders_both_sides_of_the_book() {
    let mut app = App::new(0);
    app.apply(
        &update(
            "BTCUSDT",
            &[("49999.37", "3.3"), ("50000.0", "5"), ("bad", "1"), ("49000", "1")],
            &[("50002.91", "7.77"), ("50001.0", "2"), ("50001.5", "1")],
            17,
        ),
        1234,
    );
    let book = &app.order_books[0];
    assert_eq!(book.symbol, "BTCUSDT");
    assert_eq!(prices(&book.bids), vec!["50000.0", "49999.37", "49000"]);
    assert_eq!(prices(&book.asks), vec!["50001.0", "50001.5", "50002.91"]);
    for pair in book.bids.windows(2) {
        assert!(value(&pair[0]) >= value(&pair[1]));
    }
    for pair in book.asks.windows(2) {
        assert!(value(&pair[0]) <= value(&pair[1]));
    }
    assert_eq!(book.last_update, 1234);
    assert_eq!(book.last_update_id, 17);
}

#[test]
fn apply_replaces_the_book_wholesale() {
    let mut app = App::new(0);
    app.apply(&update("ETHUSDT", &[("3", "1"), ("2", "1")], &[("4", "1")], 1), 10);
    app.apply(&update("ETHUSDT", &[("1", "9")], &[], 2), 20);
    let book = &app.order_books[1];
    assert_eq!(prices(&book.bids), vec!["1"]);
    assert!(book.asks.is_empty());
    assert_eq!(book.last_update, 20);
    assert_eq!(book.last_update_id, 2);
}

#[test]
fn apply_leaves_other_books_alone() {
    let mut app = App::new(5);
    app.apply(&update("ETHUSDT", &[("3", "1")], &[("4", "1")], 1), 10);
    app.apply(&update("BNBUSDT", &[("7", "1")], &[("8", "1")], 2), 20);
    assert_eq!(prices(&app.order_books[1].bids), vec!["3"]);
    assert_eq!(app.order_books[1].last_update, 10);
    assert_eq!(prices(&app.order_books[2].bids), vec!["7"]);
    assert!(app.order_books[0].bids.is_empty());
    assert_eq!(app.order_books[0].last_update, 5);
    assert!(app.order_books[3].asks.is_empty());
}

#[test]
fn an_update_for_an_unknown_symbol_is_ignored() {
    let mut app = App::new(0);
    app.apply(&update("DOGEUSDT", &[("3", "1")], &[("4", "1")], 1), 10);
    app.apply(&update("btcusdt", &[("3", "1")], &[("4", "1")], 1), 10);
    assert_eq!(app.order_books.len(), 4);
    for book in &app.order_books {
        assert!(book.bids.is_empty());
        assert!(book.asks.is_empty());
        assert_eq!(book.last_update, 0);
    }
    assert!(app.message_history.is_empty());
}

#[test]
fn apply_notes_the_top_of_the_book() {
    let mut app = App::new(0);
    app.apply(&update("XRPUSDT", &[("1", "10"), ("2", "20")], &[("3", "30")], 1), 99);
    assert_eq!(app.message_history.len(), 1);
    let message = &app.message_history[0];
    assert_eq!(message.timestamp, 99);
    assert_eq!(message.symbol, "XRPUSDT");
    assert_eq!(message.price, "2");
    assert_eq!(message.quantity, "20");
    assert_eq!(message.side, OrderSide::Bid);
    assert!(!message.is_human);
    app.apply(&update("XRPUSDT", &[], &[("5", "50"), ("4", "40")], 2), 100);
    assert_eq!(app.message_history.len(), 2);
    let message = &app.message_history[1];
    assert_eq!(message.price, "4");
    assert_eq!(message.quantity, "40");
    assert_eq!(message.side, OrderSide::Ask);
    app.apply(&update("XRPUSDT", &[], &[("x", "1")], 3), 101);
    assert_eq!(app.message_history.len(), 2);
    assert_eq!(app.order_books[3].last_update, 101);
}

#[test]
fn an_overfull_history_drops_its_oldest_half() {
    assert_eq!(HISTORY_LIMIT, 10000);
    assert_eq!(HISTORY_DROP, 5000);
    let mut app = App::new(0);
    for i in 0..10000u64 {
        app.apply(&update("BTCUSDT", &[("1", "1")], &[], i), i);
    }
    assert_eq!(app.message_history.len(), 10000);
    assert_eq!(app.message_history[0].timestamp, 0);
    app.apply(&update("BTCUSDT", &[("1", "1")], &[], 10000), 10000);
    assert_eq!(app.message_history.len(), 5001);
    assert_eq!(app.message_history[0].timestamp, 5000);
    assert_eq!(app.message_history[5000].timestamp, 10000);
}

#[test]
fn add_to_history_drops_the_oldest_message_when_full() {
    let mut app = App::new(0);
    let entry = |price: &str| OrderBookEntry {
        price: price.to_string(),
        quantity: "1".to_string(),
        is_likely_human: true,
    };
    app.add_to_history(entry("5"), OrderSide::Ask, 3);
    assert_eq!(app.message_history.len(), 1);
    assert_eq!(app.message_history[0].symbol, "BTCUSDT");
    assert_eq!(app.message_history[0].price, "5");
    assert_eq!(app.message_history[0].quantity, "1");
    assert_eq!(app.message_history[0].side, OrderSide::Ask);
    assert_eq!(app.message_history[0].timestamp, 3);
    assert!(app.message_history[0].is_human);
    for i in 1..10000u64 {
        app.add_to_history(entry("6"), OrderSide::Bid, i);
    }
    assert_eq!(app.message_history.len(), 10000);
    app.add_to_history(entry("7"), OrderSide::Bid, 20000);
    assert_eq!(app.message_history.len(), 10000);
    assert_eq!(app.message_history[0].price, "6");
    assert_eq!(app.message_history[0].timestamp, 1);
    assert_eq!(app.message_history[9999].price, "7");
}

#[test]
fn find_book_gives_the_first_book_of_a_symbol() {
    let books = vec![
        OrderBook::new("A".to_string(), 0),
        OrderBook::new("B".to_string(), 0),
        OrderBook::new("A".to_string(), 0),
    ];
    assert_eq!(find_book(&books, &"A".to_string()), 0);
    assert_eq!(find_book(&books, &"B".to_string()), 1);
    assert_eq!(find_book(&books, &"C".to_string()), 3);
    assert_eq!(find_book(&Vec::new(), &"A".to_string()), 0);
}

#[test]
fn a_new_book_is_empty() {
    let book = OrderBook::new("BTCUSDT".to_string(), 42);
    assert_eq!(book.symbol, "BTCUSDT");
    assert!(book.bids.is_empty());
    assert!(book.asks.is_empty());
    assert_eq!(book.last_update, 42);
    assert_eq!(book.last_update_id, 0);
}

#[test]
fn the_total_of_a_level_is_price_times_quantity() {
    let entry = |p: &str, q: &str| OrderBookEntry {
        price: p.to_string(),
        quantity: q.to_string(),
        is_likely_human: false,
    };
    let scale = binance_ws::decimal::SCALE;
    assert_eq!(entry("50000.0", "5").total().unwrap().units, 250_000 * scale);
    assert_eq!(entry("0.25", "0.5").total().unwrap().units, scale / 8);
    assert_eq!(entry("abc", "5").total().unwrap().units, 0);
    assert_eq!(entry("5", "").total().unwrap().units, 0);
    assert!(entry("999999999999999999", "999999999999999999").total().is_none());
}

#[test]
fn history_for_orders_notes_every_level() {
    let entry = |p: &str| OrderBookEntry {
        price: p.to_string(),
        quantity: "1".to_string(),
        is_likely_human: false,
    };
    let mut app = App::new(0);
    app.next_symbol();
    app.update_history_for_orders(&vec![entry("3"), entry("2")], &vec![entry("4")], 55);
    let noted: Vec<(&str, OrderSide, &str, u64)> = app
        .message_history
        .iter()
        .map(|m| (m.price.as_str(), m.side, m.symbol.as_str(), m.timestamp))
        .collect();
    assert_eq!(
        noted,
        vec![
            ("3", OrderSide::Bid, "ETHUSDT", 55),
            ("2", OrderSide::Bid, "ETHUSDT", 55),
            ("4", OrderSide::Ask, "ETHUSDT", 55)
        ]
    );
}

#[test]
fn history_for_orders_keeps_the_newest_messages() {
    let entry = |p: String| OrderBookEntry { price: p, quantity: "1".to_string(), is_likely_human: false };
    let mut app = App::new(0);
    let bids: Vec<OrderBookEntry> = (0..9999).map(|i| entry(format!("{}", i))).collect();
    let asks: Vec<OrderBookEntry> = (0..3).map(|i| entry(format!("a{}", i))).collect();
    app.update_history_for_orders(&bids, &asks, 1);
    assert_eq!(app.message_history.len(), 10000);
    assert_eq!(app.message_history[0].price, "2");
    assert_eq!(app.message_history[9996].price, "9998");
    assert_eq!(app.message_history[9999].price, "a2");
}

#[test]
fn the_age_of_a_message_is_split_into_hours_minutes_and_seconds() {
    let message = binance_ws::book::OrderBookMessage {
        timestamp: 1_000,
        symbol: "BTCUSDT".to_string(),
        is_human: false,
        price: "1".to_string(),
        quantity: "1".to_string(),
        side: OrderSide::Bid,
    };
    assert_eq!(message.age(1_000), (0, 0, 0));
    assert_eq!(message.age(1_999), (0, 0, 0));
    assert_eq!(message.age(2_000), (0, 0, 1));
    assert_eq!(message.age(1_000 + 3_725_000), (1, 2, 5));
    assert_eq!(message.age(1_000 + 86_399_999), (23, 59, 59));
    assert_eq!(message.age(500), (0, 0, 0));
    // 18446744073709550 seconds are 5124095576030 hours and 1550 seconds.
    assert_eq!(message.age(u64::MAX), (5_124_095_576_030, 25, 50));
}
