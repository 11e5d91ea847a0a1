use arbitrage::book_delta::handle_delta;
use arbitrage::decimal::Dec;
use arbitrage::feeds::{
    apply_delta_event, exchange_event, next_page_cursor, order_book_event, parse_levels, subscription_topics, FeedError,
    FeedEvent,
};
use arbitrage::model::{Instrument, OrderBook, OrderBookDeltaEvent, OrderData};

const MINUTE: i64 = 60_000_000_000;

fn d(m: i128, s: u32) -> Dec {
    Dec::new(m, s)
}

fn lv(price: i128, size: i128) -> OrderData {
    OrderData { price: d(price, 0), size: d(size, 0) }
}

fn book(ts: i64, asks: Vec<OrderData>, bids: Vec<OrderData>) -> OrderBook {
    OrderBook { id: None, timestamp: ts, asks, bids }
}

fn same_levels(a: &[OrderData], b: &[OrderData]) -> bool {
    a.len() == b.len() && a.iter().zip(b.iter()).all(|(x, y)| x.price == y.price && x.size == y.size)
}

#[test]
fn first_book_goes_out_whole() {
    let new = book(5, vec![lv(101, 1)], vec![lv(100, 1)]);
    match order_book_event(None, &new, 3) {
        FeedEvent::Full(e) => {
            assert_eq!(e.instrument_id, 3);
            assert_eq!(e.order_book.timestamp, 5);
            assert!(same_levels(&e.order_book.asks, &new.asks));
        },
        FeedEvent::Delta(_) => panic!("no previous book"),
    }
    let half = book(1, vec![], vec![lv(100, 1)]);
    assert!(matches!(order_book_event(Some(&half), &new, 3), FeedEvent::Full(_)));
}

#[test]
fn later_books_go_out_as_deltas_that_rebuild_them() {
    let prev = book(1, vec![lv(101, 1), lv(102, 2)], vec![lv(100, 1)]);
    let new = book(2, vec![lv(101, 3)], vec![lv(100, 1), lv(99, 4)]);
    match order_book_event(Some(&prev), &new, 3) {
        FeedEvent::Delta(e) => {
            assert_eq!(e.timestamp, 2);
            assert!(same_levels(&e.asks, &[lv(101, 3), lv(102, 0)]));
            assert!(same_levels(&e.bids, &[lv(99, 4)]));
            let mut asks = prev.asks.clone();
            handle_delta(&e.asks, &mut asks);
            assert!(same_levels(&asks, &new.asks));
        },
        FeedEvent::Full(_) => panic!("both sides were there"),
    }
}

#[test]
fn stored_book_is_saved_whole_every_ten_minutes() {
    let mut ob = book(9 * MINUTE, vec![lv(101, 1)], vec![lv(100, 1)]);
    let early = OrderBookDeltaEvent { instrument_id: 1, timestamp: 9 * MINUTE + 30_000_000_000, asks: vec![lv(101, 0)], bids: vec![] };
    assert!(!apply_delta_event(&mut ob, &early));
    assert!(ob.asks.is_empty());
    assert_eq!(ob.timestamp, early.timestamp);
    let late = OrderBookDeltaEvent { instrument_id: 1, timestamp: 10 * MINUTE, asks: vec![lv(103, 2)], bids: vec![] };
    assert!(apply_delta_event(&mut ob, &late));
    assert!(same_levels(&ob.asks, &[lv(103, 2)]));
}

fn texts(items: &[&[&str]]) -> Vec<Vec<String>> {
    items.iter().map(|i| i.iter().map(|s| s.to_string()).collect()).collect()
}

#[test]
fn levels_parse_from_texts() {
    let levels = parse_levels(&texts(&[&["101.5", "2"], &["100", "0.25"]])).unwrap();
    assert!(same_levels(&levels, &[OrderData { price: d(1015, 1), size: d(2, 0) }, OrderData { price: d(100, 0), size: d(25, 2) }]));
    assert!(parse_levels(&texts(&[&["101.5"]])).is_none());
    assert!(parse_levels(&texts(&[&["abc", "1"]])).is_none());
}

fn instrument(id: Option<i16>, symbol: &str) -> Instrument {
    Instrument {
        id,
        symbol: symbol.to_string(),
        status: "Trading".to_string(),
        base_coin: "BTC".to_string(),
        quote_coin: "USDT".to_string(),
    }
}

#[test]
fn exchange_messages_become_events() {
    let instruments = vec![instrument(Some(4), "BTCUSDT"), instrument(None, "ETHUSDT")];
    let asks = texts(&[&["101", "1"]]);
    let bids = texts(&[&["100", "2"]]);
    match exchange_event(&instruments, "BTCUSDT", "snapshot", 7, &asks, &bids).unwrap() {
        Some(FeedEvent::Full(e)) => {
            assert_eq!(e.instrument_id, 4);
            assert_eq!(e.order_book.timestamp, 7);
            assert!(same_levels(&e.order_book.bids, &[lv(100, 2)]));
        },
        _ => panic!("a snapshot gives the whole book"),
    }
    match exchange_event(&instruments, "BTCUSDT", "delta", 8, &asks, &bids).unwrap() {
        Some(FeedEvent::Delta(e)) => assert!(same_levels(&e.asks, &[lv(101, 1)])),
        _ => panic!("a delta gives a delta"),
    }
    assert!(exchange_event(&instruments, "BTCUSDT", "other", 8, &asks, &bids).unwrap().is_none());
    assert_eq!(
        exchange_event(&instruments, "SOLUSDT", "delta", 8, &asks, &bids).err(),
        Some(FeedError::UnknownInstrument("SOLUSDT".to_string()))
    );
    assert_eq!(exchange_event(&instruments, "ETHUSDT", "delta", 8, &asks, &bids).err(), Some(FeedError::MissingId(1)));
    let bad = texts(&[&["x", "1"]]);
    assert_eq!(exchange_event(&instruments, "BTCUSDT", "delta", 8, &bad, &bids).err(), Some(FeedError::BadLevel));
}

#[test]
fn topics_and_cursors_of_the_exchange() {
    let instruments = vec![instrument(Some(1), "BTCUSDT"), instrument(Some(2), "ETHUSDT")];
    assert_eq!(subscription_topics(&instruments), vec!["orderbook.50.BTCUSDT", "orderbook.50.ETHUSDT"]);
    assert_eq!(next_page_cursor(Some("abc".to_string())), Some("abc".to_string()));
    assert_eq!(next_page_cursor(Some(String::new())), None);
    assert_eq!(next_page_cursor(None), None);
}
