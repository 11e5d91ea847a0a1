use arbitrage::decimal::Dec;
use arbitrage::events::{merge_events, on_horizon};
use arbitrage::model::{OrderBook, OrderBookEvent, OrderData};

const MS: i64 = 1_000_000;

fn lv(price: i128, size: i128) -> OrderData {
    OrderData { price: Dec::new(price, 0), size: Dec::new(size, 0) }
}

fn book_at(ts: i64) -> OrderBook {
    OrderBook { id: Some(ts), timestamp: ts, asks: vec![lv(101, 1)], bids: vec![lv(100, 1)] }
}

#[test]
fn merge_orders_by_time_first_instrument_first_on_ties() {
    let a = vec![book_at(1), book_at(3), book_at(5)];
    let b = vec![book_at(2), book_at(3), book_at(4)];
    let merged = merge_events(7, 9, &a, &b);
    let got: Vec<(i16, i64)> = merged.iter().map(|e| (e.instrument_id, e.order_book.timestamp)).collect();
    assert_eq!(got, vec![(7, 1), (9, 2), (7, 3), (9, 3), (9, 4), (7, 5)]);
}

#[test]
fn merge_keeps_each_stream_in_order() {
    let a = vec![book_at(10), book_at(2), book_at(30)];
    let b = vec![book_at(5)];
    let merged = merge_events(1, 2, &a, &b);
    assert_eq!(merged.len(), 4);
    let firsts: Vec<i64> = merged.iter().filter(|e| e.instrument_id == 1).map(|e| e.order_book.timestamp).collect();
    assert_eq!(firsts, vec![10, 2, 30]);
    let seconds: Vec<i64> = merged.iter().filter(|e| e.instrument_id == 2).map(|e| e.order_book.timestamp).collect();
    assert_eq!(seconds, vec![5]);
}

#[test]
fn merge_of_nothing_is_empty() {
    assert!(merge_events(1, 2, &[], &[]).is_empty());
}

fn event(id: i16, ts: i64) -> OrderBookEvent {
    OrderBookEvent { instrument_id: id, order_book: book_at(ts) }
}

#[test]
fn on_horizon_finds_both_legs_after_the_horizon() {
    let events = vec![event(1, 0), event(2, MS), event(1, 5 * MS), event(2, 6 * MS), event(1, 7 * MS)];
    let (b1, b2) = on_horizon(&events, 0, 1, 5).unwrap();
    assert_eq!(b1.timestamp, 5 * MS);
    assert_eq!(b2.timestamp, 6 * MS);
    assert!(on_horizon(&events, 0, 1, 0).is_none());
    assert!(on_horizon(&events, 2, 1, 2).is_none());
}

#[test]
fn on_horizon_takes_the_latest_book_of_a_leg_seen_so_far() {
    let events = vec![event(1, 0), event(1, 2 * MS), event(1, 3 * MS), event(2, 4 * MS)];
    let (b1, b2) = on_horizon(&events, 0, 1, 1).unwrap();
    assert_eq!(b1.timestamp, 3 * MS);
    assert_eq!(b2.timestamp, 4 * MS);
}
