use arbitrage::decimal::Dec;
use arbitrage::model::{OrderData, OrderDataDelta};
use arbitrage::storage::{QueryAsksOrBids, StoredSide};
use arbitrage::stored_books::{rebuild_order_books, OrderBooksRebuild, StoredRow};
use std::collections::HashMap;

fn lv(price: i128, size: i128) -> OrderData {
    OrderData { price: Dec::new(price, 0), size: Dec::new(size, 0) }
}

fn delta(price_id: i32, size: i128) -> OrderDataDelta {
    OrderDataDelta { price_id, size: Dec::new(size, 0) }
}

fn levels(v: &[OrderData]) -> Vec<(Dec, Dec)> {
    v.iter().map(|l| (l.price, l.size)).collect()
}

fn pairs(v: &[(i128, i128)]) -> Vec<(Dec, Dec)> {
    v.iter().map(|&(p, s)| (Dec::new(p, 0), Dec::new(s, 0))).collect()
}

fn rows() -> Vec<StoredRow> {
    vec![
        StoredRow {
            id: 1,
            timestamp: 1_000,
            asks: StoredSide::Full(vec![lv(101, 1), lv(102, 2)]),
            bids: StoredSide::Full(vec![lv(99, 3)]),
        },
        StoredRow {
            id: 2,
            timestamp: 2_000,
            asks: StoredSide::Delta(vec![delta(7, 5), delta(8, 0)]),
            bids: StoredSide::Missing,
        },
        StoredRow { id: 3, timestamp: 3_000, asks: StoredSide::Missing, bids: StoredSide::Missing },
        StoredRow {
            id: 4,
            timestamp: 4_000,
            asks: StoredSide::Missing,
            bids: StoredSide::Delta(vec![delta(9, 4)]),
        },
    ]
}

fn prices() -> HashMap<i32, Dec> {
    let mut map = HashMap::new();
    map.insert(7, Dec::new(101, 0));
    map.insert(8, Dec::new(102, 0));
    map.insert(9, Dec::new(98, 0));
    map
}

#[test]
fn rows_rebuild_into_books() {
    let rows = rows();
    let mut state = OrderBooksRebuild::new();
    assert!(rebuild_order_books(&rows, QueryAsksOrBids::BOTH, &prices(), &mut state));
    assert_eq!(state.next_row, 4);
    let ids: Vec<Option<i64>> = state.books.iter().map(|b| b.id).collect();
    assert_eq!(ids, vec![Some(1), Some(2), Some(4)]);
    assert_eq!(levels(&state.books[0].asks), pairs(&[(101, 1), (102, 2)]));
    assert_eq!(levels(&state.books[0].bids), pairs(&[(99, 3)]));
    assert_eq!(state.books[1].timestamp, 2_000);
    assert_eq!(levels(&state.books[1].asks), pairs(&[(101, 5)]));
    assert!(state.books[1].bids.is_empty());
    assert!(state.books[2].asks.is_empty());
    assert_eq!(levels(&state.books[2].bids), pairs(&[(99, 3), (98, 4)]));
}

#[test]
fn missing_price_stops_until_the_dictionary_is_reloaded() {
    let rows = rows();
    let mut partial = prices();
    partial.remove(&9);
    let mut state = OrderBooksRebuild::new();
    assert!(!rebuild_order_books(&rows, QueryAsksOrBids::BOTH, &partial, &mut state));
    assert_eq!(state.next_row, 3);
    assert_eq!(state.books.len(), 2);
    assert!(state.asks_of_row.as_ref().is_some_and(|a| a.is_empty()));
    assert!(rebuild_order_books(&rows, QueryAsksOrBids::BOTH, &prices(), &mut state));
    assert_eq!(state.books.len(), 3);
    assert_eq!(levels(&state.books[2].bids), pairs(&[(99, 3), (98, 4)]));
}

#[test]
fn only_the_queried_side_is_rebuilt() {
    let rows = rows();
    let mut state = OrderBooksRebuild::new();
    assert!(rebuild_order_books(&rows, QueryAsksOrBids::ASKS, &HashMap::from([(7, Dec::new(101, 0)), (8, Dec::new(102, 0))]), &mut state));
    let ids: Vec<Option<i64>> = state.books.iter().map(|b| b.id).collect();
    assert_eq!(ids, vec![Some(1), Some(2)]);
    assert!(state.books.iter().all(|b| b.bids.is_empty()));
}

fn store_delta(prev: &Vec<OrderData>, new: &[OrderData], dictionary: &mut HashMap<i32, Dec>) -> StoredSide {
    let delta = arbitrage::book_delta::calculate_delta(prev, new);
    let mut stored = Vec::new();
    for level in delta {
        let id = match dictionary.iter().find(|(_, p)| **p == level.price) {
            Some((id, _)) => *id,
            None => {
                let id = dictionary.len() as i32 + 1;
                dictionary.insert(id, level.price);
                id
            },
        };
        stored.push(OrderDataDelta { price_id: id, size: level.size });
    }
    StoredSide::Delta(stored)
}

fn sorted(v: &[OrderData]) -> Vec<(Dec, Dec)> {
    let mut l = levels(v);
    l.sort_by(|a, b| arbitrage_cmp(a.0, b.0));
    l
}

fn arbitrage_cmp(a: Dec, b: Dec) -> std::cmp::Ordering {
    let (x, y) = (a.mantissa() as f64 / 10f64.powi(a.scale() as i32), b.mantissa() as f64 / 10f64.powi(b.scale() as i32));
    x.partial_cmp(&y).unwrap()
}

#[test]
fn listened_books_are_read_back_from_the_store() {
    let books = vec![
        (vec![lv(101, 1), lv(102, 2)], vec![lv(99, 3), lv(98, 1)]),
        (vec![lv(101, 4), lv(103, 1)], vec![lv(99, 3)]),
        (vec![lv(100, 2), lv(103, 1)], vec![lv(99, 1), lv(97, 6)]),
    ];
    let mut dictionary = HashMap::new();
    let mut rows = Vec::new();
    for (i, (asks, bids)) in books.iter().enumerate() {
        let (asks_side, bids_side) = if i == 0 {
            (StoredSide::Full(asks.clone()), StoredSide::Full(bids.clone()))
        } else {
            let (prev_asks, prev_bids) = &books[i - 1];
            (store_delta(prev_asks, asks, &mut dictionary), store_delta(prev_bids, bids, &mut dictionary))
        };
        rows.push(StoredRow { id: i as i64 + 10, timestamp: i as i64 * 1_000, asks: asks_side, bids: bids_side });
    }
    let mut state = OrderBooksRebuild::new();
    assert!(rebuild_order_books(&rows, QueryAsksOrBids::BOTH, &dictionary, &mut state));
    assert_eq!(state.books.len(), books.len());
    for (i, (asks, bids)) in books.iter().enumerate() {
        assert_eq!(state.books[i].id, Some(i as i64 + 10));
        assert_eq!(state.books[i].timestamp, i as i64 * 1_000);
        assert_eq!(sorted(&state.books[i].asks), sorted(asks));
        assert_eq!(sorted(&state.books[i].bids), sorted(bids));
    }
}

#[test]
fn exchange_deltas_are_read_back_as_the_kept_book() {
    let first = vec![lv(101, 1), lv(102, 2), lv(104, 7)];
    let exchange_delta = vec![lv(102, 0), lv(103, 5), lv(101, 3)];
    let mut kept = first.clone();
    arbitrage::book_delta::handle_delta(&exchange_delta, &mut kept);
    let mut dictionary = HashMap::new();
    dictionary.insert(1, Dec::new(101, 0));
    dictionary.insert(2, Dec::new(102, 0));
    dictionary.insert(3, Dec::new(103, 0));
    let stored = vec![delta(2, 0), delta(3, 5), delta(1, 3)];
    let rows = vec![
        StoredRow { id: 1, timestamp: 0, asks: StoredSide::Full(first), bids: StoredSide::Full(vec![lv(99, 1)]) },
        StoredRow { id: 2, timestamp: 1, asks: StoredSide::Delta(stored), bids: StoredSide::Delta(vec![]) },
    ];
    let mut state = OrderBooksRebuild::new();
    assert!(rebuild_order_books(&rows, QueryAsksOrBids::BOTH, &dictionary, &mut state));
    assert_eq!(levels(&state.books[1].asks), levels(&kept));
    assert_eq!(levels(&state.books[1].asks), pairs(&[(101, 3), (104, 7), (103, 5)]));
    assert_eq!(levels(&state.books[1].bids), pairs(&[(99, 1)]));
}
