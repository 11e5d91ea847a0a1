use arbitrage::decimal::Dec;
use arbitrage::model::{OrderData, OrderDataDelta, TimeDiapason};
use arbitrage::storage::{
    assemble_order_book, cache_file_name, dictionary_code, new_dictionary_code, rebuild_side, resolve_price_ids,
    DictionaryCode, QueryAsksOrBids, SideStep, StoredSide,
};
use std::collections::HashMap;

fn d(m: i128, s: u32) -> Dec {
    Dec::new(m, s)
}

fn lv(price: i128, size: i128) -> OrderData {
    OrderData { price: d(price, 0), size: d(size, 0) }
}

fn same_levels(a: &[OrderData], b: &[OrderData]) -> bool {
    a.len() == b.len() && a.iter().zip(b.iter()).all(|(x, y)| x.price == y.price && x.size == y.size)
}

#[test]
fn query_sides() {
    assert!(QueryAsksOrBids::ASKS.is_asks() && !QueryAsksOrBids::ASKS.is_bids());
    assert!(!QueryAsksOrBids::BIDS.is_asks() && QueryAsksOrBids::BIDS.is_bids());
    assert!(QueryAsksOrBids::BOTH.is_asks() && QueryAsksOrBids::BOTH.is_bids());
}

#[test]
fn new_code_is_one_above_the_largest() {
    assert_eq!(new_dictionary_code(&[]), 0);
    assert_eq!(new_dictionary_code(&[3, 7, 5]), 8);
    assert_eq!(new_dictionary_code(&[-4]), -3);
}

#[test]
fn dictionary_code_finds_or_makes_a_code() {
    let entries = vec![("BTC".to_string(), 2), ("ETH".to_string(), 5), ("BTC".to_string(), 9)];
    assert_eq!(dictionary_code(&entries, "BTC"), DictionaryCode::Existing(2));
    assert_eq!(dictionary_code(&entries, "SOL"), DictionaryCode::New(10));
    assert_eq!(dictionary_code(&[], "SOL"), DictionaryCode::New(0));
}

fn prices() -> HashMap<i32, Dec> {
    let mut m = HashMap::new();
    m.insert(1, d(100, 0));
    m.insert(2, d(101, 0));
    m
}

#[test]
fn price_ids_resolve_through_the_dictionary() {
    let deltas = vec![OrderDataDelta { price_id: 2, size: d(3, 0) }, OrderDataDelta { price_id: 1, size: d(0, 0) }];
    let resolved = resolve_price_ids(&deltas, &prices()).unwrap();
    assert!(same_levels(&resolved, &[lv(101, 3), lv(100, 0)]));
    let unknown = vec![OrderDataDelta { price_id: 3, size: d(1, 0) }];
    assert!(resolve_price_ids(&unknown, &prices()).is_none());
}

#[test]
fn sides_rebuild_from_snapshots_and_deltas() {
    let mut cur = Vec::new();
    match rebuild_side(&StoredSide::Full(vec![lv(100, 1), lv(101, 2)]), &mut cur, &prices()) {
        SideStep::Side(s) => assert!(same_levels(&s, &[lv(100, 1), lv(101, 2)])),
        SideStep::NeedPrices => panic!("snapshot needs no prices"),
    }
    let delta = StoredSide::Delta(vec![OrderDataDelta { price_id: 1, size: d(0, 0) }, OrderDataDelta { price_id: 2, size: d(5, 0) }]);
    match rebuild_side(&delta, &mut cur, &prices()) {
        SideStep::Side(s) => assert!(same_levels(&s, &[lv(101, 5)])),
        SideStep::NeedPrices => panic!("all ids are known"),
    }
    let unknown = StoredSide::Delta(vec![OrderDataDelta { price_id: 42, size: d(5, 0) }]);
    assert!(matches!(rebuild_side(&unknown, &mut cur, &prices()), SideStep::NeedPrices));
    assert!(same_levels(&cur, &[lv(101, 5)]));
    match rebuild_side(&StoredSide::Missing, &mut cur, &prices()) {
        SideStep::Side(s) => assert!(s.is_empty()),
        SideStep::NeedPrices => panic!("nothing to resolve"),
    }
    assert!(same_levels(&cur, &[lv(101, 5)]));
}

#[test]
fn stored_rows_without_levels_give_no_book() {
    assert!(assemble_order_book(1, 5, vec![], vec![]).is_none());
    let ob = assemble_order_book(1, 5, vec![lv(1, 1)], vec![]).unwrap();
    assert_eq!(ob.id, Some(1));
    assert_eq!(ob.timestamp, 5);
}

#[test]
fn cache_files_are_named_by_instrument_and_interval() {
    let diapason = TimeDiapason::new(1_500_000_000, -2_500_000);
    assert_eq!(cache_file_name("SiZ5", diapason, false), ".cache/SiZ5_1500_-3.bin");
    assert_eq!(cache_file_name("SiZ5", diapason, true), ".cache_full/SiZ5_1500_-3.bin");
}

#[test]
fn stored_delta_reads_back_through_the_dictionary() {
    let levels = vec![lv(101, 3), lv(100, 0)];
    let ids = vec![2, 1];
    let stored: Vec<OrderDataDelta> = levels.iter().zip(ids.iter()).map(|(l, id)| OrderDataDelta { price_id: *id, size: l.size }).collect();
    assert!(same_levels(&resolve_price_ids(&stored, &prices()).unwrap(), &levels));
}
