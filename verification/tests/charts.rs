use arbitrage::charts::{group_data, pair_deltas, price_series, ChartError};
use arbitrage::decimal::Dec;
use arbitrage::model::{OrderBook, OrderData};

const MS: i64 = 1_000_000;

fn d(m: i128, s: u32) -> Dec {
    Dec::new(m, s)
}

fn lv(price: i128, size: i128) -> OrderData {
    OrderData { price: d(price, 0), size: d(size, 0) }
}

fn book(ts: i64, asks: Vec<OrderData>, bids: Vec<OrderData>) -> OrderBook {
    OrderBook { id: None, timestamp: ts, asks, bids }
}

#[test]
fn price_series_takes_the_best_filtered_level_of_each_book() {
    let books = vec![
        book(1, vec![lv(100, 1000), lv(99, 5)], vec![lv(98, 7)]),
        book(2, vec![], vec![lv(97, 1)]),
        book(3, vec![lv(101, 10), lv(102, 10)], vec![]),
    ];
    let asks = price_series(&books, true).unwrap();
    assert_eq!(asks.len(), 2);
    assert_eq!(asks[0].0, 1);
    assert!(asks[0].1.price == d(100, 0));
    assert_eq!(asks[1].0, 3);
    assert!(asks[1].1.price == d(101, 0));
    let bids = price_series(&books, false).unwrap();
    let times: Vec<i64> = bids.iter().map(|p| p.0).collect();
    assert_eq!(times, vec![1, 2]);
}

#[test]
fn pair_deltas_walk_both_streams_in_step() {
    let b1 = vec![
        book(0, vec![lv(101, 1)], vec![lv(100, 1)]),
        book(10, vec![lv(103, 1)], vec![lv(102, 1)]),
        book(20, vec![lv(109, 1)], vec![lv(108, 1)]),
    ];
    let b2 = vec![book(5, vec![lv(105, 2)], vec![lv(104, 2)]), book(15, vec![lv(1, 1)], vec![lv(1, 1)])];
    let (sells, buys) = pair_deltas(&b1, &b2, d(0, 0)).unwrap();
    let s: Vec<(i64, Dec, Dec)> = sells.iter().map(|p| (p.0, p.1.price, p.1.size)).collect();
    assert_eq!(s.len(), 2);
    assert!(s[0].0 == 0 && s[0].1 == d(5, 0) && s[0].2 == d(1, 0));
    assert!(s[1].0 == 10 && s[1].1 == d(3, 0));
    assert_eq!(buys.len(), 2);
    assert!(buys[0].1.price == d(3, 0) && buys[1].1.price == d(1, 0));
}

#[test]
fn pair_deltas_need_both_streams() {
    let b = vec![book(0, vec![lv(1, 1)], vec![lv(1, 1)])];
    assert_eq!(pair_deltas(&b, &[], d(0, 0)).err(), Some(ChartError::NoData));
    assert_eq!(pair_deltas(&[], &b, d(0, 0)).err(), Some(ChartError::NoData));
    let (s, _) = pair_deltas(&b, &b, d(0, 0)).unwrap();
    assert!(s.is_empty());
}

#[test]
fn pair_deltas_report_overflow() {
    let max = d(79_228_162_514_264_337_593_543_950_335, 0);
    let b1 = vec![book(0, vec![lv(1, 1)], vec![OrderData { price: max, size: d(2, 0) }]), book(1, vec![], vec![])];
    let b2 = vec![book(0, vec![lv(1, 1)], vec![lv(1, 1)]), book(1, vec![], vec![])];
    assert_eq!(pair_deltas(&b1, &b2, d(0, 0)).err(), Some(ChartError::Overflow));
}

#[test]
fn groups_hold_volume_weighted_means() {
    let a = vec![(0, lv(10, 2)), (MS, lv(20, 2)), (500 * MS, lv(7, 1)), (1000 * MS, lv(30, 1))];
    let b = vec![(0, lv(5, 1)), (1000 * MS, lv(6, 3)), (2000 * MS, lv(9, 1))];
    let g = group_data(&[a, b]).unwrap();
    assert_eq!(g.start, 0);
    assert_eq!(g.offsets_ms.len(), 1600);
    assert_eq!(g.offsets_ms[0], 0);
    assert_eq!(g.offsets_ms[1599], 1000);
    assert_eq!(g.values.len(), 1600);
    assert!(g.values[0][0].unwrap() == d(15, 0));
    assert!(g.values[0][1].unwrap() == d(5, 0));
    assert!(g.values[798][0].unwrap() == d(7, 0));
    assert!(g.values[798][1].is_none());
    assert!(g.values[1599][0].unwrap() == d(30, 0));
    assert!(g.values[1599][1].unwrap() == d(675, 2));
    assert!(g.values[5][0].is_none());
}
