use arbitrage::decimal::Dec;
use arbitrage::market_events::{
    find_nearest_order_book, market_events_time_diapason, merge_events, MarketEvent, MarketSource,
};
use arbitrage::model::OrderBook;
use arbitrage::quotes::{
    candles_to_order_books, convert_orders, convert_trade, decode_trade_direction, instrument_of_uid, quotation_price,
};

fn d(m: i128, s: u32) -> Dec {
    Dec::new(m, s)
}

#[test]
fn market_events_merge_by_time_in_source_order_on_ties() {
    let order = merge_events(&[1, 5], &[1, 3], &[2], &[1]);
    assert_eq!(
        order,
        vec![
            (MarketSource::OrderBook1, 0),
            (MarketSource::OrderBook2, 0),
            (MarketSource::Deal2, 0),
            (MarketSource::Deal1, 0),
            (MarketSource::OrderBook2, 1),
            (MarketSource::OrderBook1, 1),
        ]
    );
    assert!(merge_events(&[], &[], &[], &[]).is_empty());
}

fn books(n: i64) -> Vec<OrderBook> {
    (0..n).map(|i| OrderBook { id: Some(i), timestamp: 10 * i, asks: vec![], bids: vec![] }).collect()
}

#[test]
fn nearest_book_within_ten_of_the_previous() {
    let list = books(25);
    assert_eq!(find_nearest_order_book(123, &list, 12), Some(12));
    assert_eq!(find_nearest_order_book(125, &list, 12), Some(12));
    assert_eq!(find_nearest_order_book(500, &list, 0), Some(10));
    assert_eq!(find_nearest_order_book(-7, &list, 20), Some(10));
    assert_eq!(find_nearest_order_book(5, &books(1), 5), Some(0));
}

#[test]
fn quotations_add_units_and_nanos() {
    assert!(quotation_price(12, 500_000_000).unwrap() == d(125, 1));
    assert!(quotation_price(-3, -250_000_000).unwrap() == d(-325, 2));
    let levels = convert_orders(&[(Some((10, 0)), 5), (None, 7), (Some((0, 1)), 2)]).unwrap();
    assert_eq!(levels.len(), 2);
    assert!(levels[0].price == d(10, 0) && levels[0].size == d(5, 0));
    assert!(levels[1].price == d(1, 9) && levels[1].size == d(2, 0));
}

#[test]
fn candles_become_order_books() {
    let rows = vec![
        vec![d(600007, 1), d(100, 0), d(105, 0), d(95, 0), d(101, 0), d(7, 0)],
        vec![d(120000, 0), d(100, 0), d(105, 0), d(95, 0), d(101, 0), d(0, 0)],
        vec![d(180000, 0), d(100, 0)],
        vec![d(-15007, 1), d(100, 0), d(106, 0), d(94, 0), d(101, 0), d(1, 0)],
    ];
    let list = candles_to_order_books(&rows).unwrap();
    assert_eq!(list.len(), 2);
    assert_eq!(list[0].timestamp, 60_000 * 1_000_000);
    assert!(list[0].asks[0].price == d(105, 0) && list[0].asks[0].size == d(100, 0));
    assert!(list[0].bids[0].price == d(95, 0));
    assert_eq!(list[1].timestamp, -1_500 * 1_000_000);
    let huge = vec![vec![d(10_000_000_000_000, 0), d(1, 0), d(1, 0), d(1, 0), d(1, 0), d(1, 0)]];
    assert!(candles_to_order_books(&huge).is_none());
}

#[test]
fn stream_span_is_last_time_less_first() {
    let events = [
        MarketEvent { source: MarketSource::OrderBook1, time: 1_000 },
        MarketEvent { source: MarketSource::Deal2, time: 4_500 },
        MarketEvent { source: MarketSource::OrderBook2, time: 3_000 },
    ];
    assert_eq!(events[1].event_datetime(), 4_500);
    assert_eq!(market_events_time_diapason(&events), 2_000);
    let extreme = [
        MarketEvent { source: MarketSource::Deal1, time: i64::MIN },
        MarketEvent { source: MarketSource::Deal1, time: i64::MAX },
    ];
    assert_eq!(market_events_time_diapason(&extreme), i64::MAX as i128 - i64::MIN as i128);
}

#[test]
fn zero_quotation_keeps_the_scale_of_nanos() {
    let zero = quotation_price(0, 0).unwrap();
    assert!(zero == d(0, 0));
    assert_eq!((zero.mantissa(), zero.scale()), (0, 9));
    let units = quotation_price(7, 0).unwrap();
    assert_eq!((units.mantissa(), units.scale()), (7, 0));
}

#[test]
fn trade_directions_decode() {
    assert_eq!(decode_trade_direction(1), Some('b'));
    assert_eq!(decode_trade_direction(2), Some('s'));
    assert_eq!(decode_trade_direction(0), None);
    assert_eq!(decode_trade_direction(7), None);
}

#[test]
fn later_uid_pairs_win() {
    let pairs = vec![("u1".to_string(), 1), ("u2".to_string(), 2), ("u1".to_string(), 3)];
    assert_eq!(instrument_of_uid(&pairs, "u1"), Some(3));
    assert_eq!(instrument_of_uid(&pairs, "u2"), Some(2));
    assert_eq!(instrument_of_uid(&pairs, "u3"), None);
}

#[test]
fn broker_trades_convert() {
    let pairs = vec![("uid-a".to_string(), 4)];
    let t = convert_trade(&pairs, "uid-a", 1_000, 3, Some((12, 500_000_000)), 2).unwrap().unwrap();
    assert_eq!(t.id, None);
    assert_eq!(t.instrument_id, 4);
    assert_eq!(t.created, 1_000);
    assert!(t.quantity == d(3, 0));
    assert!(t.price.unwrap() == d(125, 1));
    assert_eq!(t.direction, Some('s'));
    let no_price = convert_trade(&pairs, "uid-a", 5, 1, None, 1).unwrap().unwrap();
    assert!(no_price.price.is_none());
    assert_eq!(no_price.direction, Some('b'));
    assert!(convert_trade(&pairs, "uid-b", 5, 1, None, 1).unwrap().is_none());
}
