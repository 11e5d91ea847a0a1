use arbitrage::decimal::Dec;
use arbitrage::model::{OrderBook, OrderData};
use arbitrage::order_book::{
    best_buy_price, best_price, best_price_for_size, best_sell_price, calculate_delta_buy,
    calculate_delta_sell, filter_order_data, try_calculate_delta_sell, try_filter_order_data,
    try_weighted_price, weighted_price,
};

const DECIMAL_MAX: i128 = 79_228_162_514_264_337_593_543_950_335;

fn d(m: i128, s: u32) -> Dec {
    Dec::new(m, s)
}

fn lv(price: i128, size: i128) -> OrderData {
    OrderData { price: d(price, 0), size: d(size, 0) }
}

fn book(asks: Vec<OrderData>, bids: Vec<OrderData>) -> OrderBook {
    OrderBook { id: None, timestamp: 0, asks, bids }
}

#[test]
fn best_price_takes_the_first_best_level() {
    let side = vec![lv(101, 1), lv(100, 2), lv(100, 3)];
    let ask = best_price(&side, true).unwrap();
    assert!(ask.price == d(100, 0) && ask.size == d(2, 0));
    let bid = best_price(&side, false).unwrap();
    assert!(bid.price == d(101, 0) && bid.size == d(1, 0));
    assert!(best_price(&[], true).is_none());
}

#[test]
fn best_buy_and_sell_prices_skip_small_levels() {
    let side = vec![lv(101, 1), lv(100, 2), lv(99, 3)];
    assert!(best_buy_price(&side, d(150, 0)).unwrap() == d(99, 0));
    assert!(best_sell_price(&side, d(150, 0)).unwrap() == d(100, 0));
    assert!(best_sell_price(&side, d(50, 0)).unwrap() == d(101, 0));
    // a level whose volume equals the amount still counts
    assert!(best_sell_price(&side, d(200, 0)).unwrap() == d(100, 0));
    assert!(best_buy_price(&side, d(1000, 0)).is_none());
}

#[test]
fn best_price_for_size_needs_more_than_the_size() {
    let side = vec![lv(100, 2), lv(101, 3), lv(99, 1)];
    assert!(best_price_for_size(&side, true, d(200, 0)).unwrap() == d(101, 0));
    assert!(best_price_for_size(&side, false, d(50, 0)).unwrap() == d(101, 0));
    assert!(best_price_for_size(&side, true, d(50, 0)).unwrap() == d(99, 0));
    assert!(best_price_for_size(&side, true, d(1000, 0)).is_none());
}

#[test]
fn filter_keeps_sizes_above_a_hundredth_of_the_largest() {
    let side = vec![lv(1, 100), lv(2, 1), lv(3, 2), lv(4, 50)];
    let kept = filter_order_data(&side);
    assert_eq!(kept.len(), 3);
    assert!(kept[0].price == d(1, 0));
    assert!(kept[1].price == d(3, 0));
    assert!(kept[2].price == d(4, 0));
    assert!(filter_order_data(&[]).is_empty());
    assert_eq!(try_filter_order_data(&side).unwrap().len(), 3);
}

#[test]
fn weighted_price_is_the_volume_weighted_mean() {
    let side = vec![lv(10, 1), lv(20, 3)];
    let w = weighted_price(&side).unwrap();
    assert!(w.price == d(175, 1));
    assert!(w.size == d(2, 0));
    let zero = vec![OrderData { price: d(0, 0), size: d(5, 0) }];
    assert!(weighted_price(&zero).is_none());
}

#[test]
fn weighted_price_overflow_is_reported() {
    let side = vec![OrderData { price: d(DECIMAL_MAX, 0), size: d(2, 0) }];
    assert!(try_weighted_price(&side).is_none());
    let fine = vec![lv(10, 1)];
    assert!(try_weighted_price(&fine).unwrap().is_some());
}

#[test]
fn delta_sell_uses_liquid_best_bid_and_ask() {
    let ob1 = book(vec![], vec![lv(100, 5), lv(101, 1), lv(99, 10)]);
    let ob2 = book(vec![lv(103, 4), lv(102, 1), lv(104, 10)], vec![]);
    let delta = calculate_delta_sell(&ob1, &ob2, d(200, 0)).unwrap();
    assert!(delta.price == d(3, 0));
    assert!(delta.size == d(4, 0));
    assert!(calculate_delta_sell(&ob1, &ob2, d(5000, 0)).is_none());
}

#[test]
fn delta_buy_uses_liquid_best_ask_and_bid() {
    let ob1 = book(vec![lv(103, 4), lv(102, 1), lv(104, 10)], vec![]);
    let ob2 = book(vec![], vec![lv(100, 5), lv(101, 1), lv(99, 10)]);
    let delta = calculate_delta_buy(&ob1, &ob2, d(200, 0)).unwrap();
    assert!(delta.price == d(-3, 0));
    assert!(delta.size == d(4, 0));
}

#[test]
fn delta_overflow_is_reported() {
    let ob1 = book(vec![], vec![OrderData { price: d(DECIMAL_MAX, 0), size: d(2, 0) }]);
    let ob2 = book(vec![lv(1, 1)], vec![]);
    assert!(try_calculate_delta_sell(&ob1, &ob2, d(0, 0)).is_none());
}
