use arbitrage::decimal::Dec;
use arbitrage::model::{OrderBook, OrderData};
use arbitrage::perfect_trader::PerfectTrader;
use arbitrage::trading::{close_pair_deal, open_pair_deal, DealInfo};

const SEC: i64 = 1_000_000_000;

fn d(m: i128, s: u32) -> Dec {
    Dec::new(m, s)
}

fn lv(price: i128, size: i128) -> OrderData {
    OrderData { price: d(price, 0), size: d(size, 0) }
}

fn book(ts: i64, ask: i128, bid: i128) -> OrderBook {
    OrderBook { id: None, timestamp: ts, asks: vec![lv(ask, 10)], bids: vec![lv(bid, 10)] }
}

#[test]
fn perfect_trader_reports_the_deal_between_the_lowest_and_highest_spreads() {
    let mut trader = PerfectTrader::new();
    assert!(trader.trade(&book(10 * SEC, 100, 100), true).unwrap().is_none());
    for t in 11..=15 {
        assert!(trader.trade(&book(t * SEC, 100, 99), false).unwrap().is_none());
    }
    // the highest spread comes, but it is not ten minutes old yet
    assert!(trader.trade(&book(16 * SEC, 121, 120), false).unwrap().is_none());
    let deal = trader.trade(&book(700 * SEC, 100, 100), true).unwrap().unwrap();
    assert_eq!(deal.open_time, 15 * SEC);
    assert_eq!(deal.close_time, 16 * SEC);
    assert!(deal.sell_price[0] == d(100, 0) && deal.buy_price[1] == d(100, 0));
    assert!(deal.buy_price[0] == d(100, 0) && deal.sell_price[1] == d(120, 0));
    assert!(deal.amount[0] == d(5, 0) && deal.amount[1] == d(5, 0));
    assert!(deal.profit() == d(9916, 2));
    // after the deal, nothing more is reported on the same spreads
    assert!(trader.trade(&book(701 * SEC, 100, 100), true).unwrap().is_none());
}

#[test]
fn perfect_trader_needs_five_spreads() {
    let mut trader = PerfectTrader::new();
    assert!(trader.trade(&book(SEC, 100, 100), true).unwrap().is_none());
    for t in 2..=5 {
        assert!(trader.trade(&book(t * 100 * SEC, 130, 129), false).unwrap().is_none());
    }
}

#[test]
fn pair_deal_opens_and_closes_at_the_best_prices() {
    let ob1 = OrderBook { id: None, timestamp: 0, asks: vec![lv(101, 10)], bids: vec![lv(100, 10), lv(99, 10)] };
    let ob2 = OrderBook { id: None, timestamp: 0, asks: vec![lv(125, 10), lv(126, 10)], bids: vec![lv(124, 10)] };
    let deal = open_pair_deal(&ob1, &ob2, d(500, 0), 7).unwrap().unwrap();
    assert_eq!(deal.open_time, 7);
    assert!(deal.sell_price[0] == d(100, 0) && deal.buy_price[1] == d(125, 0));
    assert!(deal.amount[0] == d(5, 0) && deal.amount[1] == d(4, 0));
    // closing at a loss within the hour keeps the deal open
    let worse1 = OrderBook { id: None, timestamp: 1, asks: vec![lv(110, 10)], bids: vec![lv(109, 10)] };
    assert!(close_pair_deal(deal, &worse1, &ob2, d(500, 0), 8).unwrap().is_none());
    // closing at a profit closes it
    let better2 = OrderBook { id: None, timestamp: 1, asks: vec![lv(131, 10)], bids: vec![lv(130, 10)] };
    let closed: DealInfo = close_pair_deal(deal, &ob1, &better2, d(500, 0), 9).unwrap().unwrap();
    assert_eq!(closed.close_time, 9);
    assert!(closed.buy_price[0] == d(101, 0) && closed.sell_price[1] == d(130, 0));
    // after an hour it closes whatever the profit
    let late = 7 + 3_600 * SEC + 1;
    assert!(close_pair_deal(deal, &worse1, &ob2, d(500, 0), late).unwrap().is_some());
}

#[test]
fn pair_deal_needs_liquid_prices() {
    let thin = OrderBook { id: None, timestamp: 0, asks: vec![lv(101, 1)], bids: vec![lv(100, 1)] };
    assert!(open_pair_deal(&thin, &thin, d(500, 0), 0).unwrap().is_none());
}

#[test]
fn perfect_trader_stops_where_decimal_overflows() {
    let max = d(79_228_162_514_264_337_593_543_950_335, 0);
    let mut trader = PerfectTrader::new();
    let huge = OrderBook { id: None, timestamp: SEC, asks: vec![OrderData { price: max, size: d(2, 0) }], bids: vec![lv(100, 10)] };
    assert!(trader.trade(&huge, true).unwrap().is_none());
    assert!(trader.trade(&book(2 * SEC, 100, 99), false).is_err());
}

#[test]
fn pair_deal_stops_where_decimal_overflows() {
    let max = d(79_228_162_514_264_337_593_543_950_335, 0);
    let ob = OrderBook { id: None, timestamp: 0, asks: vec![lv(101, 10)], bids: vec![OrderData { price: max, size: d(2, 0) }] };
    assert!(open_pair_deal(&ob, &ob, d(500, 0), 0).is_err());
}
