use arbitrage::decimal::Dec;
use arbitrage::model::{OrderBook, OrderData};
use arbitrage::pair_deal::{get_best_ask, get_best_bid, TestDeal, TestLedger, TradeSignal};
use arbitrage::trading::{CostFunctionImpl, DealInfo};

const MS: i64 = 1_000_000;

fn d(m: i128, s: u32) -> Dec {
    Dec::new(m, s)
}

fn lv(price: i128, size: i128) -> OrderData {
    OrderData { price: d(price, 0), size: d(size, 0) }
}

fn book(ts: i64, asks: Vec<OrderData>, bids: Vec<OrderData>) -> OrderBook {
    OrderBook { id: None, timestamp: ts, asks, bids }
}

#[test]
fn best_ask_and_bid_of_a_book() {
    let ob = book(0, vec![lv(103, 1), lv(101, 1), lv(102, 1)], vec![lv(99, 1), lv(100, 1), lv(98, 1)]);
    assert!(get_best_ask(&ob) == d(101, 0));
    assert!(get_best_bid(&ob) == d(100, 0));
}

#[test]
fn sell1_buy2_deal_round_trip() {
    let ob1 = book(10 * MS, vec![lv(101, 1)], vec![lv(100, 1)]);
    let ob2 = book(12 * MS, vec![lv(201, 1)], vec![lv(200, 1)]);
    let mut deal = TestDeal::open(TradeSignal::Sell1Buy2(500), &ob1, &ob2).unwrap();
    assert!(deal.open_price1 == d(100, 0));
    assert!(deal.open_price2 == d(201, 0));
    assert_eq!(deal.close_time, 512 * MS);
    let (r, c) = deal.close();
    assert!(r == d(0, 0) && c == d(0, 0));
    let later1 = book(600 * MS, vec![lv(98, 1)], vec![lv(97, 1)]);
    let later2 = book(601 * MS, vec![lv(206, 1)], vec![lv(205, 1)]);
    deal.close1(&later1);
    deal.close2(&later2);
    assert_eq!(deal.close_time1, 600 * MS);
    // a second close of a leg changes nothing
    deal.close1(&ob1);
    assert_eq!(deal.close_time1, 600 * MS);
    let (revenue, cost) = deal.close();
    assert!(revenue == d(305, 0));
    assert!(cost == d(299, 0));
}

#[test]
fn buy1_sell2_deal_prices() {
    let ob1 = book(0, vec![lv(101, 1)], vec![lv(100, 1)]);
    let ob2 = book(0, vec![lv(201, 1)], vec![lv(200, 1)]);
    let mut deal = TestDeal::open(TradeSignal::Buy1Sell2(0), &ob1, &ob2).unwrap();
    assert!(deal.open_price1 == d(101, 0));
    assert!(deal.open_price2 == d(200, 0));
    deal.close1(&book(1, vec![lv(104, 1)], vec![lv(103, 1)]));
    deal.close2(&book(1, vec![lv(199, 1)], vec![lv(198, 1)]));
    let (revenue, cost) = deal.close();
    assert!(revenue == d(303, 0));
    assert!(cost == d(300, 0));
}

#[test]
fn no_signal_opens_no_deal() {
    let ob = book(0, vec![lv(1, 1)], vec![lv(1, 1)]);
    assert!(TestDeal::open(TradeSignal::NoSignal, &ob, &ob).is_none());
}

#[test]
fn deal_profit_subtracts_the_commission() {
    let deal = DealInfo {
        open_time: 0,
        close_time: 1,
        amount: [d(2, 0), d(3, 0)],
        buy_price: [d(10, 0), d(20, 0)],
        sell_price: [d(12, 0), d(19, 0)],
    };
    assert!(deal.profit() == d(9356, 4));
    assert!(deal.try_profit().unwrap() == d(9356, 4));
}

#[test]
fn deal_profit_overflow_is_reported() {
    let max = d(79_228_162_514_264_337_593_543_950_335, 0);
    let deal = DealInfo {
        open_time: 0,
        close_time: 1,
        amount: [max, d(1, 0)],
        buy_price: [d(0, 0), d(0, 0)],
        sell_price: [d(2, 0), d(0, 0)],
    };
    assert!(deal.try_profit().is_none());
}

#[test]
fn only_the_trading_simulation_optimizes_the_threshold() {
    assert!(CostFunctionImpl::TradingSimulation.optimize_threshold());
    assert!(!CostFunctionImpl::SpearmanRanking.optimize_threshold());
    assert!(!CostFunctionImpl::HuberLoss.optimize_threshold());
}

#[test]
fn ledger_opens_on_a_signal_and_settles_the_closed_deal() {
    let mut ledger = TestLedger::new();
    let ob1 = book(0, vec![lv(101, 1)], vec![lv(100, 1)]);
    let ob2 = book(0, vec![lv(201, 1)], vec![lv(200, 1)]);
    assert!(ledger.follow_signal(TradeSignal::NoSignal, &ob1, &ob2, None).unwrap().is_none());
    assert!(ledger.active_deal.is_none());
    assert!(ledger.follow_signal(TradeSignal::Sell1Buy2(0), &ob1, &ob2, None).unwrap().is_none());
    assert!(ledger.active_deal.is_some());
    // books not past the closing time close nothing
    assert!(ledger.follow_signal(TradeSignal::Buy1Sell2(0), &ob1, &ob2, None).unwrap().is_none());
    let later1 = book(MS, vec![lv(98, 1)], vec![lv(97, 1)]);
    let later2 = book(MS, vec![lv(206, 1)], vec![lv(205, 1)]);
    let result = ledger.follow_signal(TradeSignal::NoSignal, &later1, &later2, None).unwrap().unwrap();
    assert!(result == d(1, 0));
    assert!(ledger.active_deal.is_none());
    assert!(ledger.total_income == d(305, 0));
    assert!(ledger.total_outcome == d(299, 0));
    assert!(ledger.total_commission == d(5, 0));
}

#[test]
fn ledger_stops_where_the_totals_overflow() {
    let max = d(79_228_162_514_264_337_593_543_950_335, 0);
    let mut ledger = TestLedger::new();
    ledger.total_income = max;
    let ob1 = book(0, vec![lv(101, 1)], vec![lv(100, 1)]);
    let ob2 = book(0, vec![lv(201, 1)], vec![lv(200, 1)]);
    ledger.follow_signal(TradeSignal::Sell1Buy2(0), &ob1, &ob2, None).unwrap();
    let later1 = book(MS, vec![lv(98, 1)], vec![lv(97, 1)]);
    let later2 = book(MS, vec![lv(206, 1)], vec![lv(205, 1)]);
    assert!(ledger.follow_signal(TradeSignal::NoSignal, &later1, &later2, None).is_err());
}
