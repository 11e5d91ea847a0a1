//! The perfect trader of the experiments: it follows the spreads of a pair of
//! instruments, remembers the lowest spread for selling the first instrument and, some
//! time after it, the highest spread for buying it back, and reports the deal between
//! the two once it is old enough and would have paid.
use crate::charts::spread_view;
use crate::decimal::{Dec, dec_div, dec_lt, decimal_quotient, opt_view};
use crate::events::{OrderBookView, copy_order_book};
use crate::model::{OrderBook, OrderData};
use crate::order_book::{
    Pick, liquid_mask, picked_level, picked_price, spread_defined, try_best_buy_price,
    try_best_sell_price, try_calculate_delta_buy, try_calculate_delta_sell, volume_mask,
    volumes_defined,
};
use crate::trading::{DealInfo, DealView, profit_spec};
use std::collections::HashMap;
use vstd::prelude::*;

verus! {

broadcast use vstd::std_specs::hash::group_hash_axioms;

/// The amount of money a deal trades on each leg.
pub const AMOUNT: i64 = 500;

/// The shortest time from the lowest to the highest spread of a deal: 200 ms, in
/// nanoseconds.
pub const MIN_DEAL_DURATION: i64 = 200_000_000;

/// The pause after a deal before the next lowest spread counts: 5 s, in nanoseconds.
pub const MIN_DEAL_PAUSE: i64 = 5_000_000_000;

/// How old the highest spread must be before the deal is reported: 10 minutes, in
/// nanoseconds.
pub const DEAL_SETTLE_TIME: i64 = 600_000_000_000;

/// How far back the spreads are kept after a deal: 30 minutes, in nanoseconds.
pub const DELTA_WINDOW: i64 = 1_800_000_000_000;

/// The spreads of the pair at one time: for buying the first instrument and for
/// selling it.
#[derive(Clone, Copy, Debug)]
pub struct Delta {
    pub time: i64,
    pub buy: Dec,
    pub sell: Dec,
}

/// A spread record by its time and the views of its two spreads.
pub open spec fn delta_view(d: Delta) -> (i64, (int, int), (int, int)) {
    (d.time, d.buy@, d.sell@)
}

/// The value of a decimal view, in units of 10^-28.
pub open spec fn val(v: (int, int)) -> int {
    crate::decimal::units_of(v)
}

/// The trader's state as plain values.
pub struct TraderState {
    pub last1: Option<OrderBookView>,
    pub last2: Option<OrderBookView>,
    pub deltas: Seq<(i64, (int, int), (int, int))>,
    pub prices1: Map<i64, (Dec, Dec)>,
    pub prices2: Map<i64, (Dec, Dec)>,
    pub cur_min: Option<(int, (i64, (int, int), (int, int)))>,
    pub cur_max: Option<(int, (i64, (int, int), (int, int)))>,
    pub last_close: i64,
}

/// The trader: the last order book of each instrument, the spreads seen, the prices
/// each instrument offered at those times, the lowest selling spread and the highest
/// buying spread after it, and when the last deal closed.
pub struct PerfectTrader {
    last1: Option<OrderBook>,
    last2: Option<OrderBook>,
    deltas: Vec<Delta>,
    prices1: HashMap<i64, (Dec, Dec)>,
    prices2: HashMap<i64, (Dec, Dec)>,
    cur_min: Option<(usize, Delta)>,
    cur_max: Option<(usize, Delta)>,
    last_deal_close_time: i64,
}

/// An order book, where there is one, by its view.
pub open spec fn book_view(b: Option<OrderBook>) -> Option<OrderBookView> {
    match b {
        Some(x) => Some(x@),
        None => None,
    }
}

/// A remembered spread by its index and view.
pub open spec fn mark_view(m: Option<(usize, Delta)>) -> Option<(int, (i64, (int, int), (int, int)))> {
    match m {
        Some((i, d)) => Some((i as int, delta_view(d))),
        None => None,
    }
}

impl View for PerfectTrader {
    type V = TraderState;

    closed spec fn view(&self) -> TraderState {
        TraderState {
            last1: book_view(self.last1),
            last2: book_view(self.last2),
            deltas: deltas_view(self.deltas@),
            prices1: self.prices1@,
            prices2: self.prices2@,
            cur_min: mark_view(self.cur_min),
            cur_max: mark_view(self.cur_max),
            last_close: self.last_deal_close_time,
        }
    }
}

/// The remembered spreads are spreads of the list, at their indices, and the highest
/// buying spread comes at least `MIN_DEAL_DURATION` after the lowest selling spread.
pub open spec fn state_wf(s: TraderState) -> bool {
    &&& s.cur_min matches Some((i, d)) ==> 0 <= i < s.deltas.len() && s.deltas[i] == d
    &&& s.cur_max matches Some((i, d)) ==> 0 <= i < s.deltas.len() && s.deltas[i] == d
    &&& (s.cur_min is Some && s.cur_max is Some) ==> s.cur_max.unwrap().1.0
        >= s.cur_min.unwrap().1.0 + MIN_DEAL_DURATION
}

/// The amount as a decimal.
pub open spec fn amount() -> Dec {
    Dec::int_spec(AMOUNT)
}

/// The prices a book offers for the amount: the highest bid and the lowest ask among the
/// levels whose size times price is at least the amount, where both exist.
pub open spec fn book_prices(b: OrderBookView) -> Option<(Dec, Dec)> {
    match (
        picked_price(b.bids, volume_mask(b.bids, amount(), true, false), Pick::LastMax),
        picked_price(b.asks, volume_mask(b.asks, amount(), true, false), Pick::FirstMin),
    ) {
        (Some(sell), Some(buy)) => Some((sell, buy)),
        _ => None,
    }
}

/// The spread between a level of one side and a level of another, each the picked level
/// among those that carry more than the amount.
pub open spec fn side_spread(s1: Seq<OrderData>, p1: Pick, s2: Seq<OrderData>, p2: Pick) -> Option<
    ((int, int), (int, int)),
> {
    spread_view(
        picked_level(s1, liquid_mask(s1, amount()), p1),
        picked_level(s2, liquid_mask(s2, amount()), p2),
    )
}

/// The spreads of a pair of books at `time`, where both exist: for buying the first
/// instrument (its ask against the second's bid) and for selling it.
pub open spec fn pair_delta(b1: OrderBookView, b2: OrderBookView, time: i64) -> Option<
    (i64, (int, int), (int, int)),
> {
    match (
        side_spread(b1.asks, Pick::FirstMin, b2.bids, Pick::LastMax),
        side_spread(b1.bids, Pick::LastMax, b2.asks, Pick::FirstMin),
    ) {
        (Some(buy), Some(sell)) => Some((time, buy.0, sell.0)),
        _ => None,
    }
}

/// Whether the prices and spreads of a pair of books stay within `Decimal`.
pub open spec fn record_defined(b1: OrderBookView, b2: OrderBookView) -> bool {
    &&& volumes_defined(b1.bids, true)
    &&& volumes_defined(b1.asks, true)
    &&& volumes_defined(b2.bids, true)
    &&& volumes_defined(b2.asks, true)
    &&& volumes_defined(b1.asks, false)
    &&& volumes_defined(b2.bids, false)
    &&& spread_defined(
        picked_level(b1.asks, liquid_mask(b1.asks, amount()), Pick::FirstMin),
        picked_level(b2.bids, liquid_mask(b2.bids, amount()), Pick::LastMax),
    )
    &&& volumes_defined(b1.bids, false)
    &&& volumes_defined(b2.asks, false)
    &&& spread_defined(
        picked_level(b1.bids, liquid_mask(b1.bids, amount()), Pick::LastMax),
        picked_level(b2.asks, liquid_mask(b2.asks, amount()), Pick::FirstMin),
    )
}

/// The state once a new book is kept as the last one of its instrument.
pub open spec fn with_book(s: TraderState, b: OrderBookView, is_first: bool) -> TraderState {
    if is_first {
        TraderState { last1: Some(b), ..s }
    } else {
        TraderState { last2: Some(b), ..s }
    }
}

/// The state once the prices and spreads of the last books are recorded at `time`.
pub open spec fn record_spec(s: TraderState, time: i64) -> TraderState {
    match (s.last1, s.last2) {
        (Some(b1), Some(b2)) => TraderState {
            prices1: match book_prices(b1) {
                Some(p) => s.prices1.insert(time, p),
                None => s.prices1,
            },
            prices2: match book_prices(b2) {
                Some(p) => s.prices2.insert(time, p),
                None => s.prices2,
            },
            deltas: match pair_delta(b1, b2, time) {
                Some(d) => s.deltas.push(d),
                None => s.deltas,
            },
            ..s
        },
        _ => s,
    }
}

/// What making a deal between two spreads gives: the deal, a time without recorded
/// prices, or a division that `Decimal` cannot do.
pub enum DealOutcome {
    Deal(DealView),
    Missing,
    Fault,
}

/// The deal between the spread at `sell_index` (selling the first instrument, buying
/// the second) and the one at `buy_index` (buying the first back, selling the second):
/// each leg trades the amount's worth at its opening price.
pub open spec fn make_deal_spec(s: TraderState, sell_index: int, buy_index: int) -> DealOutcome {
    let time_sell = s.deltas[sell_index].0;
    let time_buy = s.deltas[buy_index].0;
    if !s.prices1.contains_key(time_sell) {
        DealOutcome::Missing
    } else {
        match decimal_quotient(amount()@, s.prices1[time_sell].0@) {
            None => DealOutcome::Fault,
            Some(amount1) => if !s.prices2.contains_key(time_sell) {
                DealOutcome::Missing
            } else {
                match decimal_quotient(amount()@, s.prices2[time_sell].1@) {
                    None => DealOutcome::Fault,
                    Some(amount2) => if !s.prices1.contains_key(time_buy) || !s.prices2.contains_key(
                        time_buy,
                    ) {
                        DealOutcome::Missing
                    } else {
                        DealOutcome::Deal(
                            DealView {
                                open_time: time_sell,
                                close_time: time_buy,
                                amount: seq![amount1, amount2],
                                buy_price: seq![s.prices1[time_buy].1@, s.prices2[time_sell].1@],
                                sell_price: seq![s.prices1[time_sell].0@, s.prices2[time_buy].0@],
                            },
                        )
                    },
                }
            },
        }
    }
}

/// The state after the newest spread is weighed: it becomes the lowest selling spread
/// where it is below the one remembered (or none is) and the pause after the last deal
/// is over, which forgets the highest buying spread; then it becomes the highest buying
/// spread where it is above the one remembered (or none is) and comes long enough after
/// the lowest selling spread.
pub open spec fn weigh_spec(s: TraderState, cur_time: i64) -> TraderState {
    let last = s.deltas.last();
    let li = s.deltas.len() - 1;
    let last_is_min = match s.cur_min {
        Some((_, m)) => val(last.2) < val(m.2),
        None => true,
    };
    let s1 = if last_is_min && cur_time > s.last_close + MIN_DEAL_PAUSE {
        TraderState { cur_min: Some((li, last)), cur_max: None, ..s }
    } else {
        s
    };
    match s1.cur_min {
        Some((_, m)) => {
            let last_is_max = match s1.cur_max {
                Some((_, x)) => val(last.1) > val(x.1),
                None => true,
            };
            if last.0 >= m.0 + MIN_DEAL_DURATION && last_is_max {
                TraderState { cur_max: Some((li, last)), ..s1 }
            } else {
                s1
            }
        },
        None => s1,
    }
}

/// The analysis at `cur_time`: with at least five spreads, the newest is weighed; where
/// both a lowest selling and a later highest buying spread are remembered and the
/// latter is at least ten minutes old, the deal between them is made and reported if
/// its profit is not negative.  `None` where `Decimal` fails.
pub open spec fn analyze_spec(s: TraderState, cur_time: i64) -> Option<(TraderState, Option<DealView>)> {
    if s.deltas.len() < 5 {
        Some((s, None))
    } else {
        let s2 = weigh_spec(s, cur_time);
        match (s2.cur_min, s2.cur_max) {
            (Some((mi, _)), Some((xi, x))) => if x.0 > cur_time - DEAL_SETTLE_TIME {
                Some((s2, None))
            } else {
                match make_deal_spec(s2, mi, xi) {
                    DealOutcome::Missing => Some((s2, None)),
                    DealOutcome::Fault => None,
                    DealOutcome::Deal(d) => match profit_spec(d) {
                        None => None,
                        Some(p) => if p.0 >= 0 {
                            Some((s2, Some(d)))
                        } else {
                            Some((s2, None))
                        },
                    },
                }
            },
            _ => Some((s2, None)),
        }
    }
}

/// The spreads kept after a deal that closed at `time`: those later than thirty minutes
/// before it, in order.
pub open spec fn recent_deltas(ds: Seq<(i64, (int, int), (int, int))>, time: i64) -> Seq<
    (i64, (int, int), (int, int)),
>
    decreases ds.len(),
{
    if ds.len() == 0 {
        ds
    } else if ds.last().0 > time - DELTA_WINDOW {
        recent_deltas(ds.drop_last(), time).push(ds.last())
    } else {
        recent_deltas(ds.drop_last(), time)
    }
}

/// The prices at the times of the spreads, and no others.
pub open spec fn prices_at(prices: Map<i64, (Dec, Dec)>, ds: Seq<(i64, (int, int), (int, int))>) -> Map<
    i64,
    (Dec, Dec),
> {
    Map::new(|t: i64| exists|i: int| 0 <= i < ds.len() && ds[i].0 == t, |t: i64| prices[t])
}

/// Whether both instruments have prices at the times of all the spreads.
pub open spec fn prices_cover(s: TraderState, ds: Seq<(i64, (int, int), (int, int))>) -> bool {
    forall|i: int|
        0 <= i < ds.len() ==> s.prices1.contains_key(#[trigger] ds[i].0) && s.prices2.contains_key(
            ds[i].0,
        )
}

/// The index of the first lowest selling spread among the first `n` whose time is after
/// `after`.
pub open spec fn first_min_sell(ds: Seq<(i64, (int, int), (int, int))>, after: int, n: int) -> Option<
    int,
>
    decreases n,
{
    if n <= 0 {
        None
    } else {
        let r = first_min_sell(ds, after, n - 1);
        if ds[n - 1].0 > after {
            match r {
                None => Some(n - 1),
                Some(k) => if val(ds[n - 1].2) < val(ds[k].2) {
                    Some(n - 1)
                } else {
                    Some(k)
                },
            }
        } else {
            r
        }
    }
}

/// The index of the last highest buying spread among the first `n` whose time is at
/// least `from`.
pub open spec fn last_max_buy(ds: Seq<(i64, (int, int), (int, int))>, from: int, n: int) -> Option<
    int,
>
    decreases n,
{
    if n <= 0 {
        None
    } else {
        let r = last_max_buy(ds, from, n - 1);
        if ds[n - 1].0 >= from {
            match r {
                None => Some(n - 1),
                Some(k) => if val(ds[n - 1].1) >= val(ds[k].1) {
                    Some(n - 1)
                } else {
                    Some(k)
                },
            }
        } else {
            r
        }
    }
}

/// A spread of the list by its index, where there is one.
pub open spec fn mark_at(ds: Seq<(i64, (int, int), (int, int))>, k: Option<int>) -> Option<
    (int, (i64, (int, int), (int, int))),
> {
    match k {
        Some(i) => Some((i, ds[i])),
        None => None,
    }
}

/// The state after a deal that closed at `time`: the recent spreads with the prices at
/// their times; the lowest selling spread after the pause that follows the deal; the
/// highest buying spread long enough after it.  `None` where a recent spread has no
/// prices.
pub open spec fn clean_spec(s: TraderState, time: i64) -> Option<TraderState> {
    let kept = recent_deltas(s.deltas, time);
    if !prices_cover(s, kept) {
        None
    } else {
        let min = mark_at(kept, first_min_sell(kept, s.last_close + MIN_DEAL_PAUSE, kept.len() as int));
        Some(
            TraderState {
                deltas: kept,
                prices1: prices_at(s.prices1, kept),
                prices2: prices_at(s.prices2, kept),
                cur_min: min,
                cur_max: match min {
                    Some((_, m)) => mark_at(
                        kept,
                        last_max_buy(kept, m.0 + MIN_DEAL_DURATION, kept.len() as int),
                    ),
                    None => None,
                },
                ..s
            },
        )
    }
}

/// One step of the trader on a new order book of the first (or second) instrument: the
/// book is kept; where both instruments have a book, their prices for the amount and
/// their spreads are recorded at the new book's time; the analysis runs at that time;
/// a reported deal closes, and the spreads are cleaned after it.  `None` where `Decimal`
/// fails or a recent spread has no prices (where the steps would panic).
pub open spec fn trade_spec(s: TraderState, b: OrderBookView, is_first: bool) -> Option<
    (TraderState, Option<DealView>),
> {
    let s0 = with_book(s, b, is_first);
    if (s0.last1 matches Some(b1) && s0.last2 matches Some(b2) && !record_defined(b1, b2)) {
        None
    } else {
        match analyze_spec(record_spec(s0, b.timestamp), b.timestamp) {
            None => None,
            Some((s2, None)) => Some((s2, None)),
            Some((s2, Some(d))) => match clean_spec(
                TraderState { last_close: d.close_time, ..s2 },
                d.close_time,
            ) {
                None => None,
                Some(s3) => Some((s3, Some(d))),
            },
        }
    }
}

proof fn lemma_made_deal_amounts(s: TraderState, sell_index: int, buy_index: int)
    ensures
        make_deal_spec(s, sell_index, buy_index) matches DealOutcome::Deal(d) ==> decimal_quotient(
            amount()@,
            d.sell_price[0],
        ) == Some(d.amount[0]) && decimal_quotient(amount()@, d.buy_price[1]) == Some(d.amount[1]),
{
}

/// The law of the perfect trader's deals: in a reported deal each leg trades the
/// amount's worth at its opening price, so the first leg's amount is the amount divided
/// by its selling price and the second leg's is the amount divided by its buying price.
pub proof fn law_deal_legs_trade_the_amount(s: TraderState, b: OrderBookView, is_first: bool)
    ensures
        trade_spec(s, b, is_first) matches Some((_, Some(d))) ==> decimal_quotient(
            amount()@,
            d.sell_price[0],
        ) == Some(d.amount[0]) && decimal_quotient(amount()@, d.buy_price[1]) == Some(d.amount[1]),
{
    let s0 = with_book(s, b, is_first);
    let s1 = record_spec(s0, b.timestamp);
    if s1.deltas.len() >= 5 {
        let s2 = weigh_spec(s1, b.timestamp);
        match (s2.cur_min, s2.cur_max) {
            (Some((mi, _)), Some((xi, _))) => {
                lemma_made_deal_amounts(s2, mi, xi);
            },
            _ => {},
        }
    }
}

/// Why a step of the trader stopped: a `Decimal` operation failed, or a recent spread
/// had no prices.
#[derive(Clone, Copy, Debug, PartialEq, Eq, Structural)]
pub enum TradeFault {
    Fault,
}

/// A reported deal, where there is one, by its view.
pub open spec fn deal_view_opt(d: Option<DealInfo>) -> Option<DealView> {
    match d {
        Some(x) => Some(x@),
        None => None,
    }
}

proof fn lemma_last_max_buy(ds: Seq<(i64, (int, int), (int, int))>, from: int, n: int)
    ensures
        last_max_buy(ds, from, n) matches Some(k) ==> 0 <= k < n && ds[k].0 >= from,
    decreases n,
{
    if n > 0 {
        lemma_last_max_buy(ds, from, n - 1);
    }
}

proof fn lemma_recent_prefix(ds: Seq<(i64, (int, int), (int, int))>, time: i64, i: int, k: int)
    requires
        0 <= i <= k <= ds.len(),
    ensures
        recent_deltas(ds.take(i), time).len() <= recent_deltas(ds.take(k), time).len(),
        forall|j: int|
            0 <= j < recent_deltas(ds.take(i), time).len() ==> #[trigger] recent_deltas(
                ds.take(k),
                time,
            )[j] == recent_deltas(ds.take(i), time)[j],
    decreases k - i,
{
    if i < k {
        lemma_recent_prefix(ds, time, i, k - 1);
        assert(ds.take(k).drop_last() =~= ds.take(k - 1));
    }
}

impl PerfectTrader {
    /// A trader that has seen nothing; the last deal closed at time zero.
    pub fn new() -> (t: PerfectTrader)
        ensures
            t@.last1 is None && t@.last2 is None,
            t@.deltas.len() == 0,
            t@.prices1 == Map::<i64, (Dec, Dec)>::empty(),
            t@.prices2 == Map::<i64, (Dec, Dec)>::empty(),
            t@.cur_min is None && t@.cur_max is None,
            t@.last_close == 0,
            state_wf(t@),
    {
        let t = PerfectTrader {
            last1: None,
            last2: None,
            deltas: Vec::new(),
            prices1: HashMap::new(),
            prices2: HashMap::new(),
            cur_min: None,
            cur_max: None,
            last_deal_close_time: 0,
        };
        assert(t@.deltas =~= Seq::<(i64, (int, int), (int, int))>::empty());
        t
    }

    fn record(&mut self, time: i64) -> (ok: bool)
        requires
            state_wf(old(self)@),
        ensures
            ok == !(old(self)@.last1 matches Some(b1) && old(self)@.last2 matches Some(b2)
                && !record_defined(b1, b2)),
            ok ==> final(self)@ == record_spec(old(self)@, time),
            ok ==> state_wf(final(self)@),
    {
        let ghost s = self@;
        match (&self.last1, &self.last2) {
            (Some(ob1), Some(ob2)) => {
                let amount = Dec::from_int(AMOUNT);
                let sell1 = try_best_sell_price(ob1.bids.as_slice(), amount);
                let buy1 = try_best_buy_price(ob1.asks.as_slice(), amount);
                let sell2 = try_best_sell_price(ob2.bids.as_slice(), amount);
                let buy2 = try_best_buy_price(ob2.asks.as_slice(), amount);
                let delta_buy = try_calculate_delta_buy(ob1, ob2, amount);
                let delta_sell = try_calculate_delta_sell(ob1, ob2, amount);
                match (sell1, buy1, sell2, buy2, delta_buy, delta_sell) {
                    (Some(s1), Some(b1), Some(s2), Some(b2), Some(db), Some(ds)) => {
                        if let (Some(x), Some(y)) = (s1, b1) {
                            self.prices1.insert(time, (x, y));
                        }
                        if let (Some(x), Some(y)) = (s2, b2) {
                            self.prices2.insert(time, (x, y));
                        }
                        if let (Some(b), Some(a)) = (db, ds) {
                            let ghost before = self.deltas@;
                            self.deltas.push(Delta { time, buy: b.price, sell: a.price });
                            assert(deltas_view(self.deltas@) =~= deltas_view(before).push(
                                (time, b.price@, a.price@),
                            ));
                        }
                        true
                    },
                    _ => false,
                }
            },
            _ => true,
        }
    }

    fn make_deal(&self, sell_index: usize, buy_index: usize) -> (r: Result<Option<DealInfo>, TradeFault>)
        requires
            sell_index < self@.deltas.len(),
            buy_index < self@.deltas.len(),
        ensures
            match make_deal_spec(self@, sell_index as int, buy_index as int) {
                DealOutcome::Missing => r == Ok::<Option<DealInfo>, TradeFault>(None),
                DealOutcome::Fault => r is Err,
                DealOutcome::Deal(d) => (r matches Ok(Some(x)) && x@ == d),
            },
    {
        let amount = Dec::from_int(AMOUNT);
        let time_sell = self.deltas[sell_index].time;
        let time_buy = self.deltas[buy_index].time;
        assert(self@.deltas[sell_index as int].0 == time_sell);
        assert(self@.deltas[buy_index as int].0 == time_buy);
        let (sell1, _) = match self.prices1.get(&time_sell) {
            Some(p) => *p,
            None => {
                return Ok(None);
            },
        };
        let amount1 = match dec_div(amount, sell1) {
            Some(a) => a,
            None => {
                return Err(TradeFault::Fault);
            },
        };
        let (_, buy2) = match self.prices2.get(&time_sell) {
            Some(p) => *p,
            None => {
                return Ok(None);
            },
        };
        let amount2 = match dec_div(amount, buy2) {
            Some(a) => a,
            None => {
                return Err(TradeFault::Fault);
            },
        };
        let (_, buy1) = match self.prices1.get(&time_buy) {
            Some(p) => *p,
            None => {
                return Ok(None);
            },
        };
        let (sell2, _) = match self.prices2.get(&time_buy) {
            Some(p) => *p,
            None => {
                return Ok(None);
            },
        };
        let deal = DealInfo {
            open_time: time_sell,
            close_time: time_buy,
            sell_price: [sell1, sell2],
            buy_price: [buy1, buy2],
            amount: [amount1, amount2],
        };
        assert(deal@.amount =~= seq![amount1@, amount2@]);
        assert(deal@.buy_price =~= seq![buy1@, buy2@]);
        assert(deal@.sell_price =~= seq![sell1@, sell2@]);
        Ok(Some(deal))
    }
}

impl PerfectTrader {
    fn analyze(&mut self, cur_time: i64) -> (r: Result<Option<DealInfo>, TradeFault>)
        requires
            state_wf(old(self)@),
        ensures
            match analyze_spec(old(self)@, cur_time) {
                None => r is Err,
                Some((s, d)) => (r matches Ok(x) && final(self)@ == s && deal_view_opt(x) == d),
            },
            r is Ok ==> state_wf(final(self)@),
            r matches Ok(Some(d)) ==> d.close_time >= d.open_time + MIN_DEAL_DURATION && (profit_spec(
                d@,
            ) matches Some(p) && p.0 >= 0),
    {
        let ghost s = self@;
        let n = self.deltas.len();
        if n < 5 {
            return Ok(None);
        }
        let li = n - 1;
        let last = self.deltas[li];
        assert(s.deltas.last() == delta_view(last));
        let last_is_min = match self.cur_min {
            Some((_, m)) => dec_lt(&last.sell, &m.sell),
            None => true,
        };
        if last_is_min && (cur_time as i128) > (self.last_deal_close_time as i128) + (
        MIN_DEAL_PAUSE as i128) {
            self.cur_min = Some((li, last));
            self.cur_max = None;
        }
        match self.cur_min {
            Some((_, m)) => {
                let last_is_max = match self.cur_max {
                    Some((_, x)) => dec_lt(&x.buy, &last.buy),
                    None => true,
                };
                if (last.time as i128) >= (m.time as i128) + (MIN_DEAL_DURATION as i128)
                    && last_is_max {
                    self.cur_max = Some((li, last));
                }
            },
            None => {},
        }
        assert(self@ == weigh_spec(s, cur_time));
        match (self.cur_min, self.cur_max) {
            (Some((mi, _)), Some((xi, x))) => {
                if (x.time as i128) > (cur_time as i128) - (DEAL_SETTLE_TIME as i128) {
                    return Ok(None);
                }
                match self.make_deal(mi, xi) {
                    Err(e) => Err(e),
                    Ok(None) => Ok(None),
                    Ok(Some(deal)) => match deal.try_profit() {
                        None => Err(TradeFault::Fault),
                        Some(p) => if p.is_sign_positive() {
                            Ok(Some(deal))
                        } else {
                            Ok(None)
                        },
                    },
                }
            },
            _ => Ok(None),
        }
    }
}

/// The views of a list of spreads.
pub open spec fn deltas_view(ds: Seq<Delta>) -> Seq<(i64, (int, int), (int, int))> {
    ds.map_values(|d: Delta| delta_view(d))
}

fn first_min_sell_index(ds: &Vec<Delta>, after: i128) -> (r: Option<usize>)
    ensures
        r is None <==> first_min_sell(deltas_view(ds@), after as int, ds@.len() as int) is None,
        r matches Some(x) ==> first_min_sell(deltas_view(ds@), after as int, ds@.len() as int) == Some(
            x as int,
        ) && x < ds@.len(),
{
    let ghost v = deltas_view(ds@);
    let mut best: Option<usize> = None;
    let mut j: usize = 0;
    while j < ds.len()
        invariant
            j <= ds@.len(),
            v == deltas_view(ds@),
            match first_min_sell(v, after as int, j as int) {
                Some(k) => best == Some(k as usize) && 0 <= k < j,
                None => best is None,
            },
        decreases ds@.len() - j,
    {
        let d = ds[j];
        assert(v[j as int] == delta_view(d));
        if (d.time as i128) > after {
            match best {
                None => {
                    best = Some(j);
                },
                Some(k) => {
                    assert(v[k as int] == delta_view(ds@[k as int]));
                    if dec_lt(&d.sell, &ds[k].sell) {
                        best = Some(j);
                    }
                },
            }
        }
        j = j + 1;
    }
    best
}

fn last_max_buy_index(ds: &Vec<Delta>, from: i128) -> (r: Option<usize>)
    ensures
        r is None <==> last_max_buy(deltas_view(ds@), from as int, ds@.len() as int) is None,
        r matches Some(x) ==> last_max_buy(deltas_view(ds@), from as int, ds@.len() as int) == Some(
            x as int,
        ) && x < ds@.len(),
{
    let ghost v = deltas_view(ds@);
    let mut best: Option<usize> = None;
    let mut j: usize = 0;
    while j < ds.len()
        invariant
            j <= ds@.len(),
            v == deltas_view(ds@),
            match last_max_buy(v, from as int, j as int) {
                Some(k) => best == Some(k as usize) && 0 <= k < j,
                None => best is None,
            },
        decreases ds@.len() - j,
    {
        let d = ds[j];
        assert(v[j as int] == delta_view(d));
        if (d.time as i128) >= from {
            match best {
                None => {
                    best = Some(j);
                },
                Some(k) => {
                    assert(v[k as int] == delta_view(ds@[k as int]));
                    if !dec_lt(&d.buy, &ds[k].buy) {
                        best = Some(j);
                    }
                },
            }
        }
        j = j + 1;
    }
    best
}

impl PerfectTrader {
    fn clean(&mut self, time: i64) -> (ok: bool)
        ensures
            ok == clean_spec(old(self)@, time) is Some,
            ok ==> final(self)@ == clean_spec(old(self)@, time).unwrap(),
            ok ==> state_wf(final(self)@),
    {
        let ghost s = self@;
        let ghost all = s.deltas;
        let ghost kept_all = recent_deltas(all, time);
        let mut kept: Vec<Delta> = Vec::new();
        let mut new_prices1: HashMap<i64, (Dec, Dec)> = HashMap::new();
        let mut new_prices2: HashMap<i64, (Dec, Dec)> = HashMap::new();
        let mut i: usize = 0;
        assert(all.take(0) =~= Seq::<(i64, (int, int), (int, int))>::empty());
        assert(new_prices1@ =~= prices_at(s.prices1, deltas_view(kept@)));
        assert(new_prices2@ =~= prices_at(s.prices2, deltas_view(kept@)));
        while i < self.deltas.len()
            invariant
                s == self@,
                all == s.deltas,
                kept_all == recent_deltas(all, time),
                i <= all.len(),
                deltas_view(kept@) == recent_deltas(all.take(i as int), time),
                prices_cover(s, deltas_view(kept@)),
                new_prices1@ == prices_at(s.prices1, deltas_view(kept@)),
                new_prices2@ == prices_at(s.prices2, deltas_view(kept@)),
            decreases all.len() - i,
        {
            let d = self.deltas[i];
            assert(all[i as int] == delta_view(d));
            assert(all.take(i + 1).drop_last() =~= all.take(i as int));
            assert(all.take(i + 1).last() == delta_view(d));
            if (d.time as i128) > (time as i128) - (DELTA_WINDOW as i128) {
                let ghost kv = deltas_view(kept@);
                let p1 = match self.prices1.get(&d.time) {
                    Some(p) => *p,
                    None => {
                        proof {
                            lemma_recent_prefix(all, time, i + 1, all.len() as int);
                            assert(all.take(all.len() as int) =~= all);
                            assert(kept_all[kv.len() as int] == delta_view(d));
                        }
                        return false;
                    },
                };
                let p2 = match self.prices2.get(&d.time) {
                    Some(p) => *p,
                    None => {
                        proof {
                            lemma_recent_prefix(all, time, i + 1, all.len() as int);
                            assert(all.take(all.len() as int) =~= all);
                            assert(kept_all[kv.len() as int] == delta_view(d));
                        }
                        return false;
                    },
                };
                kept.push(d);
                new_prices1.insert(d.time, p1);
                new_prices2.insert(d.time, p2);
                let ghost nv = deltas_view(kept@);
                assert(nv =~= kv.push(delta_view(d)));
                assert(new_prices1@ =~= prices_at(s.prices1, nv)) by {
                    assert forall|t: i64| #[trigger] new_prices1@.contains_key(t) <==> prices_at(
                        s.prices1,
                        nv,
                    ).contains_key(t) by {
                        if t == d.time {
                            assert(nv[kv.len() as int].0 == t);
                        } else if prices_at(s.prices1, nv).contains_key(t) {
                            let w = choose|w: int| 0 <= w < nv.len() && nv[w].0 == t;
                            assert(kv[w] == nv[w]);
                        } else if prices_at(s.prices1, kv).contains_key(t) {
                            let w = choose|w: int| 0 <= w < kv.len() && kv[w].0 == t;
                            assert(nv[w] == kv[w]);
                        }
                    }
                }
                assert(new_prices2@ =~= prices_at(s.prices2, nv)) by {
                    assert forall|t: i64| #[trigger] new_prices2@.contains_key(t) <==> prices_at(
                        s.prices2,
                        nv,
                    ).contains_key(t) by {
                        if t == d.time {
                            assert(nv[kv.len() as int].0 == t);
                        } else if prices_at(s.prices2, nv).contains_key(t) {
                            let w = choose|w: int| 0 <= w < nv.len() && nv[w].0 == t;
                            assert(kv[w] == nv[w]);
                        } else if prices_at(s.prices2, kv).contains_key(t) {
                            let w = choose|w: int| 0 <= w < kv.len() && kv[w].0 == t;
                            assert(nv[w] == kv[w]);
                        }
                    }
                }
                assert(prices_cover(s, nv)) by {
                    assert forall|w: int| 0 <= w < nv.len() implies s.prices1.contains_key(
                        #[trigger] nv[w].0,
                    ) && s.prices2.contains_key(nv[w].0) by {
                        if w < kv.len() {
                            assert(nv[w] == kv[w]);
                        }
                    }
                }
            }
            i = i + 1;
        }
        assert(all.take(all.len() as int) =~= all);
        self.deltas = kept;
        self.prices1 = new_prices1;
        self.prices2 = new_prices2;
        let after = (self.last_deal_close_time as i128) + (MIN_DEAL_PAUSE as i128);
        assert(deltas_view(self.deltas@) == kept_all);
        match first_min_sell_index(&self.deltas, after) {
            Some(k) => {
                let m = self.deltas[k];
                assert(deltas_view(self.deltas@)[k as int] == delta_view(m));
                self.cur_min = Some((k, m));
                let from = (m.time as i128) + (MIN_DEAL_DURATION as i128);
                proof {
                    lemma_last_max_buy(deltas_view(self.deltas@), from as int, self.deltas@.len() as int);
                }
                match last_max_buy_index(&self.deltas, from) {
                    Some(j) => {
                        assert(deltas_view(self.deltas@)[j as int] == delta_view(self.deltas@[j as int]));
                        self.cur_max = Some((j, self.deltas[j]));
                    },
                    None => {
                        self.cur_max = None;
                    },
                }
            },
            None => {
                self.cur_min = None;
                self.cur_max = None;
            },
        }
        true
    }

    /// One step of the trader on a new order book of the first instrument (or of the
    /// second): see `trade_spec`.  Returns the deal it reports, if any; `Err` where the
    /// step cannot be done within `Decimal` or a recent spread has no prices.
    pub fn trade(&mut self, order_book: &OrderBook, is_first: bool) -> (r: Result<
        Option<DealInfo>,
        TradeFault,
    >)
        requires
            state_wf(old(self)@),
        ensures
            match trade_spec(old(self)@, order_book@, is_first) {
                None => r is Err,
                Some((s, d)) => (r matches Ok(x) && final(self)@ == s && deal_view_opt(x) == d),
            },
            r is Ok ==> state_wf(final(self)@),
            r matches Ok(Some(d)) ==> d.close_time >= d.open_time + MIN_DEAL_DURATION && (profit_spec(
                d@,
            ) matches Some(p) && p.0 >= 0),
    {
        let ghost s = self@;
        if is_first {
            self.last1 = Some(copy_order_book(order_book));
        } else {
            self.last2 = Some(copy_order_book(order_book));
        }
        assert(self@ == with_book(s, order_book@, is_first));
        if !self.record(order_book.timestamp) {
            return Err(TradeFault::Fault);
        }
        match self.analyze(order_book.timestamp) {
            Err(e) => Err(e),
            Ok(None) => Ok(None),
            Ok(Some(deal)) => {
                self.last_deal_close_time = deal.close_time;
                if self.clean(deal.close_time) {
                    Ok(Some(deal))
                } else {
                    Err(TradeFault::Fault)
                }
            },
        }
    }
}

} // verus!
