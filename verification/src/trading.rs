//! The vocabulary of the pair-trading strategies, and the settlement of a closed deal.
use crate::decimal::{
    Dec, dec_add, dec_div, dec_mul, dec_sub, decimal_product, decimal_quotient, difference_of,
    opt_view, product_of, quotient_of, sum_of, units_of,
};
use crate::model::{OrderBook, OrderData};
use crate::order_book::{
    Pick, lemma_pick_prefix, pick_index, picked_price, try_best_buy_price, try_best_sell_price,
    volume_mask, volumes_defined,
};
use vstd::prelude::*;

verus! {

/// The direction of a pair deal.
#[derive(Clone, Copy, Debug, PartialEq, Eq, Structural)]
pub enum DealDirection {
    Sell1Buy2,
    Buy1Sell2,
}

/// The direction a signal calls for, if any.
#[derive(Clone, Copy, Debug, PartialEq, Eq, Structural)]
pub enum Signal {
    NoSignal,
    Buy1Sell2,
    Sell1Buy2,
}

/// The leg of a pair an order book belongs to.
#[derive(Clone, Copy, Debug, PartialEq, Eq, Structural)]
pub enum Leg {
    First,
    Second,
}

/// The cost functions that the signal parameters are calibrated against.
#[derive(Clone, Copy, Debug, PartialEq, Eq, Structural)]
pub enum CostFunctionImpl {
    TradingSimulation,
    SpearmanRanking,
    HuberLoss,
}

impl CostFunctionImpl {
    /// Whether the calibration also optimises the signal threshold: only for the trading
    /// simulation.
    pub fn optimize_threshold(&self) -> (r: bool)
        ensures
            r == (*self is TradingSimulation),
    {
        match self {
            CostFunctionImpl::TradingSimulation => true,
            CostFunctionImpl::SpearmanRanking => false,
            CostFunctionImpl::HuberLoss => false,
        }
    }
}

/// The two instruments of a strategy calibration.
#[derive(Clone, Copy, Debug)]
pub struct StrategyOptimizer {
    pub instrument1_id: i16,
    pub instrument2_id: i16,
}

/// A closed pair deal: the amount, buying price and selling price of each leg.  Times
/// are nanoseconds since the Unix epoch.
#[derive(Clone, Copy, Debug)]
pub struct DealInfo {
    pub open_time: i64,
    pub close_time: i64,
    pub amount: [Dec; 2],
    pub buy_price: [Dec; 2],
    pub sell_price: [Dec; 2],
}

/// The commission rate, 40 per 1000 * 100 of the traded value.
pub const COMMISSION_PER_BASE: i64 = 40;

/// The base of the commission rate.
pub const COMMISSION_BASE: i64 = 1000 * 100;

/// A closed pair deal as plain values: the times, then the amount, buying price and
/// selling price of each leg, each by mantissa and scale.
pub struct DealView {
    pub open_time: i64,
    pub close_time: i64,
    pub amount: Seq<(int, int)>,
    pub buy_price: Seq<(int, int)>,
    pub sell_price: Seq<(int, int)>,
}

impl View for DealInfo {
    type V = DealView;

    open spec fn view(&self) -> DealView {
        DealView {
            open_time: self.open_time,
            close_time: self.close_time,
            amount: seq![self.amount@[0]@, self.amount@[1]@],
            buy_price: seq![self.buy_price@[0]@, self.buy_price@[1]@],
            sell_price: seq![self.sell_price@[0]@, self.sell_price@[1]@],
        }
    }
}

/// The profit of leg `i`: (sell price - buy price) * amount.
pub open spec fn leg_profit(deal: DealView, i: int) -> Option<(int, int)> {
    product_of(difference_of(Some(deal.sell_price[i]), Some(deal.buy_price[i])), Some(deal.amount[i]))
}

/// The commission of leg `i`: (buy price + sell price) * amount * 40 / 100000.
pub open spec fn leg_commission(deal: DealView, i: int) -> Option<(int, int)> {
    quotient_of(
        product_of(
            product_of(sum_of(Some(deal.buy_price[i]), Some(deal.sell_price[i])), Some(deal.amount[i])),
            Some((COMMISSION_PER_BASE as int, 0)),
        ),
        Some((COMMISSION_BASE as int, 0)),
    )
}

/// The net profit of a deal as `profit` computes it with `Decimal`: the sum of the legs'
/// profits, from zero, minus the sum of their commissions, from zero; `None` where an
/// operation overflows.
pub open spec fn profit_spec(deal: DealView) -> Option<(int, int)> {
    difference_of(
        sum_of(sum_of(Some((0, 0)), leg_profit(deal, 0)), leg_profit(deal, 1)),
        sum_of(sum_of(Some((0, 0)), leg_commission(deal, 0)), leg_commission(deal, 1)),
    )
}

fn opt_then_mul(a: Option<Dec>, b: Dec) -> (r: Option<Dec>)
    ensures
        opt_view(r) == product_of(opt_view(a), Some(b@)),
{
    match a {
        Some(x) => dec_mul(x, b),
        None => None,
    }
}

fn opt_then_add(a: Option<Dec>, b: Option<Dec>) -> (r: Option<Dec>)
    ensures
        opt_view(r) == sum_of(opt_view(a), opt_view(b)),
{
    match (a, b) {
        (Some(x), Some(y)) => dec_add(x, y),
        _ => None,
    }
}

impl DealInfo {
    /// `profit`, or `None` where `Decimal` overflows (where it would panic).
    pub fn try_profit(&self) -> (r: Option<Dec>)
        ensures
            opt_view(r) == profit_spec(self@),
    {
        let rate = Dec::from_int(COMMISSION_PER_BASE);
        let base = Dec::from_int(COMMISSION_BASE);
        let zero = Dec::zero();
        let mut profit = Some(zero);
        let mut commission = Some(zero);
        let mut i: usize = 0;
        while i < 2
            invariant
                0 <= i <= 2,
                rate@ == (COMMISSION_PER_BASE as int, 0int),
                base@ == (COMMISSION_BASE as int, 0int),
                i == 0 ==> opt_view(profit) == Some((0int, 0int)) && opt_view(commission) == Some(
                    (0int, 0int),
                ),
                i == 1 ==> opt_view(profit) == sum_of(Some((0, 0)), leg_profit(self@, 0))
                    && opt_view(commission) == sum_of(Some((0, 0)), leg_commission(self@, 0)),
                i == 2 ==> opt_view(profit) == sum_of(
                    sum_of(Some((0, 0)), leg_profit(self@, 0)),
                    leg_profit(self@, 1),
                ) && opt_view(commission) == sum_of(
                    sum_of(Some((0, 0)), leg_commission(self@, 0)),
                    leg_commission(self@, 1),
                ),
            decreases 2 - i,
        {
            let leg_profit = opt_then_mul(dec_sub(self.sell_price[i], self.buy_price[i]), self.amount[i]);
            profit = opt_then_add(profit, leg_profit);
            let traded = opt_then_mul(dec_add(self.buy_price[i], self.sell_price[i]), self.amount[i]);
            let charged = opt_then_mul(traded, rate);
            let leg_commission = match charged {
                Some(c) => dec_div(c, base),
                None => None,
            };
            commission = opt_then_add(commission, leg_commission);
            i = i + 1;
        }
        match (profit, commission) {
            (Some(p), Some(c)) => dec_sub(p, c),
            _ => None,
        }
    }

    /// The net profit of the deal: the legs' profits, (sell - buy) * amount, minus their
    /// commissions, (buy + sell) * amount * 40 / 100000.
    pub fn profit(&self) -> (r: Dec)
        requires
            profit_spec(self@) is Some,
        ensures
            r@ == profit_spec(self@).unwrap(),
    {
        self.try_profit().unwrap()
    }
}

/// An hour, in nanoseconds: how long a pair deal may stay open at a loss.
pub const DEAL_MAX_HOLD: i64 = 3_600_000_000_000;

/// The highest price at which the amount can be sold on a side (see `best_sell_price`).
pub open spec fn sell_price_for(side: Seq<OrderData>, amount: Dec) -> Option<Dec> {
    picked_price(side, volume_mask(side, amount, true, false), Pick::LastMax)
}

/// The lowest price at which the amount can be bought on a side (see `best_buy_price`).
pub open spec fn buy_price_for(side: Seq<OrderData>, amount: Dec) -> Option<Dec> {
    picked_price(side, volume_mask(side, amount, true, false), Pick::FirstMin)
}

/// The opening of a pair deal at `time`: selling the first instrument at the highest
/// price its bids take the amount at, buying the second at the lowest price its asks
/// give it at, each leg for the amount's worth.  `Some(None)` where a price is missing;
/// `None` where `Decimal` fails.
pub open spec fn open_pair_spec(ob1: OrderBook, ob2: OrderBook, amount: Dec, time: i64) -> Option<
    Option<DealView>,
> {
    if !volumes_defined(ob1.bids@, true) || !volumes_defined(ob2.asks@, true) {
        None
    } else {
        match (sell_price_for(ob1.bids@, amount), buy_price_for(ob2.asks@, amount)) {
            (Some(sell1), Some(buy2)) => match (
                decimal_quotient(amount@, sell1@),
                decimal_quotient(amount@, buy2@),
            ) {
                (Some(a1), Some(a2)) => Some(
                    Some(
                        DealView {
                            open_time: time,
                            close_time: 0,
                            amount: seq![a1, a2],
                            buy_price: seq![(0, 0), buy2@],
                            sell_price: seq![sell1@, (0, 0)],
                        },
                    ),
                ),
                _ => None,
            },
            _ => Some(None),
        }
    }
}

/// The closing of an open pair deal at `time`: buying the first instrument back at the
/// lowest price its asks give the amount at, selling the second at the highest price its
/// bids take it at; the deal closes where its profit is not negative or it has been open
/// for more than an hour.  `Some(None)` where it stays open; `None` where `Decimal`
/// fails.
pub open spec fn close_pair_spec(deal: DealView, ob1: OrderBook, ob2: OrderBook, amount: Dec, time: i64) -> Option<
    Option<DealView>,
> {
    if !volumes_defined(ob1.asks@, true) || !volumes_defined(ob2.bids@, true) {
        None
    } else {
        match (buy_price_for(ob1.asks@, amount), sell_price_for(ob2.bids@, amount)) {
            (Some(buy1), Some(sell2)) => {
                let closed = DealView {
                    close_time: time,
                    buy_price: deal.buy_price.update(0, buy1@),
                    sell_price: deal.sell_price.update(1, sell2@),
                    ..deal
                };
                match profit_spec(closed) {
                    None => None,
                    Some(p) => if p.0 >= 0 || time > deal.open_time + DEAL_MAX_HOLD {
                        Some(Some(closed))
                    } else {
                        Some(None)
                    },
                }
            },
            _ => Some(None),
        }
    }
}

/// Whether a level can fill `amount`: its size times its price, as `Decimal` computes
/// it, is at least `amount`.
pub open spec fn fills(d: OrderData, amount: Dec) -> bool {
    decimal_product(d.size@, d.price@) matches Some(v) && units_of(v) >= amount.units()
}

/// Whether `p` is the price at which a side deals `amount`: the price of one of its
/// levels that can fill the amount, and the lowest (`lowest`) or the highest price of
/// all such levels.
pub open spec fn price_for_amount(side: Seq<OrderData>, amount: Dec, lowest: bool, p: (int, int)) -> bool {
    &&& exists|k: int| 0 <= k < side.len() && (#[trigger] side[k]).price@ == p && fills(side[k], amount)
    &&& forall|j: int|
        0 <= j < side.len() && fills(side[j], amount) ==> if lowest {
            units_of(p) <= (#[trigger] side[j]).price.units()
        } else {
            (#[trigger] side[j]).price.units() <= units_of(p)
        }
}

proof fn lemma_price_for_amount(side: Seq<OrderData>, amount: Dec, pick: Pick)
    requires
        volumes_defined(side, true),
        pick is FirstMin || pick is LastMax,
    ensures
        picked_price(side, volume_mask(side, amount, true, false), pick) matches Some(p)
            ==> price_for_amount(side, amount, pick is FirstMin, p@),
{
    let mask = volume_mask(side, amount, true, false);
    lemma_pick_prefix(side, mask, pick, side.len() as int);
    if pick_index(side, mask, pick) is Some {
        let k = pick_index(side, mask, pick).unwrap();
        assert(crate::order_book::level_volume(side[k], true) is Some);
        assert(fills(side[k], amount));
        assert forall|j: int| 0 <= j < side.len() && fills(side[j], amount) implies if pick is FirstMin {
            side[k].price.units() <= (#[trigger] side[j]).price.units()
        } else {
            (#[trigger] side[j]).price.units() <= side[k].price.units()
        } by {
            assert(mask[j]);
        }
    }
}

/// The law of opening a pair deal: an opened deal sells the first instrument at the
/// highest price at which its bids take the amount and buys the second at the lowest
/// price at which its asks give it; each leg's amount is the amount divided by that
/// leg's price, and the deal opens at the given time.
pub proof fn law_open_at_best_prices(ob1: OrderBook, ob2: OrderBook, amount: Dec, time: i64)
    ensures
        open_pair_spec(ob1, ob2, amount, time) matches Some(Some(d)) ==> {
            &&& d.open_time == time
            &&& price_for_amount(ob1.bids@, amount, false, d.sell_price[0])
            &&& price_for_amount(ob2.asks@, amount, true, d.buy_price[1])
            &&& decimal_quotient(amount@, d.sell_price[0]) == Some(d.amount[0])
            &&& decimal_quotient(amount@, d.buy_price[1]) == Some(d.amount[1])
        },
{
    if open_pair_spec(ob1, ob2, amount, time) matches Some(Some(d)) {
        lemma_price_for_amount(ob1.bids@, amount, Pick::LastMax);
        lemma_price_for_amount(ob2.asks@, amount, Pick::FirstMin);
    }
}

/// The law of closing a pair deal: a deal is closed only where it does not lose or has
/// been open for more than an hour, counted from when it was opened; so a losing deal
/// that was opened an hour ago or less stays open.  A closed deal keeps its opening time,
/// amounts and opening prices, takes the closing time, buys the first instrument back at
/// the lowest price at which its asks give the amount and sells the second at the
/// highest price at which its bids take it.
pub proof fn law_losing_deal_stays_open(deal: DealView, ob1: OrderBook, ob2: OrderBook, amount: Dec, time: i64)
    requires
        deal.buy_price.len() == 2,
        deal.sell_price.len() == 2,
    ensures
        close_pair_spec(deal, ob1, ob2, amount, time) matches Some(Some(c)) ==> {
            &&& c.open_time == deal.open_time
            &&& c.close_time == time
            &&& c.amount == deal.amount
            &&& c.sell_price[0] == deal.sell_price[0]
            &&& c.buy_price[1] == deal.buy_price[1]
            &&& price_for_amount(ob1.asks@, amount, true, c.buy_price[0])
            &&& price_for_amount(ob2.bids@, amount, false, c.sell_price[1])
            &&& profit_spec(c) matches Some(p) && (p.0 >= 0 || time > deal.open_time
                + DEAL_MAX_HOLD)
        },
        (close_pair_spec(deal, ob1, ob2, amount, time) matches Some(Some(c)) && profit_spec(c)
            matches Some(p) && p.0 < 0) ==> time > deal.open_time + DEAL_MAX_HOLD,
{
    if close_pair_spec(deal, ob1, ob2, amount, time) matches Some(Some(c)) {
        lemma_price_for_amount(ob1.asks@, amount, Pick::FirstMin);
        lemma_price_for_amount(ob2.bids@, amount, Pick::LastMax);
    }
}

/// A deal, where there is one, by its view.
pub open spec fn opt_deal_view(d: Option<DealInfo>) -> Option<DealView> {
    match d {
        Some(x) => Some(x@),
        None => None,
    }
}

/// Opens a pair deal (see `open_pair_spec`); `Err` where `Decimal` fails.
pub fn open_pair_deal(order_book1: &OrderBook, order_book2: &OrderBook, amount: Dec, time: i64) -> (r:
    Result<Option<DealInfo>, ()>)
    ensures
        match open_pair_spec(*order_book1, *order_book2, amount, time) {
            None => r is Err,
            Some(d) => (r matches Ok(x) && opt_deal_view(x) == d),
        },
{
    let sell1 = try_best_sell_price(order_book1.bids.as_slice(), amount);
    let buy2 = try_best_buy_price(order_book2.asks.as_slice(), amount);
    match (sell1, buy2) {
        (Some(Some(sell1)), Some(Some(buy2))) => {
            let amount1 = dec_div(amount, sell1);
            let amount2 = dec_div(amount, buy2);
            match (amount1, amount2) {
                (Some(a1), Some(a2)) => {
                    let deal = DealInfo {
                        open_time: time,
                        close_time: 0,
                        amount: [a1, a2],
                        buy_price: [Dec::zero(), buy2],
                        sell_price: [sell1, Dec::zero()],
                    };
                    assert(deal@.amount =~= seq![a1@, a2@]);
                    assert(deal@.buy_price =~= seq![(0int, 0int), buy2@]);
                    assert(deal@.sell_price =~= seq![sell1@, (0int, 0int)]);
                    Ok(Some(deal))
                },
                _ => Err(()),
            }
        },
        (Some(_), Some(_)) => Ok(None),
        _ => Err(()),
    }
}

/// Closes a pair deal if it may close (see `close_pair_spec`); `Err` where `Decimal`
/// fails.
pub fn close_pair_deal(
    deal: DealInfo,
    order_book1: &OrderBook,
    order_book2: &OrderBook,
    amount: Dec,
    time: i64,
) -> (r: Result<Option<DealInfo>, ()>)
    ensures
        match close_pair_spec(deal@, *order_book1, *order_book2, amount, time) {
            None => r is Err,
            Some(d) => (r matches Ok(x) && opt_deal_view(x) == d),
        },
{
    let buy1 = try_best_buy_price(order_book1.asks.as_slice(), amount);
    let sell2 = try_best_sell_price(order_book2.bids.as_slice(), amount);
    match (buy1, sell2) {
        (Some(Some(buy1)), Some(Some(sell2))) => {
            let closed = DealInfo {
                open_time: deal.open_time,
                close_time: time,
                amount: deal.amount,
                buy_price: [buy1, deal.buy_price[1]],
                sell_price: [deal.sell_price[0], sell2],
            };
            assert(closed@.buy_price =~= deal@.buy_price.update(0, buy1@));
            assert(closed@.sell_price =~= deal@.sell_price.update(1, sell2@));
            assert(closed@.amount =~= deal@.amount);
            match closed.try_profit() {
                None => Err(()),
                Some(p) => if p.is_sign_positive() || (time as i128) > (deal.open_time as i128) + (
                DEAL_MAX_HOLD as i128) {
                    Ok(Some(closed))
                } else {
                    Ok(None)
                },
            }
        },
        (Some(_), Some(_)) => Ok(None),
        _ => Err(()),
    }
}

} // verus!
