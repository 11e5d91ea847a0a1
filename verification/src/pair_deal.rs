//! A simulated pair deal at the best prices of the two order books: opened on a trade
//! signal, each leg closed at the best opposite price, and settled as revenue and cost.
use crate::decimal::{Dec, dec_add, dec_sub, difference_of, opt_view, sum_of};
use crate::events::NANOS_PER_MILLI;
use crate::model::{OrderBook, OrderData};
use crate::order_book::{Pick, picked_price, select_price};
use vstd::prelude::*;

verus! {

/// What the trading model says to do, with the time to hold the deal in milliseconds.
#[derive(Clone, Copy, Debug, PartialEq, Eq, Structural)]
pub enum TradeSignal {
    NoSignal,
    Sell1Buy2(u16),
    Buy1Sell2(u16),
}

/// Every level of a side passes.
pub open spec fn all_levels(data: Seq<OrderData>) -> Seq<bool> {
    Seq::new(data.len(), |i: int| true)
}

/// The best ask price of a book: the lowest ask price (the first among equal ones).
pub open spec fn best_ask_spec(order_book: OrderBook) -> Dec {
    picked_price(order_book.asks@, all_levels(order_book.asks@), Pick::FirstMin).unwrap()
}

/// The best bid price of a book: the highest bid price (the last among equal ones).
pub open spec fn best_bid_spec(order_book: OrderBook) -> Dec {
    picked_price(order_book.bids@, all_levels(order_book.bids@), Pick::LastMax).unwrap()
}

fn all_levels_mask(data: &Vec<OrderData>) -> (mask: Vec<bool>)
    ensures
        mask@ == all_levels(data@),
{
    let mut mask: Vec<bool> = Vec::new();
    let mut i: usize = 0;
    while i < data.len()
        invariant
            i <= data@.len(),
            mask@.len() == i,
            forall|j: int| 0 <= j < i ==> mask@[j],
        decreases data@.len() - i,
    {
        mask.push(true);
        i = i + 1;
    }
    assert(mask@ =~= all_levels(data@));
    mask
}

/// The lowest ask price of a book.
pub fn get_best_ask(order_book: &OrderBook) -> (r: Dec)
    requires
        order_book.asks@.len() > 0,
    ensures
        r == best_ask_spec(*order_book),
{
    let mask = all_levels_mask(&order_book.asks);
    proof {
        crate::order_book::lemma_pick_prefix(
            order_book.asks@,
            mask@,
            Pick::FirstMin,
            order_book.asks@.len() as int,
        );
        assert(mask@[0]);
    }
    let k = select_price(order_book.asks.as_slice(), &mask, Pick::FirstMin).unwrap();
    order_book.asks[k].price
}

/// The highest bid price of a book.
pub fn get_best_bid(order_book: &OrderBook) -> (r: Dec)
    requires
        order_book.bids@.len() > 0,
    ensures
        r == best_bid_spec(*order_book),
{
    let mask = all_levels_mask(&order_book.bids);
    proof {
        crate::order_book::lemma_pick_prefix(
            order_book.bids@,
            mask@,
            Pick::LastMax,
            order_book.bids@.len() as int,
        );
        assert(mask@[0]);
    }
    let k = select_price(order_book.bids.as_slice(), &mask, Pick::LastMax).unwrap();
    order_book.bids[k].price
}

/// A simulated pair deal.  Times are nanoseconds since the Unix epoch.
#[derive(Clone, Copy, Debug)]
pub struct TestDeal {
    pub signal: TradeSignal,
    pub open_time1: i64,
    pub open_time2: i64,
    pub close_time: i64,
    pub open_price1: Dec,
    pub open_price2: Dec,
    pub close_time1: i64,
    pub close_time2: i64,
    pub close_price1: Option<Dec>,
    pub close_price2: Option<Dec>,
}

/// The later of two times.
pub open spec fn later(a: i64, b: i64) -> i64 {
    if a < b {
        b
    } else {
        a
    }
}

/// Whether `open` can open a deal on these books: the sides it prices are not empty and
/// the closing time fits.
pub open spec fn can_open(signal: TradeSignal, ob1: OrderBook, ob2: OrderBook) -> bool {
    match signal {
        TradeSignal::Sell1Buy2(hold) => ob1.bids@.len() > 0 && ob2.asks@.len() > 0 && later(
            ob1.timestamp,
            ob2.timestamp,
        ) + hold * NANOS_PER_MILLI <= i64::MAX,
        TradeSignal::Buy1Sell2(hold) => ob1.asks@.len() > 0 && ob2.bids@.len() > 0 && later(
            ob1.timestamp,
            ob2.timestamp,
        ) + hold * NANOS_PER_MILLI <= i64::MAX,
        TradeSignal::NoSignal => true,
    }
}

/// The deal that `open` opens.
pub open spec fn open_spec(signal: TradeSignal, ob1: OrderBook, ob2: OrderBook) -> Option<TestDeal> {
    match signal {
        TradeSignal::Sell1Buy2(hold) => Some(
            TestDeal {
                signal,
                open_time1: ob1.timestamp,
                open_time2: ob2.timestamp,
                close_time1: ob1.timestamp,
                close_time2: ob2.timestamp,
                close_time: (later(ob1.timestamp, ob2.timestamp) + hold * NANOS_PER_MILLI) as i64,
                open_price1: best_bid_spec(ob1),
                open_price2: best_ask_spec(ob2),
                close_price1: None,
                close_price2: None,
            },
        ),
        TradeSignal::Buy1Sell2(hold) => Some(
            TestDeal {
                signal,
                open_time1: ob1.timestamp,
                open_time2: ob2.timestamp,
                close_time1: ob1.timestamp,
                close_time2: ob2.timestamp,
                close_time: (later(ob1.timestamp, ob2.timestamp) + hold * NANOS_PER_MILLI) as i64,
                open_price1: best_ask_spec(ob1),
                open_price2: best_bid_spec(ob2),
                close_price1: None,
                close_price2: None,
            },
        ),
        TradeSignal::NoSignal => None,
    }
}

/// Where the deal's first leg is closed on `ob`: the time is taken, and the price is the
/// best ask (after selling the first instrument) or the best bid (after buying it).
pub open spec fn close1_spec(deal: TestDeal, ob: OrderBook) -> TestDeal {
    if deal.close_price1 is Some {
        deal
    } else {
        match deal.signal {
            TradeSignal::Sell1Buy2(_) => TestDeal {
                close_time1: ob.timestamp,
                close_price1: Some(best_ask_spec(ob)),
                ..deal
            },
            TradeSignal::Buy1Sell2(_) => TestDeal {
                close_time1: ob.timestamp,
                close_price1: Some(best_bid_spec(ob)),
                ..deal
            },
            TradeSignal::NoSignal => TestDeal { close_time1: ob.timestamp, ..deal },
        }
    }
}

/// Where the deal's second leg is closed on `ob`: the best bid (after buying the second
/// instrument) or the best ask (after selling it).
pub open spec fn close2_spec(deal: TestDeal, ob: OrderBook) -> TestDeal {
    if deal.close_price2 is Some {
        deal
    } else {
        match deal.signal {
            TradeSignal::Sell1Buy2(_) => TestDeal {
                close_time2: ob.timestamp,
                close_price2: Some(best_bid_spec(ob)),
                ..deal
            },
            TradeSignal::Buy1Sell2(_) => TestDeal {
                close_time2: ob.timestamp,
                close_price2: Some(best_ask_spec(ob)),
                ..deal
            },
            TradeSignal::NoSignal => TestDeal { close_time2: ob.timestamp, ..deal },
        }
    }
}

/// Whether closing the first leg on `ob` can price it.
pub open spec fn can_close1(deal: TestDeal, ob: OrderBook) -> bool {
    deal.close_price1 is None ==> match deal.signal {
        TradeSignal::Sell1Buy2(_) => ob.asks@.len() > 0,
        TradeSignal::Buy1Sell2(_) => ob.bids@.len() > 0,
        TradeSignal::NoSignal => true,
    }
}

/// Whether closing the second leg on `ob` can price it.
pub open spec fn can_close2(deal: TestDeal, ob: OrderBook) -> bool {
    deal.close_price2 is None ==> match deal.signal {
        TradeSignal::Sell1Buy2(_) => ob.bids@.len() > 0,
        TradeSignal::Buy1Sell2(_) => ob.asks@.len() > 0,
        TradeSignal::NoSignal => true,
    }
}

/// The revenue and cost of a deal, as `close` computes them: for a closed deal that sold
/// the first instrument, revenue = open price 1 + close price 2 and cost = open price 2 +
/// close price 1; for one that bought it, revenue = open price 2 + close price 1 and cost
/// = open price 1 + close price 2; zero and zero while a leg is open.  `None` where an
/// addition overflows or a closed deal has no direction.
pub open spec fn close_outcome(deal: TestDeal) -> Option<((int, int), (int, int))> {
    match (deal.close_price1, deal.close_price2) {
        (Some(c1), Some(c2)) => match deal.signal {
            TradeSignal::Sell1Buy2(_) => match (
                sum_of(Some(deal.open_price1@), Some(c2@)),
                sum_of(Some(deal.open_price2@), Some(c1@)),
            ) {
                (Some(r), Some(c)) => Some((r, c)),
                _ => None,
            },
            TradeSignal::Buy1Sell2(_) => match (
                sum_of(Some(deal.open_price2@), Some(c1@)),
                sum_of(Some(deal.open_price1@), Some(c2@)),
            ) {
                (Some(r), Some(c)) => Some((r, c)),
                _ => None,
            },
            TradeSignal::NoSignal => None,
        },
        _ => Some(((0, 0), (0, 0))),
    }
}

impl TestDeal {
    /// Opens a deal on a signal: selling the first instrument at its best bid and buying
    /// the second at its best ask, or the other way round; to be closed `hold`
    /// milliseconds after the later of the two books.  `None` for no signal.
    pub fn open(signal: TradeSignal, ob1: &OrderBook, ob2: &OrderBook) -> (r: Option<TestDeal>)
        requires
            can_open(signal, *ob1, *ob2),
        ensures
            r == open_spec(signal, *ob1, *ob2),
    {
        let later_time = if ob1.timestamp < ob2.timestamp {
            ob2.timestamp
        } else {
            ob1.timestamp
        };
        match signal {
            TradeSignal::Sell1Buy2(hold) => Some(
                TestDeal {
                    signal,
                    open_time1: ob1.timestamp,
                    open_time2: ob2.timestamp,
                    close_time1: ob1.timestamp,
                    close_time2: ob2.timestamp,
                    close_time: later_time + (hold as i64) * NANOS_PER_MILLI,
                    open_price1: get_best_bid(ob1),
                    open_price2: get_best_ask(ob2),
                    close_price1: None,
                    close_price2: None,
                },
            ),
            TradeSignal::Buy1Sell2(hold) => Some(
                TestDeal {
                    signal,
                    open_time1: ob1.timestamp,
                    open_time2: ob2.timestamp,
                    close_time1: ob1.timestamp,
                    close_time2: ob2.timestamp,
                    close_time: later_time + (hold as i64) * NANOS_PER_MILLI,
                    open_price1: get_best_ask(ob1),
                    open_price2: get_best_bid(ob2),
                    close_price1: None,
                    close_price2: None,
                },
            ),
            TradeSignal::NoSignal => None,
        }
    }

    /// Closes the first leg on `ob`, unless it is closed already.
    pub fn close1(&mut self, ob: &OrderBook)
        requires
            can_close1(*old(self), *ob),
        ensures
            *final(self) == close1_spec(*old(self), *ob),
    {
        if self.close_price1.is_some() {
            return;
        }
        self.close_time1 = ob.timestamp;
        match self.signal {
            TradeSignal::Sell1Buy2(_) => {
                self.close_price1 = Some(get_best_ask(ob));
            },
            TradeSignal::Buy1Sell2(_) => {
                self.close_price1 = Some(get_best_bid(ob));
            },
            TradeSignal::NoSignal => {},
        }
    }

    /// Closes the second leg on `ob`, unless it is closed already.
    pub fn close2(&mut self, ob: &OrderBook)
        requires
            can_close2(*old(self), *ob),
        ensures
            *final(self) == close2_spec(*old(self), *ob),
    {
        if self.close_price2.is_some() {
            return;
        }
        self.close_time2 = ob.timestamp;
        match self.signal {
            TradeSignal::Sell1Buy2(_) => {
                self.close_price2 = Some(get_best_bid(ob));
            },
            TradeSignal::Buy1Sell2(_) => {
                self.close_price2 = Some(get_best_ask(ob));
            },
            TradeSignal::NoSignal => {},
        }
    }

    /// `close`, or `None` where an addition overflows (where it would panic) or a closed
    /// deal has no direction.
    pub fn try_close(&self) -> (r: Option<(Dec, Dec)>)
        ensures
            match close_outcome(*self) {
                Some((rev, cost)) => r matches Some((a, b)) && a@ == rev && b@ == cost,
                None => r is None,
            },
    {
        match (self.close_price1, self.close_price2) {
            (Some(close_price1), Some(close_price2)) => {
                let (revenue, cost) = match self.signal {
                    TradeSignal::Sell1Buy2(_) => (
                        dec_add(self.open_price1, close_price2),
                        dec_add(self.open_price2, close_price1),
                    ),
                    TradeSignal::Buy1Sell2(_) => (
                        dec_add(self.open_price2, close_price1),
                        dec_add(self.open_price1, close_price2),
                    ),
                    TradeSignal::NoSignal => {
                        return None;
                    },
                };
                match (revenue, cost) {
                    (Some(r), Some(c)) => Some((r, c)),
                    _ => None,
                }
            },
            _ => Some((Dec::zero(), Dec::zero())),
        }
    }

    /// The revenue and cost of the deal once both legs are closed; zero and zero while a
    /// leg is open.
    pub fn close(&self) -> (r: (Dec, Dec))
        requires
            close_outcome(*self) is Some,
        ensures
            r.0@ == close_outcome(*self).unwrap().0,
            r.1@ == close_outcome(*self).unwrap().1,
    {
        self.try_close().unwrap()
    }
}

/// The law of closing: a leg closes once.  Once a deal with a direction has closed its
/// first (or second) leg, closing that leg again, on any book, changes nothing.
pub proof fn law_leg_closes_once(deal: TestDeal, ob: OrderBook, later: OrderBook)
    requires
        !(deal.signal is NoSignal),
    ensures
        close1_spec(close1_spec(deal, ob), later) == close1_spec(deal, ob),
        close2_spec(close2_spec(deal, ob), later) == close2_spec(deal, ob),
{
}

/// The commission counted for each closed test deal.
pub const DEAL_COMMISSION: i64 = 5;

/// The test of a trading model on one hold time: the deal it holds, and the totals of
/// its closed deals.
#[derive(Clone, Copy, Debug)]
pub struct TestLedger {
    pub active_deal: Option<TestDeal>,
    pub total_income: Dec,
    pub total_outcome: Dec,
    pub total_commission: Dec,
}

/// The book a leg is closed or opened on: the book a given time ahead where there is
/// one, else the last book.
pub open spec fn leg_book(last: OrderBook, ahead: Option<OrderBook>) -> OrderBook {
    match ahead {
        Some(b) => b,
        None => last,
    }
}

/// The deal after the books of a step: each leg whose book is past the deal's closing
/// time is closed on it.
pub open spec fn close_due(deal: TestDeal, ob1: OrderBook, ob2: OrderBook, ahead1: Option<OrderBook>, ahead2: Option<OrderBook>) -> TestDeal {
    let d1 = if ob1.timestamp > deal.close_time {
        close1_spec(deal, leg_book(ob1, ahead1))
    } else {
        deal
    };
    if ob2.timestamp > d1.close_time {
        close2_spec(d1, leg_book(ob2, ahead2))
    } else {
        d1
    }
}

/// Whether the books of a step can price what the step does.
pub open spec fn step_possible(
    ledger: TestLedger,
    signal: TradeSignal,
    ob1: OrderBook,
    ob2: OrderBook,
    ahead1: Option<OrderBook>,
    ahead2: Option<OrderBook>,
) -> bool {
    match ledger.active_deal {
        Some(deal) => (ob1.timestamp > deal.close_time ==> can_close1(deal, leg_book(ob1, ahead1))) && (
        ob2.timestamp > deal.close_time ==> can_close2(
            if ob1.timestamp > deal.close_time {
                close1_spec(deal, leg_book(ob1, ahead1))
            } else {
                deal
            },
            leg_book(ob2, ahead2),
        )),
        None => can_open(signal, leg_book(ob1, ahead1), leg_book(ob2, ahead2)),
    }
}

/// The result of a closed deal as the model is told it: revenue - cost - commission.
pub open spec fn deal_result(outcome: ((int, int), (int, int))) -> Option<(int, int)> {
    difference_of(difference_of(Some(outcome.0), Some(outcome.1)), Some((DEAL_COMMISSION as int, 0)))
}

impl TestLedger {
    /// No deal, and zero totals.
    pub fn new() -> (l: TestLedger)
        ensures
            l.active_deal is None,
            l.total_income@ == (0int, 0int) && l.total_outcome@ == (0int, 0int)
                && l.total_commission@ == (0int, 0int),
    {
        TestLedger {
            active_deal: None,
            total_income: Dec::zero(),
            total_outcome: Dec::zero(),
            total_commission: Dec::zero(),
        }
    }

    /// One step of the test on the last books of both instruments (and, where the model
    /// trades with a delay, the books that delay ahead): a held deal closes each leg
    /// whose book is past its closing time, and once both legs are closed it is settled:
    /// its revenue, cost and commission go to the totals and its result is returned.
    /// Without a deal, a trade signal opens one.  `Err` where `Decimal` overflows.
    pub fn follow_signal(
        &mut self,
        signal: TradeSignal,
        ob1: &OrderBook,
        ob2: &OrderBook,
        ahead: Option<(&OrderBook, &OrderBook)>,
    ) -> (r: Result<Option<Dec>, ()>)
        requires
            step_possible(
                *old(self),
                signal,
                *ob1,
                *ob2,
                match ahead {
                    Some(p) => Some(*p.0),
                    None => None,
                },
                match ahead {
                    Some(p) => Some(*p.1),
                    None => None,
                },
            ),
        ensures
            ({
                let ahead1 = match ahead {
                    Some(p) => Some(*p.0),
                    None => None,
                };
                let ahead2 = match ahead {
                    Some(p) => Some(*p.1),
                    None => None,
                };
                match old(self).active_deal {
                    None => r == Ok::<Option<Dec>, ()>(None) && final(self).active_deal == open_spec(
                        signal,
                        leg_book(*ob1, ahead1),
                        leg_book(*ob2, ahead2),
                    ) && final(self).total_income == old(self).total_income && final(self).total_outcome
                        == old(self).total_outcome && final(self).total_commission
                        == old(self).total_commission,
                    Some(deal) => {
                        let d = close_due(deal, *ob1, *ob2, ahead1, ahead2);
                        if d.close_price1 is Some && d.close_price2 is Some {
                            match close_outcome(d) {
                                None => r is Err,
                                Some(out) => match (
                                    deal_result(out),
                                    sum_of(Some(old(self).total_income@), Some(out.0)),
                                    sum_of(Some(old(self).total_outcome@), Some(out.1)),
                                    sum_of(
                                        Some(old(self).total_commission@),
                                        Some((DEAL_COMMISSION as int, 0)),
                                    ),
                                ) {
                                    (Some(res), Some(inc), Some(outc), Some(com)) => (r matches Ok(
                                        Some(x),
                                    ) && x@ == res && final(self).active_deal is None
                                        && final(self).total_income@ == inc
                                        && final(self).total_outcome@ == outc
                                        && final(self).total_commission@ == com),
                                    _ => r is Err,
                                },
                            }
                        } else {
                            r == Ok::<Option<Dec>, ()>(None) && final(self).active_deal == Some(d)
                                && final(self).total_income == old(self).total_income
                                && final(self).total_outcome == old(self).total_outcome
                                && final(self).total_commission == old(self).total_commission
                        }
                    },
                }
            }),
    {
        let (book1, book2) = match ahead {
            Some((a1, a2)) => (a1, a2),
            None => (ob1, ob2),
        };
        match self.active_deal {
            None => {
                self.active_deal = TestDeal::open(signal, book1, book2);
                Ok(None)
            },
            Some(deal) => {
                let mut d = deal;
                if ob1.timestamp > d.close_time {
                    d.close1(book1);
                }
                if ob2.timestamp > d.close_time {
                    d.close2(book2);
                }
                if d.close_price1.is_some() && d.close_price2.is_some() {
                    let (revenue, cost) = match d.try_close() {
                        Some(x) => x,
                        None => {
                            return Err(());
                        },
                    };
                    let commission = Dec::from_int(DEAL_COMMISSION);
                    let result = match dec_sub(revenue, cost) {
                        Some(x) => dec_sub(x, commission),
                        None => None,
                    };
                    let income = dec_add(self.total_income, revenue);
                    let outcome = dec_add(self.total_outcome, cost);
                    let charged = dec_add(self.total_commission, commission);
                    match (result, income, outcome, charged) {
                        (Some(res), Some(inc), Some(outc), Some(com)) => {
                            self.total_income = inc;
                            self.total_outcome = outc;
                            self.total_commission = com;
                            self.active_deal = None;
                            Ok(Some(res))
                        },
                        _ => Err(()),
                    }
                } else {
                    self.active_deal = Some(d);
                    Ok(None)
                }
            },
        }
    }
}

} // verus!
