//! Best prices and spreads of order books.
use crate::decimal::{
    Dec, dec_div, dec_lt, dec_min, dec_min_spec, dec_mul, dec_sub, dec_add, decimal_difference,
    decimal_product, decimal_quotient, decimal_sum, opt_view, units_of,
};
use crate::model::OrderBook;
use crate::model::OrderData;
use vstd::prelude::*;

verus! {

/// Which of the price levels that qualify is picked.
#[derive(Clone, Copy, Debug, PartialEq, Eq, Structural)]
pub enum Pick {
    /// The lowest price; the first one among equal lowest prices.
    FirstMin,
    /// The highest price; the first one among equal highest prices.
    FirstMax,
    /// The highest price; the last one among equal highest prices.
    LastMax,
}

/// Whether level `cand` replaces the level picked so far, `best`.
pub open spec fn replaces(cand: OrderData, best: OrderData, pick: Pick) -> bool {
    match pick {
        Pick::FirstMin => cand.price.units() < best.price.units(),
        Pick::FirstMax => best.price.units() < cand.price.units(),
        Pick::LastMax => best.price.units() <= cand.price.units(),
    }
}

/// The index that a scan of the first `n` levels picks among those that `mask` lets
/// through.
pub open spec fn pick_prefix(s: Seq<OrderData>, mask: Seq<bool>, pick: Pick, n: int) -> Option<
    int,
>
    decreases n,
{
    if n <= 0 {
        None
    } else {
        let prev = pick_prefix(s, mask, pick, n - 1);
        if !mask[n - 1] {
            prev
        } else {
            match prev {
                None => Some(n - 1),
                Some(k) => if replaces(s[n - 1], s[k], pick) {
                    Some(n - 1)
                } else {
                    prev
                },
            }
        }
    }
}

/// The index that a scan of all levels picks.
pub open spec fn pick_index(s: Seq<OrderData>, mask: Seq<bool>, pick: Pick) -> Option<int> {
    pick_prefix(s, mask, pick, s.len() as int)
}

/// What the picked index is, said directly: a level that qualifies, with the lowest
/// (or highest) price of all that qualify, and the first (or last) such level.
pub open spec fn is_pick(s: Seq<OrderData>, mask: Seq<bool>, pick: Pick, n: int, k: int) -> bool {
    &&& 0 <= k < n
    &&& mask[k]
    &&& match pick {
        Pick::FirstMin => {
            &&& forall|j: int|
                0 <= j < n && mask[j] ==> s[k].price.units() <= #[trigger] s[j].price.units()
            &&& forall|j: int|
                0 <= j < k && mask[j] ==> s[k].price.units() < #[trigger] s[j].price.units()
        },
        Pick::FirstMax => {
            &&& forall|j: int|
                0 <= j < n && mask[j] ==> #[trigger] s[j].price.units() <= s[k].price.units()
            &&& forall|j: int|
                0 <= j < k && mask[j] ==> #[trigger] s[j].price.units() < s[k].price.units()
        },
        Pick::LastMax => {
            &&& forall|j: int|
                0 <= j < n && mask[j] ==> #[trigger] s[j].price.units() <= s[k].price.units()
            &&& forall|j: int|
                k < j < n && mask[j] ==> #[trigger] s[j].price.units() < s[k].price.units()
        },
    }
}

/// The scan picks nothing exactly when nothing qualifies, and otherwise the level that
/// `is_pick` describes.
pub proof fn lemma_pick_prefix(s: Seq<OrderData>, mask: Seq<bool>, pick: Pick, n: int)
    requires
        0 <= n <= s.len(),
        n <= mask.len(),
    ensures
        pick_prefix(s, mask, pick, n) is None <==> (forall|j: int| 0 <= j < n ==> !mask[j]),
        pick_prefix(s, mask, pick, n) matches Some(k) ==> is_pick(s, mask, pick, n, k),
    decreases n,
{
    if n > 0 {
        lemma_pick_prefix(s, mask, pick, n - 1);
        let prev = pick_prefix(s, mask, pick, n - 1);
        if !mask[n - 1] {
            if prev is None {
                assert forall|j: int| 0 <= j < n implies !mask[j] by {
                    if j < n - 1 {
                    }
                }
            }
        } else {
            assert(pick_prefix(s, mask, pick, n) is Some);
        }
    }
}

/// The index a scan picks among the levels that `mask` lets through.
pub fn select_price(data: &[OrderData], mask: &Vec<bool>, pick: Pick) -> (r: Option<usize>)
    requires
        mask@.len() == data@.len(),
    ensures
        match r {
            Some(k) => k < data@.len() && pick_index(data@, mask@, pick) == Some(k as int),
            None => pick_index(data@, mask@, pick) is None,
        },
{
    let mut best: Option<usize> = None;
    let mut i: usize = 0;
    while i < data.len()
        invariant
            i <= data@.len(),
            mask@.len() == data@.len(),
            match best {
                Some(k) => k < i && pick_prefix(data@, mask@, pick, i as int) == Some(k as int),
                None => pick_prefix(data@, mask@, pick, i as int) is None,
            },
        decreases data@.len() - i,
    {
        if mask[i] {
            match best {
                None => {
                    best = Some(i);
                },
                Some(k) => {
                    let better = match pick {
                        Pick::FirstMin => dec_lt(&data[i].price, &data[k].price),
                        Pick::FirstMax => dec_lt(&data[k].price, &data[i].price),
                        Pick::LastMax => !dec_lt(&data[i].price, &data[k].price),
                    };
                    if better {
                        best = Some(i);
                    }
                },
            }
        }
        i = i + 1;
    }
    best
}

/// The best level of one side: the first lowest-priced ask, or the first
/// highest-priced bid.
pub open spec fn best_price_spec(data: Seq<OrderData>, is_ask: bool) -> Option<OrderData> {
    match pick_index(
        data,
        Seq::new(data.len(), |i: int| true),
        if is_ask {
            Pick::FirstMin
        } else {
            Pick::FirstMax
        },
    ) {
        Some(k) => Some(data[k]),
        None => None,
    }
}

/// The best level of one side of an order book: for asks the lowest price, for bids the
/// highest, and the first such level where several share that price.  `None` for an
/// empty side.
pub fn best_price(data: &[OrderData], is_ask: bool) -> (r: Option<OrderData>)
    ensures
        r == best_price_spec(data@, is_ask),
        r is None <==> data@.len() == 0,
        r matches Some(x) ==> exists|k: int|
            is_pick(
                data@,
                Seq::new(data@.len(), |i: int| true),
                if is_ask {
                    Pick::FirstMin
                } else {
                    Pick::FirstMax
                },
                data@.len() as int,
                k,
            ) && data@[k] == x,
{
    let mut mask: Vec<bool> = Vec::new();
    let mut i: usize = 0;
    while i < data.len()
        invariant
            i <= data@.len(),
            mask@.len() == i,
            forall|j: int| 0 <= j < i ==> mask@[j],
        decreases data@.len() - i,
    {
        mask.push(true);
        i = i + 1;
    }
    let ghost all = Seq::new(data@.len(), |i: int| true);
    assert(mask@ =~= all);
    let pick = if is_ask {
        Pick::FirstMin
    } else {
        Pick::FirstMax
    };
    proof {
        lemma_pick_prefix(data@, all, pick, data@.len() as int);
        if data@.len() > 0 {
            assert(all[0]);
        }
    }
    match select_price(data, &mask, pick) {
        Some(k) => Some(data[k]),
        None => None,
    }
}

/// The volume of a level as `Decimal` computes it: size times price where `size_first`,
/// else price times size; `None` where the multiplication overflows.
pub open spec fn level_volume(d: OrderData, size_first: bool) -> Option<(int, int)> {
    if size_first {
        decimal_product(d.size@, d.price@)
    } else {
        decimal_product(d.price@, d.size@)
    }
}

/// Whether the volume of every level is defined.
pub open spec fn volumes_defined(data: Seq<OrderData>, size_first: bool) -> bool {
    forall|i: int| 0 <= i < data.len() ==> (#[trigger] level_volume(data[i], size_first)) is Some
}

/// The levels whose volume is above `amount` (where `strict`) or at least `amount`.
pub open spec fn volume_mask(data: Seq<OrderData>, amount: Dec, size_first: bool, strict: bool) -> Seq<
    bool,
> {
    Seq::new(
        data.len(),
        |i: int|
            if strict {
                units_of(level_volume(data[i], size_first).unwrap()) > amount.units()
            } else {
                units_of(level_volume(data[i], size_first).unwrap()) >= amount.units()
            },
    )
}

/// The price of the picked level.
pub open spec fn picked_price(data: Seq<OrderData>, mask: Seq<bool>, pick: Pick) -> Option<Dec> {
    match pick_index(data, mask, pick) {
        Some(k) => Some(data[k].price),
        None => None,
    }
}

/// The picked level.
pub open spec fn picked_level(data: Seq<OrderData>, mask: Seq<bool>, pick: Pick) -> Option<
    OrderData,
> {
    match pick_index(data, mask, pick) {
        Some(k) => Some(data[k]),
        None => None,
    }
}

/// The levels whose volume passes, or `None` where a volume overflows.
pub fn checked_volume_mask(data: &[OrderData], amount: Dec, size_first: bool, strict: bool) -> (r:
    Option<Vec<bool>>)
    ensures
        r is None <==> !volumes_defined(data@, size_first),
        r matches Some(mask) ==> mask@ == volume_mask(data@, amount, size_first, strict),
{
    let mut mask: Vec<bool> = Vec::new();
    let mut i: usize = 0;
    while i < data.len()
        invariant
            i <= data@.len(),
            mask@.len() == i,
            forall|j: int| 0 <= j < i ==> (#[trigger] level_volume(data@[j], size_first)) is Some,
            forall|j: int|
                0 <= j < i ==> #[trigger] mask@[j] == (if strict {
                    units_of(level_volume(data@[j], size_first).unwrap()) > amount.units()
                } else {
                    units_of(level_volume(data@[j], size_first).unwrap()) >= amount.units()
                }),
        decreases data@.len() - i,
    {
        let item = data[i];
        let product = if size_first {
            dec_mul(item.size, item.price)
        } else {
            dec_mul(item.price, item.size)
        };
        match product {
            None => {
                assert(level_volume(data@[i as int], size_first) is None);
                return None;
            },
            Some(volume) => {
                let pass = if strict {
                    dec_lt(&amount, &volume)
                } else {
                    !dec_lt(&volume, &amount)
                };
                mask.push(pass);
            },
        }
        i = i + 1;
    }
    assert(mask@ =~= volume_mask(data@, amount, size_first, strict));
    Some(mask)
}

/// Whether every level's volume is defined, checked by computing them.
pub fn volumes_checked(data: &[OrderData], size_first: bool) -> (ok: bool)
    ensures
        ok == volumes_defined(data@, size_first),
{
    let dummy = Dec::zero();
    checked_volume_mask(data, dummy, size_first, false).is_some()
}

/// The lowest price at which `size` (an amount of money) can be bought: the lowest price
/// among the levels whose size times price is at least `size`, the first such level.
pub fn best_buy_price(data: &[OrderData], size: Dec) -> (r: Option<Dec>)
    requires
        volumes_defined(data@, true),
    ensures
        r == picked_price(data@, volume_mask(data@, size, true, false), Pick::FirstMin),
{
    let mask = checked_volume_mask(data, size, true, false).unwrap();
    match select_price(data, &mask, Pick::FirstMin) {
        Some(k) => Some(data[k].price),
        None => None,
    }
}

/// The highest price at which `size` (an amount of money) can be sold: the highest price
/// among the levels whose size times price is at least `size`, the last such level.
pub fn best_sell_price(data: &[OrderData], size: Dec) -> (r: Option<Dec>)
    requires
        volumes_defined(data@, true),
    ensures
        r == picked_price(data@, volume_mask(data@, size, true, false), Pick::LastMax),
{
    let mask = checked_volume_mask(data, size, true, false).unwrap();
    match select_price(data, &mask, Pick::LastMax) {
        Some(k) => Some(data[k].price),
        None => None,
    }
}

/// The best price of one side among the levels whose size times price is above `size`:
/// the first lowest for asks, the first highest for bids.
pub fn best_price_for_size(data: &[OrderData], is_ask: bool, size: Dec) -> (r: Option<Dec>)
    requires
        volumes_defined(data@, true),
    ensures
        r == picked_price(
            data@,
            volume_mask(data@, size, true, true),
            if is_ask {
                Pick::FirstMin
            } else {
                Pick::FirstMax
            },
        ),
{
    let mask = checked_volume_mask(data, size, true, true).unwrap();
    let pick = if is_ask {
        Pick::FirstMin
    } else {
        Pick::FirstMax
    };
    match select_price(data, &mask, pick) {
        Some(k) => Some(data[k].price),
        None => None,
    }
}

/// `best_buy_price`, or `None` where a level's volume overflows `Decimal` (where the
/// multiplication would panic).
pub fn try_best_buy_price(data: &[OrderData], size: Dec) -> (r: Option<Option<Dec>>)
    ensures
        r is None <==> !volumes_defined(data@, true),
        r matches Some(p) ==> p == picked_price(
            data@,
            volume_mask(data@, size, true, false),
            Pick::FirstMin,
        ),
{
    if volumes_checked(data, true) {
        Some(best_buy_price(data, size))
    } else {
        None
    }
}

/// `best_sell_price`, or `None` where a level's volume overflows `Decimal`.
pub fn try_best_sell_price(data: &[OrderData], size: Dec) -> (r: Option<Option<Dec>>)
    ensures
        r is None <==> !volumes_defined(data@, true),
        r matches Some(p) ==> p == picked_price(
            data@,
            volume_mask(data@, size, true, false),
            Pick::LastMax,
        ),
{
    if volumes_checked(data, true) {
        Some(best_sell_price(data, size))
    } else {
        None
    }
}

/// `best_price_for_size`, or `None` where a level's volume overflows `Decimal`.
pub fn try_best_price_for_size(data: &[OrderData], is_ask: bool, size: Dec) -> (r: Option<
    Option<Dec>,
>)
    ensures
        r is None <==> !volumes_defined(data@, true),
        r matches Some(p) ==> p == picked_price(
            data@,
            volume_mask(data@, size, true, true),
            if is_ask {
                Pick::FirstMin
            } else {
                Pick::FirstMax
            },
        ),
{
    if volumes_checked(data, true) {
        Some(best_price_for_size(data, is_ask, size))
    } else {
        None
    }
}

/// The spread of two picked levels, as `map_delta` computes it: the second price minus
/// the first, with the smaller of the two sizes.
pub open spec fn spread_result(d1: Option<OrderData>, d2: Option<OrderData>, r: Option<OrderData>) -> bool {
    match (d1, d2) {
        (Some(a), Some(b)) => r matches Some(x) && x.price@ == decimal_difference(
            b.price@,
            a.price@,
        ).unwrap() && x.size == dec_min_spec(a.size, b.size),
        _ => r is None,
    }
}

/// Whether the spread of two picked levels is defined (the subtraction does not overflow).
pub open spec fn spread_defined(d1: Option<OrderData>, d2: Option<OrderData>) -> bool {
    match (d1, d2) {
        (Some(a), Some(b)) => decimal_difference(b.price@, a.price@) is Some,
        _ => true,
    }
}

/// The spread of two levels, or `Err` where the subtraction overflows.
fn checked_spread(data1: Option<OrderData>, data2: Option<OrderData>) -> (r: Result<
    Option<OrderData>,
    (),
>)
    ensures
        r is Err <==> !spread_defined(data1, data2),
        r matches Ok(x) ==> spread_result(data1, data2, x),
{
    match (data1, data2) {
        (Some(d1), Some(d2)) => match dec_sub(d2.price, d1.price) {
            Some(price) => Ok(Some(OrderData { price, size: dec_min(d1.size, d2.size) })),
            None => Err(()),
        },
        _ => Ok(None),
    }
}

/// The levels of the first side that carry more than `min_volume` (price times size).
pub open spec fn liquid_mask(data: Seq<OrderData>, min_volume: Dec) -> Seq<bool> {
    volume_mask(data, min_volume, false, true)
}

/// The best bid of `order_book1` and the best ask of `order_book2` among the levels that
/// carry more than `min_volume`: the last highest bid and the first lowest ask.
pub open spec fn sell_legs(order_book1: OrderBook, order_book2: OrderBook, min_volume: Dec) -> (
    Option<OrderData>,
    Option<OrderData>,
) {
    (
        picked_level(order_book1.bids@, liquid_mask(order_book1.bids@, min_volume), Pick::LastMax),
        picked_level(order_book2.asks@, liquid_mask(order_book2.asks@, min_volume), Pick::FirstMin),
    )
}

/// The best ask of `order_book1` and the best bid of `order_book2` among the levels that
/// carry more than `min_volume`: the first lowest ask and the last highest bid.
pub open spec fn buy_legs(order_book1: OrderBook, order_book2: OrderBook, min_volume: Dec) -> (
    Option<OrderData>,
    Option<OrderData>,
) {
    (
        picked_level(order_book1.asks@, liquid_mask(order_book1.asks@, min_volume), Pick::FirstMin),
        picked_level(order_book2.bids@, liquid_mask(order_book2.bids@, min_volume), Pick::LastMax),
    )
}

/// Whether `calculate_delta_sell` stays within `Decimal` (no multiplication or
/// subtraction overflows).
pub open spec fn delta_sell_defined(order_book1: OrderBook, order_book2: OrderBook, min_volume: Dec) -> bool {
    &&& volumes_defined(order_book1.bids@, false)
    &&& volumes_defined(order_book2.asks@, false)
    &&& spread_defined(
        sell_legs(order_book1, order_book2, min_volume).0,
        sell_legs(order_book1, order_book2, min_volume).1,
    )
}

/// Whether `calculate_delta_buy` stays within `Decimal`.
pub open spec fn delta_buy_defined(order_book1: OrderBook, order_book2: OrderBook, min_volume: Dec) -> bool {
    &&& volumes_defined(order_book1.asks@, false)
    &&& volumes_defined(order_book2.bids@, false)
    &&& spread_defined(
        buy_legs(order_book1, order_book2, min_volume).0,
        buy_legs(order_book1, order_book2, min_volume).1,
    )
}

/// The level picked among those whose price-times-size volume passes, or `Err` where a
/// volume overflows.
fn checked_picked_level(data: &[OrderData], min_volume: Dec, pick: Pick) -> (r: Result<
    Option<OrderData>,
    (),
>)
    ensures
        r is Err <==> !volumes_defined(data@, false),
        r matches Ok(x) ==> x == picked_level(data@, liquid_mask(data@, min_volume), pick),
{
    match checked_volume_mask(data, min_volume, false, true) {
        None => Err(()),
        Some(mask) => match select_price(data, &mask, pick) {
            Some(k) => Ok(Some(data[k])),
            None => Ok(None),
        },
    }
}

/// `calculate_delta_sell`, or `None` where `Decimal` overflows (where it would panic).
pub fn try_calculate_delta_sell(order_book1: &OrderBook, order_book2: &OrderBook, min_volume: Dec) -> (r:
    Option<Option<OrderData>>)
    ensures
        r is None <==> !delta_sell_defined(*order_book1, *order_book2, min_volume),
        r matches Some(x) ==> spread_result(
            sell_legs(*order_book1, *order_book2, min_volume).0,
            sell_legs(*order_book1, *order_book2, min_volume).1,
            x,
        ),
{
    let max_bid = checked_picked_level(order_book1.bids.as_slice(), min_volume, Pick::LastMax);
    let min_ask = checked_picked_level(order_book2.asks.as_slice(), min_volume, Pick::FirstMin);
    match (max_bid, min_ask) {
        (Ok(bid), Ok(ask)) => match checked_spread(bid, ask) {
            Ok(x) => Some(x),
            Err(_) => None,
        },
        _ => None,
    }
}

/// `calculate_delta_buy`, or `None` where `Decimal` overflows (where it would panic).
pub fn try_calculate_delta_buy(order_book1: &OrderBook, order_book2: &OrderBook, min_volume: Dec) -> (r:
    Option<Option<OrderData>>)
    ensures
        r is None <==> !delta_buy_defined(*order_book1, *order_book2, min_volume),
        r matches Some(x) ==> spread_result(
            buy_legs(*order_book1, *order_book2, min_volume).0,
            buy_legs(*order_book1, *order_book2, min_volume).1,
            x,
        ),
{
    let min_ask = checked_picked_level(order_book1.asks.as_slice(), min_volume, Pick::FirstMin);
    let max_bid = checked_picked_level(order_book2.bids.as_slice(), min_volume, Pick::LastMax);
    match (min_ask, max_bid) {
        (Ok(ask), Ok(bid)) => match checked_spread(ask, bid) {
            Ok(x) => Some(x),
            Err(_) => None,
        },
        _ => None,
    }
}

/// The spread for selling the first instrument and buying the second: the best ask of
/// `order_book2` minus the best bid of `order_book1`, counting only levels that carry
/// more than `min_volume` (price times size), with the smaller of the two sizes.  `None`
/// where a side has no such level.
pub fn calculate_delta_sell(order_book1: &OrderBook, order_book2: &OrderBook, min_volume: Dec) -> (r:
    Option<OrderData>)
    requires
        delta_sell_defined(*order_book1, *order_book2, min_volume),
    ensures
        spread_result(
            sell_legs(*order_book1, *order_book2, min_volume).0,
            sell_legs(*order_book1, *order_book2, min_volume).1,
            r,
        ),
{
    try_calculate_delta_sell(order_book1, order_book2, min_volume).unwrap()
}

/// The spread for buying the first instrument and selling the second: the best bid of
/// `order_book2` minus the best ask of `order_book1`, counting only levels that carry
/// more than `min_volume`, with the smaller of the two sizes.  `None` where a side has no
/// such level.
pub fn calculate_delta_buy(order_book1: &OrderBook, order_book2: &OrderBook, min_volume: Dec) -> (r:
    Option<OrderData>)
    requires
        delta_buy_defined(*order_book1, *order_book2, min_volume),
    ensures
        spread_result(
            buy_legs(*order_book1, *order_book2, min_volume).0,
            buy_legs(*order_book1, *order_book2, min_volume).1,
            r,
        ),
{
    try_calculate_delta_buy(order_book1, order_book2, min_volume).unwrap()
}

/// The index of the largest size among the first `n` levels, the last one among equal
/// largest sizes (what `Iterator::max` gives).
pub open spec fn max_size_prefix(s: Seq<OrderData>, n: int) -> Option<int>
    decreases n,
{
    if n <= 0 {
        None
    } else {
        match max_size_prefix(s, n - 1) {
            None => Some(n - 1),
            Some(k) => if s[k].size.units() <= s[n - 1].size.units() {
                Some(n - 1)
            } else {
                Some(k)
            },
        }
    }
}

/// The largest size of a side (the last among equal ones), zero for an empty side.
pub open spec fn max_size_view(s: Seq<OrderData>) -> (int, int) {
    match max_size_prefix(s, s.len() as int) {
        Some(k) => s[k].size@,
        None => (0, 0),
    }
}

/// The size threshold of `filter_order_data`: the largest size divided by 100.
pub open spec fn size_threshold(s: Seq<OrderData>) -> Option<(int, int)> {
    decimal_quotient(max_size_view(s), (100, 0))
}

/// The levels of `s` whose size is above `t` units, in order.
pub open spec fn keep_sizes_above(s: Seq<OrderData>, t: int) -> Seq<OrderData>
    decreases s.len(),
{
    if s.len() == 0 {
        s
    } else if s.last().size.units() > t {
        keep_sizes_above(s.drop_last(), t).push(s.last())
    } else {
        keep_sizes_above(s.drop_last(), t)
    }
}

proof fn lemma_max_size_prefix(s: Seq<OrderData>, n: int)
    requires
        0 <= n <= s.len(),
    ensures
        max_size_prefix(s, n) is None <==> n == 0,
        max_size_prefix(s, n) matches Some(k) ==> 0 <= k < n && forall|j: int|
            0 <= j < n ==> (#[trigger] s[j]).size.units() <= s[k].size.units(),
    decreases n,
{
    if n > 0 {
        lemma_max_size_prefix(s, n - 1);
    }
}

proof fn lemma_keep_sizes_above(s: Seq<OrderData>, t: int)
    ensures
        forall|i: int|
            0 <= i < keep_sizes_above(s, t).len() ==> (#[trigger] keep_sizes_above(s, t)[i]).size.units()
                > t && s.contains(keep_sizes_above(s, t)[i]),
        forall|x: int|
            0 <= x < s.len() && (#[trigger] s[x]).size.units() > t ==> keep_sizes_above(s, t).contains(
                s[x],
            ),
    decreases s.len(),
{
    if s.len() > 0 {
        let d = s.drop_last();
        lemma_keep_sizes_above(d, t);
        let kd = keep_sizes_above(d, t);
        let ks = keep_sizes_above(s, t);
        assert forall|i: int| 0 <= i < ks.len() implies (#[trigger] ks[i]).size.units() > t
            && s.contains(ks[i]) by {
            if i < kd.len() {
                assert(ks[i] == kd[i]);
                let x = choose|x: int| 0 <= x < d.len() && d[x] == kd[i];
                assert(s[x] == d[x]);
            } else {
                assert(ks[i] == s.last());
                assert(s[s.len() - 1] == s.last());
            }
        }
        assert forall|x: int| 0 <= x < s.len() && (#[trigger] s[x]).size.units() > t implies ks.contains(
            s[x],
        ) by {
            if x < s.len() - 1 {
                assert(d[x] == s[x]);
                let i = choose|i: int| 0 <= i < kd.len() && kd[i] == d[x];
                assert(ks[i] == kd[i]);
            } else {
                assert(ks[ks.len() - 1] == s[x]);
            }
        }
    }
}

/// The law of the size filter: its threshold is one hundredth (a `Decimal` division by
/// 100) of a largest size of the side, the size of one of its levels that no level's
/// size exceeds (zero for an empty side); and with a threshold `t` the filter keeps
/// levels of the side whose size is above `t`, and every such level.
pub proof fn law_filter_keeps_sizes_above_largest_hundredth(s: Seq<OrderData>, t: int)
    ensures
        s.len() > 0 ==> exists|k: int|
            #![trigger s[k]]
            0 <= k < s.len() && (forall|j: int| 0 <= j < s.len() ==> (#[trigger] s[j]).size.units()
                <= s[k].size.units()) && size_threshold(s) == decimal_quotient(s[k].size@, (100, 0)),
        s.len() == 0 ==> size_threshold(s) == decimal_quotient((0, 0), (100, 0)),
        forall|i: int|
            0 <= i < keep_sizes_above(s, t).len() ==> (#[trigger] keep_sizes_above(s, t)[i]).size.units()
                > t && s.contains(keep_sizes_above(s, t)[i]),
        forall|x: int|
            0 <= x < s.len() && (#[trigger] s[x]).size.units() > t ==> keep_sizes_above(s, t).contains(
                s[x],
            ),
{
    lemma_max_size_prefix(s, s.len() as int);
    lemma_keep_sizes_above(s, t);
    if s.len() > 0 {
        let k = max_size_prefix(s, s.len() as int).unwrap();
        assert(s[k] == s[k]);
    }
}

/// `filter_order_data`, or `None` where the division overflows.
pub fn try_filter_order_data(data: &[OrderData]) -> (r: Option<Vec<OrderData>>)
    ensures
        r is None <==> size_threshold(data@) is None,
        r matches Some(v) ==> v@ == keep_sizes_above(data@, units_of(size_threshold(data@).unwrap())),
{
    let mut max: Option<usize> = None;
    let mut i: usize = 0;
    while i < data.len()
        invariant
            i <= data@.len(),
            match max {
                Some(k) => k < i && max_size_prefix(data@, i as int) == Some(k as int),
                None => max_size_prefix(data@, i as int) is None,
            },
        decreases data@.len() - i,
    {
        match max {
            None => {
                max = Some(i);
            },
            Some(k) => {
                if !dec_lt(&data[i].size, &data[k].size) {
                    max = Some(i);
                }
            },
        }
        i = i + 1;
    }
    let max_size = match max {
        Some(k) => data[k].size,
        None => Dec::zero(),
    };
    let hundred = Dec::from_int(100);
    let threshold = match dec_div(max_size, hundred) {
        Some(t) => t,
        None => {
            return None;
        },
    };
    let ghost t = threshold.units();
    let mut result: Vec<OrderData> = Vec::new();
    let mut j: usize = 0;
    while j < data.len()
        invariant
            j <= data@.len(),
            t == threshold.units(),
            result@ == keep_sizes_above(data@.take(j as int), t),
        decreases data@.len() - j,
    {
        assert(data@.take(j + 1).drop_last() =~= data@.take(j as int));
        if dec_lt(&threshold, &data[j].size) {
            result.push(data[j]);
        }
        j = j + 1;
    }
    assert(data@.take(data@.len() as int) =~= data@);
    Some(result)
}

/// The levels of a side whose size is above one hundredth of the largest size, in order.
pub fn filter_order_data(data: &[OrderData]) -> (r: Vec<OrderData>)
    requires
        size_threshold(data@) is Some,
    ensures
        r@ == keep_sizes_above(data@, units_of(size_threshold(data@).unwrap())),
{
    try_filter_order_data(data).unwrap()
}

/// The running sums of `weighted_price` over `s`: the sum of price times size and the sum
/// of sizes, both starting from zero; `None` where an operation overflows.
pub open spec fn weighted_sums(s: Seq<OrderData>) -> Option<((int, int), (int, int))>
    decreases s.len(),
{
    if s.len() == 0 {
        Some(((0, 0), (0, 0)))
    } else {
        match weighted_sums(s.drop_last()) {
            None => None,
            Some(sums) => match decimal_product(s.last().price@, s.last().size@) {
                None => None,
                Some(v) => match (decimal_sum(sums.0, v), decimal_sum(sums.1, s.last().size@)) {
                    (Some(a), Some(b)) => Some((a, b)),
                    _ => None,
                },
            },
        }
    }
}

/// Whether `weighted_price` stays within `Decimal`: the sums do not overflow and, where
/// the price sum is not zero, neither division fails.
pub open spec fn weighted_price_defined(s: Seq<OrderData>) -> bool {
    &&& s.len() <= i32::MAX
    &&& weighted_sums(s) matches Some(sums) && (units_of(sums.0) != 0 ==> {
        &&& decimal_quotient(sums.0, sums.1) is Some
        &&& decimal_quotient(sums.1, (s.len() as int, 0)) is Some
    })
}

/// What `weighted_price` returns: `None` where the sum of price times size is zero, else
/// the volume-weighted price and the mean size.
pub open spec fn weighted_price_result(s: Seq<OrderData>, r: Option<OrderData>) -> bool {
    let sums = weighted_sums(s).unwrap();
    if units_of(sums.0) == 0 {
        r is None
    } else {
        r matches Some(x) && x.price@ == decimal_quotient(sums.0, sums.1).unwrap() && x.size@
            == decimal_quotient(sums.1, (s.len() as int, 0)).unwrap()
    }
}

proof fn lemma_weighted_sums_none(s: Seq<OrderData>, i: int)
    requires
        0 <= i <= s.len(),
        weighted_sums(s.take(i)) is None,
    ensures
        weighted_sums(s) is None,
    decreases s.len() - i,
{
    if i < s.len() {
        assert(s.take(i + 1).drop_last() =~= s.take(i));
        lemma_weighted_sums_none(s, i + 1);
    } else {
        assert(s.take(i) =~= s);
    }
}

/// `weighted_price`, or `None` where `Decimal` overflows or divides by zero (where it
/// would panic).
pub fn try_weighted_price(data: &[OrderData]) -> (r: Option<Option<OrderData>>)
    ensures
        r is None <==> !weighted_price_defined(data@),
        r matches Some(x) ==> weighted_price_result(data@, x),
{
    if data.len() > 0x7fff_ffff {
        return None;
    }
    let mut sum_price = Dec::zero();
    let mut sum_size = Dec::zero();
    let mut i: usize = 0;
    assert(data@.take(0) =~= Seq::<OrderData>::empty());
    while i < data.len()
        invariant
            i <= data@.len(),
            weighted_sums(data@.take(i as int)) == Some((sum_price@, sum_size@)),
        decreases data@.len() - i,
    {
        assert(data@.take(i + 1).drop_last() =~= data@.take(i as int));
        let item = data[i];
        let product = dec_mul(item.price, item.size);
        let (next_price, next_size) = match product {
            None => {
                proof {
                    lemma_weighted_sums_none(data@, i + 1);
                }
                return None;
            },
            Some(v) => (dec_add(sum_price, v), dec_add(sum_size, item.size)),
        };
        match (next_price, next_size) {
            (Some(a), Some(b)) => {
                sum_price = a;
                sum_size = b;
            },
            _ => {
                proof {
                    lemma_weighted_sums_none(data@, i + 1);
                }
                return None;
            },
        }
        i = i + 1;
    }
    assert(data@.take(data@.len() as int) =~= data@);
    if sum_price.is_zero() {
        Some(None)
    } else {
        let count = Dec::from_int(data.len() as i64);
        match (dec_div(sum_price, sum_size), dec_div(sum_size, count)) {
            (Some(price), Some(size)) => Some(Some(OrderData { price, size })),
            _ => None,
        }
    }
}

/// The volume-weighted average price of a side and its mean size; `None` where the sum
/// of price times size is zero.
pub fn weighted_price(data: &[OrderData]) -> (r: Option<OrderData>)
    requires
        weighted_price_defined(data@),
    ensures
        weighted_price_result(data@, r),
{
    try_weighted_price(data).unwrap()
}

} // verus!
