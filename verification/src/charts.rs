//! The series behind the viewer's charts: the best prices of one side of an
//! instrument's order books, and the spreads of a pair of instruments over time.
use crate::decimal::{
    Dec, dec_add, dec_div, dec_min_spec, dec_mul, decimal_difference, decimal_product,
    decimal_quotient, decimal_sum, opt_view, units_of,
};
use crate::model::{OrderBook, OrderData};
use crate::order_book::{
    best_price, best_price_spec, buy_legs, delta_buy_defined, delta_sell_defined, keep_sizes_above,
    lemma_pick_prefix, pick_index, sell_legs, size_threshold, try_calculate_delta_buy,
    try_calculate_delta_sell, try_filter_order_data, Pick,
};
use crate::clock::{floor_millis, millis, trunc_div, trunc_div_i64};
use vstd::prelude::*;

verus! {

/// Why a chart series could not be made.
#[derive(Clone, Copy, Debug, PartialEq, Eq, Structural)]
pub enum ChartError {
    /// An instrument has no order books in the interval.
    NoData,
    /// A `Decimal` operation overflowed.
    Overflow,
}

/// The asks or the bids of an order book.
pub open spec fn side_of(book: OrderBook, is_ask: bool) -> Seq<OrderData> {
    if is_ask {
        book.asks@
    } else {
        book.bids@
    }
}

/// The point an order book gives to the price series: the best level of its side after
/// the small levels are filtered out, where there is one.
pub open spec fn price_point(book: OrderBook, is_ask: bool) -> Option<OrderData> {
    let side = side_of(book, is_ask);
    best_price_spec(keep_sizes_above(side, units_of(size_threshold(side).unwrap())), is_ask)
}

/// Whether the filter can be computed for every order book (its division does not
/// overflow).
pub open spec fn price_series_defined(books: Seq<OrderBook>, is_ask: bool) -> bool {
    forall|i: int| 0 <= i < books.len() ==> size_threshold(side_of(#[trigger] books[i], is_ask)) is Some
}

/// The price series: each order book that has a point gives its time and that point, in
/// order.
pub open spec fn price_points(books: Seq<OrderBook>, is_ask: bool) -> Seq<(i64, OrderData)>
    decreases books.len(),
{
    if books.len() == 0 {
        Seq::empty()
    } else {
        match price_point(books.last(), is_ask) {
            Some(x) => price_points(books.drop_last(), is_ask).push((books.last().timestamp, x)),
            None => price_points(books.drop_last(), is_ask),
        }
    }
}

/// The series of best asks (or bids) of an instrument's order books: for each order
/// book, the best level among those whose size is above a hundredth of the largest,
/// with the book's time; books without such a level are skipped.  `None` where the
/// filter's division overflows.
pub fn price_series(order_books: &[OrderBook], is_ask: bool) -> (r: Option<Vec<(i64, OrderData)>>)
    ensures
        r is None <==> !price_series_defined(order_books@, is_ask),
        r matches Some(v) ==> v@ == price_points(order_books@, is_ask),
{
    let mut series: Vec<(i64, OrderData)> = Vec::new();
    let mut i: usize = 0;
    while i < order_books.len()
        invariant
            i <= order_books@.len(),
            price_series_defined(order_books@.take(i as int), is_ask),
            series@ == price_points(order_books@.take(i as int), is_ask),
        decreases order_books@.len() - i,
    {
        assert(order_books@.take(i + 1).drop_last() =~= order_books@.take(i as int));
        let book = &order_books[i];
        let side = if is_ask {
            book.asks.as_slice()
        } else {
            book.bids.as_slice()
        };
        match try_filter_order_data(side) {
            None => {
                assert(!price_series_defined(order_books@, is_ask)) by {
                    assert(order_books@[i as int] == *book);
                }
                return None;
            },
            Some(filtered) => {
                if let Some(x) = best_price(filtered.as_slice(), is_ask) {
                    series.push((book.timestamp, x));
                }
            },
        }
        i = i + 1;
        assert forall|j: int| 0 <= j < i implies size_threshold(
            side_of(#[trigger] order_books@.take(i as int)[j], is_ask),
        ) is Some by {
            if j < i - 1 {
                assert(order_books@.take(i as int)[j] == order_books@.take(i - 1)[j]);
            }
        }
    }
    assert(order_books@.take(order_books@.len() as int) =~= order_books@);
    Some(series)
}

/// The pairs of order books visited when the two streams are walked in step from
/// `(i1, i2)`: the pair is visited, then the stream whose book is earlier moves on (the
/// second one on a tie); the walk stops when either stream reaches its last book.
pub open spec fn walk_pairs(b1: Seq<OrderBook>, b2: Seq<OrderBook>, i1: int, i2: int) -> Seq<
    (int, int),
>
    decreases b1.len() - i1 + b2.len() - i2,
{
    if 0 <= i1 < b1.len() - 1 && 0 <= i2 < b2.len() - 1 {
        if b1[i1].timestamp < b2[i2].timestamp {
            seq![(i1, i2)] + walk_pairs(b1, b2, i1 + 1, i2)
        } else {
            seq![(i1, i2)] + walk_pairs(b1, b2, i1, i2 + 1)
        }
    } else {
        Seq::empty()
    }
}

/// A spread by the views of its price and size.
pub open spec fn spread_view(d1: Option<OrderData>, d2: Option<OrderData>) -> Option<
    ((int, int), (int, int)),
> {
    match (d1, d2) {
        (Some(a), Some(b)) => Some(
            (decimal_difference(b.price@, a.price@).unwrap(), dec_min_spec(a.size, b.size)@),
        ),
        _ => None,
    }
}

/// The spread of a visited pair: for selling the first instrument, or for buying it.
pub open spec fn pair_spread(b1: OrderBook, b2: OrderBook, min_volume: Dec, sell: bool) -> Option<
    ((int, int), (int, int)),
> {
    if sell {
        spread_view(sell_legs(b1, b2, min_volume).0, sell_legs(b1, b2, min_volume).1)
    } else {
        spread_view(buy_legs(b1, b2, min_volume).0, buy_legs(b1, b2, min_volume).1)
    }
}

/// The spread series over the visited pairs: each pair with a spread gives the first
/// book's time and the spread.
pub open spec fn spread_points(
    b1: Seq<OrderBook>,
    b2: Seq<OrderBook>,
    pairs: Seq<(int, int)>,
    min_volume: Dec,
    sell: bool,
) -> Seq<(i64, ((int, int), (int, int)))>
    decreases pairs.len(),
{
    if pairs.len() == 0 {
        Seq::empty()
    } else {
        let p = pairs.last();
        match pair_spread(b1[p.0], b2[p.1], min_volume, sell) {
            Some(v) => spread_points(b1, b2, pairs.drop_last(), min_volume, sell).push(
                (b1[p.0].timestamp, v),
            ),
            None => spread_points(b1, b2, pairs.drop_last(), min_volume, sell),
        }
    }
}

/// Whether both spreads of every visited pair stay within `Decimal`.
pub open spec fn spreads_defined(
    b1: Seq<OrderBook>,
    b2: Seq<OrderBook>,
    pairs: Seq<(int, int)>,
    min_volume: Dec,
) -> bool {
    forall|k: int|
        0 <= k < pairs.len() ==> delta_sell_defined(b1[#[trigger] pairs[k].0], b2[pairs[k].1], min_volume)
            && delta_buy_defined(b1[pairs[k].0], b2[pairs[k].1], min_volume)
}

/// Whether a level carries more than `min_volume`: its price times its size, as
/// `Decimal` computes it, is above `min_volume`.
pub open spec fn carries_more_than(d: OrderData, min_volume: Dec) -> bool {
    decimal_product(d.price@, d.size@) matches Some(v) && units_of(v) > min_volume.units()
}

/// Whether `a` and `c` are the legs of a spread between `ob1` and `ob2`: for selling
/// the first instrument (`sell`), a bid of `ob1` and an ask of `ob2`, else an ask of
/// `ob1` and a bid of `ob2`; both carry more than `min_volume`, and no other level that
/// does has a better price (a higher bid, a lower ask).
pub open spec fn liquid_best_legs(
    ob1: OrderBook,
    ob2: OrderBook,
    min_volume: Dec,
    sell: bool,
    a: OrderData,
    c: OrderData,
) -> bool {
    let s1 = if sell {
        ob1.bids@
    } else {
        ob1.asks@
    };
    let s2 = if sell {
        ob2.asks@
    } else {
        ob2.bids@
    };
    &&& s1.contains(a) && carries_more_than(a, min_volume)
    &&& s2.contains(c) && carries_more_than(c, min_volume)
    &&& forall|x: int|
        0 <= x < s1.len() && carries_more_than(s1[x], min_volume) ==> if sell {
            (#[trigger] s1[x]).price.units() <= a.price.units()
        } else {
            a.price.units() <= s1[x].price.units()
        }
    &&& forall|y: int|
        0 <= y < s2.len() && carries_more_than(s2[y], min_volume) ==> if sell {
            c.price.units() <= (#[trigger] s2[y]).price.units()
        } else {
            s2[y].price.units() <= c.price.units()
        }
}

/// Whether `pt` is the spread point of the pair `p` of books: the first book's time, and
/// the difference of the legs' prices (the second's less the first's) with the smaller
/// of their sizes, for legs that `liquid_best_legs` describes.
pub open spec fn spread_point_of(
    b1: Seq<OrderBook>,
    b2: Seq<OrderBook>,
    min_volume: Dec,
    sell: bool,
    pt: (i64, ((int, int), (int, int))),
    p: (int, int),
) -> bool {
    exists|a: OrderData, c: OrderData|
        #[trigger] liquid_best_legs(b1[p.0], b2[p.1], min_volume, sell, a, c) && pt == (
            b1[p.0].timestamp,
            (decimal_difference(c.price@, a.price@).unwrap(), dec_min_spec(a.size, c.size)@),
        )
}

proof fn lemma_liquid_pick(side: Seq<OrderData>, min_volume: Dec, pick: Pick, k: int)
    requires
        pick_index(side, volume_mask_of(side, min_volume), pick) == Some(k),
        forall|i: int| 0 <= i < side.len() ==> (#[trigger] decimal_product(side[i].price@, side[i].size@)) is Some,
    ensures
        0 <= k < side.len(),
        carries_more_than(side[k], min_volume),
        forall|x: int|
            0 <= x < side.len() && carries_more_than(side[x], min_volume) ==> match pick {
                Pick::FirstMin => side[k].price.units() <= (#[trigger] side[x]).price.units(),
                _ => (#[trigger] side[x]).price.units() <= side[k].price.units(),
            },
{
    let mask = volume_mask_of(side, min_volume);
    lemma_pick_prefix(side, mask, pick, side.len() as int);
    assert(decimal_product(side[k].price@, side[k].size@) is Some);
    assert forall|x: int|
        0 <= x < side.len() && carries_more_than(side[x], min_volume) implies match pick {
            Pick::FirstMin => side[k].price.units() <= (#[trigger] side[x]).price.units(),
            _ => (#[trigger] side[x]).price.units() <= side[k].price.units(),
        } by {
        assert(mask[x]);
    }
}

/// The mask of the levels that carry more than `min_volume`.
pub open spec fn volume_mask_of(side: Seq<OrderData>, min_volume: Dec) -> Seq<bool> {
    crate::order_book::liquid_mask(side, min_volume)
}

proof fn lemma_pair_spread_legs(ob1: OrderBook, ob2: OrderBook, min_volume: Dec, sell: bool)
    requires
        delta_sell_defined(ob1, ob2, min_volume),
        delta_buy_defined(ob1, ob2, min_volume),
    ensures
        pair_spread(ob1, ob2, min_volume, sell) matches Some(v) ==> exists|a: OrderData, c: OrderData|
            #[trigger] liquid_best_legs(ob1, ob2, min_volume, sell, a, c) && v == (
                decimal_difference(c.price@, a.price@).unwrap(),
                dec_min_spec(a.size, c.size)@,
            ),
{
    let s1 = if sell {
        ob1.bids@
    } else {
        ob1.asks@
    };
    let s2 = if sell {
        ob2.asks@
    } else {
        ob2.bids@
    };
    let p1 = if sell {
        Pick::LastMax
    } else {
        Pick::FirstMin
    };
    let p2 = if sell {
        Pick::FirstMin
    } else {
        Pick::LastMax
    };
    if pair_spread(ob1, ob2, min_volume, sell) is Some {
        let k1 = pick_index(s1, volume_mask_of(s1, min_volume), p1).unwrap();
        let k2 = pick_index(s2, volume_mask_of(s2, min_volume), p2).unwrap();
        assert forall|i: int| 0 <= i < s1.len() implies (#[trigger] decimal_product(
            s1[i].price@,
            s1[i].size@,
        )) is Some by {
            assert(crate::order_book::level_volume(s1[i], false) is Some);
        }
        assert forall|i: int| 0 <= i < s2.len() implies (#[trigger] decimal_product(
            s2[i].price@,
            s2[i].size@,
        )) is Some by {
            assert(crate::order_book::level_volume(s2[i], false) is Some);
        }
        lemma_liquid_pick(s1, min_volume, p1, k1);
        lemma_liquid_pick(s2, min_volume, p2, k2);
        let a = s1[k1];
        let c = s2[k2];
        assert(s1.contains(a));
        assert(s2.contains(c));
        assert(liquid_best_legs(ob1, ob2, min_volume, sell, a, c));
    }
}

/// The law of the delta chart: every point of its sell (buy) series comes from one of
/// the visited pairs of books, at the first book's time, and is the spread between the
/// best levels of the two books that carry more than `min_volume`: a level that carries
/// no more than `min_volume` never decides a spread.
pub proof fn law_spreads_use_liquid_levels(
    b1: Seq<OrderBook>,
    b2: Seq<OrderBook>,
    pairs: Seq<(int, int)>,
    min_volume: Dec,
    sell: bool,
)
    requires
        forall|k: int|
            0 <= k < pairs.len() ==> 0 <= (#[trigger] pairs[k]).0 < b1.len() && 0 <= pairs[k].1
                < b2.len(),
        spreads_defined(b1, b2, pairs, min_volume),
    ensures
        forall|k: int|
            0 <= k < spread_points(b1, b2, pairs, min_volume, sell).len() ==> exists|j: int|
                0 <= j < pairs.len() && spread_point_of(
                    b1,
                    b2,
                    min_volume,
                    sell,
                    #[trigger] spread_points(b1, b2, pairs, min_volume, sell)[k],
                    pairs[j],
                ),
    decreases pairs.len(),
{
    if pairs.len() > 0 {
        let d = pairs.drop_last();
        let n = pairs.len() - 1;
        assert forall|k: int| 0 <= k < d.len() implies 0 <= (#[trigger] d[k]).0 < b1.len() && 0
            <= d[k].1 < b2.len() by {
            assert(d[k] == pairs[k]);
        }
        assert(spreads_defined(b1, b2, d, min_volume)) by {
            assert forall|k: int| 0 <= k < d.len() implies delta_sell_defined(
                b1[#[trigger] d[k].0],
                b2[d[k].1],
                min_volume,
            ) && delta_buy_defined(b1[d[k].0], b2[d[k].1], min_volume) by {
                assert(d[k] == pairs[k]);
            }
        }
        law_spreads_use_liquid_levels(b1, b2, d, min_volume, sell);
        let prev = spread_points(b1, b2, d, min_volume, sell);
        let cur = spread_points(b1, b2, pairs, min_volume, sell);
        let p = pairs[n];
        assert(pairs.last() == p);
        assert(0 <= p.0 < b1.len() && 0 <= p.1 < b2.len());
        lemma_pair_spread_legs(b1[p.0], b2[p.1], min_volume, sell);
        assert forall|k: int| 0 <= k < cur.len() implies exists|j: int|
            0 <= j < pairs.len() && spread_point_of(
                b1,
                b2,
                min_volume,
                sell,
                #[trigger] cur[k],
                pairs[j],
            ) by {
            if k < prev.len() {
                assert(cur[k] == prev[k]);
                let j = choose|j: int|
                    0 <= j < d.len() && spread_point_of(b1, b2, min_volume, sell, prev[k], d[j]);
                assert(d[j] == pairs[j]);
            } else {
                let v = pair_spread(b1[p.0], b2[p.1], min_volume, sell).unwrap();
                assert(cur[k] == (b1[p.0].timestamp, v));
                assert(spread_point_of(b1, b2, min_volume, sell, cur[k], pairs[n]));
            }
        }
    }
}

/// A series of (time, level) points by the views of the levels.
pub open spec fn points_view(v: Seq<(i64, OrderData)>) -> Seq<(i64, ((int, int), (int, int)))> {
    v.map_values(|p: (i64, OrderData)| (p.0, (p.1.price@, p.1.size@)))
}

proof fn lemma_walk_step(b1: Seq<OrderBook>, b2: Seq<OrderBook>, i1: int, i2: int)
    requires
        0 <= i1 < b1.len() - 1,
        0 <= i2 < b2.len() - 1,
    ensures
        b1[i1].timestamp < b2[i2].timestamp ==> walk_pairs(b1, b2, i1, i2) == seq![(i1, i2)]
            + walk_pairs(b1, b2, i1 + 1, i2),
        b1[i1].timestamp >= b2[i2].timestamp ==> walk_pairs(b1, b2, i1, i2) == seq![(i1, i2)]
            + walk_pairs(b1, b2, i1, i2 + 1),
{
}

/// The spreads of a pair of instruments over time, as the delta chart shows them.  The
/// two streams of order books are walked in step (see `walk_pairs`); at each visited
/// pair the spread for selling the first instrument and the spread for buying it are
/// taken over the levels that carry more than `min_volume`, and each one that exists
/// is kept with the time of the first book.  `NoData` where a stream is empty,
/// `Overflow` where a spread overflows `Decimal`.
pub fn pair_deltas(order_books1: &[OrderBook], order_books2: &[OrderBook], min_volume: Dec) -> (r:
    Result<(Vec<(i64, OrderData)>, Vec<(i64, OrderData)>), ChartError>)
    ensures
        r == Err::<(Vec<(i64, OrderData)>, Vec<(i64, OrderData)>), ChartError>(ChartError::NoData)
            <==> (order_books1@.len() == 0 || order_books2@.len() == 0),
        r == Err::<(Vec<(i64, OrderData)>, Vec<(i64, OrderData)>), ChartError>(ChartError::Overflow)
            <==> (order_books1@.len() > 0 && order_books2@.len() > 0 && !spreads_defined(
            order_books1@,
            order_books2@,
            walk_pairs(order_books1@, order_books2@, 0, 0),
            min_volume,
        )),
        r matches Ok(v) ==> points_view(v.0@) == spread_points(
            order_books1@,
            order_books2@,
            walk_pairs(order_books1@, order_books2@, 0, 0),
            min_volume,
            true,
        ) && points_view(v.1@) == spread_points(
            order_books1@,
            order_books2@,
            walk_pairs(order_books1@, order_books2@, 0, 0),
            min_volume,
            false,
        ),
{
    if order_books1.len() == 0 || order_books2.len() == 0 {
        return Err(ChartError::NoData);
    }
    let ghost b1 = order_books1@;
    let ghost b2 = order_books2@;
    let ghost whole = walk_pairs(b1, b2, 0, 0);
    let ghost mut visited: Seq<(int, int)> = Seq::empty();
    let mut sells: Vec<(i64, OrderData)> = Vec::new();
    let mut buys: Vec<(i64, OrderData)> = Vec::new();
    let mut index1: usize = 0;
    let mut index2: usize = 0;
    assert(visited + whole =~= whole);
    while index1 < order_books1.len() - 1 && index2 < order_books2.len() - 1
        invariant
            b1 == order_books1@,
            b2 == order_books2@,
            b1.len() > 0,
            b2.len() > 0,
            index1 < b1.len(),
            index2 < b2.len(),
            whole == walk_pairs(b1, b2, 0, 0),
            whole == visited + walk_pairs(b1, b2, index1 as int, index2 as int),
            spreads_defined(b1, b2, visited, min_volume),
            points_view(sells@) == spread_points(b1, b2, visited, min_volume, true),
            points_view(buys@) == spread_points(b1, b2, visited, min_volume, false),
        decreases b1.len() - index1 + b2.len() - index2,
    {
        let data1 = &order_books1[index1];
        let data2 = &order_books2[index2];
        proof {
            lemma_walk_step(b1, b2, index1 as int, index2 as int);
        }
        let ghost next_visited = visited.push((index1 as int, index2 as int));
        assert(next_visited.drop_last() =~= visited);
        let sell = try_calculate_delta_sell(data1, data2, min_volume);
        let buy = try_calculate_delta_buy(data1, data2, min_volume);
        match (sell, buy) {
            (Some(s), Some(b)) => {
                let ghost old_sells = sells@;
                let ghost old_buys = buys@;
                if let Some(x) = s {
                    sells.push((data1.timestamp, x));
                    assert(points_view(sells@) =~= points_view(old_sells).push(
                        (data1.timestamp, (x.price@, x.size@)),
                    ));
                }
                if let Some(x) = b {
                    buys.push((data1.timestamp, x));
                    assert(points_view(buys@) =~= points_view(old_buys).push(
                        (data1.timestamp, (x.price@, x.size@)),
                    ));
                }
                assert(spreads_defined(b1, b2, next_visited, min_volume)) by {
                    assert forall|k: int| 0 <= k < next_visited.len() implies delta_sell_defined(
                        b1[#[trigger] next_visited[k].0],
                        b2[next_visited[k].1],
                        min_volume,
                    ) && delta_buy_defined(b1[next_visited[k].0], b2[next_visited[k].1], min_volume) by {
                        if k < visited.len() {
                            assert(next_visited[k] == visited[k]);
                        }
                    }
                }
            },
            _ => {
                assert(!spreads_defined(b1, b2, whole, min_volume)) by {
                    let k = visited.len() as int;
                    assert(walk_pairs(b1, b2, index1 as int, index2 as int)[0] == (
                        index1 as int,
                        index2 as int,
                    ));
                    assert(whole[k] == (index1 as int, index2 as int));
                    assert(b1[index1 as int] == *data1 && b2[index2 as int] == *data2);
                    assert(!(delta_sell_defined(b1[whole[k].0], b2[whole[k].1], min_volume)
                        && delta_buy_defined(b1[whole[k].0], b2[whole[k].1], min_volume)));
                }
                return Err(ChartError::Overflow);
            },
        }
        proof {
            visited = next_visited;
        }
        if data1.timestamp < data2.timestamp {
            index1 = index1 + 1;
        } else {
            index2 = index2 + 1;
        }
        assert(whole =~= visited + walk_pairs(b1, b2, index1 as int, index2 as int));
    }
    assert(walk_pairs(b1, b2, index1 as int, index2 as int) =~= Seq::<(int, int)>::empty());
    assert(whole =~= visited);
    Ok((sells, buys))
}

/// The number of time groups of a chart.
pub const PRICES_RESOLUTION: usize = 1600;

/// The group of a point at `ts` in a chart that starts at `start` (milliseconds) and
/// spans `length` milliseconds: its share of the span times 1601, minus 2, kept within
/// the groups.
pub open spec fn group_of(ts: i64, start: int, length: int) -> int {
    let q = trunc_div((millis(ts as int) - start) * 1601, length) - 2;
    if q < 0 {
        0
    } else if q > 1599 {
        1599
    } else {
        q
    }
}

/// The sums of price times size and of size over the points of group `g`, in order,
/// both from zero; `None` where `Decimal` overflows.
pub open spec fn group_sums(series: Seq<(i64, OrderData)>, start: int, length: int, g: int) -> Option<
    ((int, int), (int, int)),
>
    decreases series.len(),
{
    if series.len() == 0 {
        Some(((0, 0), (0, 0)))
    } else {
        let p = series.last();
        match group_sums(series.drop_last(), start, length, g) {
            None => None,
            Some(acc) => if group_of(p.0, start, length) == g {
                match decimal_product(p.1.price@, p.1.size@) {
                    None => None,
                    Some(v) => match (decimal_sum(v, acc.0), decimal_sum(p.1.size@, acc.1)) {
                        (Some(a), Some(b)) => Some((a, b)),
                        _ => None,
                    },
                }
            } else {
                Some(acc)
            },
        }
    }
}

/// The value of a group: the volume-weighted mean price, `None` where the group has no
/// size.
pub open spec fn group_value(sums: ((int, int), (int, int))) -> Option<(int, int)> {
    if units_of(sums.1) == 0 {
        None
    } else {
        decimal_quotient(sums.0, sums.1)
    }
}

/// Whether a group's sums and mean stay within `Decimal`.
pub open spec fn group_defined(sums: Option<((int, int), (int, int))>) -> bool {
    sums matches Some(x) && (units_of(x.1) != 0 ==> decimal_quotient(x.0, x.1) is Some)
}

/// Whether every group of a series stays within `Decimal`.
pub open spec fn channel_defined(series: Seq<(i64, OrderData)>, start: int, length: int) -> bool {
    forall|g: int| 0 <= g < 1600 ==> group_defined(#[trigger] group_sums(series, start, length, g))
}

/// The series by their points.
pub open spec fn series_views(data: Seq<Vec<(i64, OrderData)>>) -> Seq<Seq<(i64, OrderData)>> {
    data.map_values(|v: Vec<(i64, OrderData)>| v@)
}

/// The latest first time of the series.
pub open spec fn chart_start(data: Seq<Seq<(i64, OrderData)>>) -> int
    decreases data.len(),
{
    if data.len() <= 1 {
        data[0][0].0 as int
    } else {
        let m = chart_start(data.drop_last());
        let t = data.last()[0].0 as int;
        if t > m {
            t
        } else {
            m
        }
    }
}

/// The earliest last time of the series.
pub open spec fn chart_finish(data: Seq<Seq<(i64, OrderData)>>) -> int
    decreases data.len(),
{
    if data.len() <= 1 {
        data[0].last().0 as int
    } else {
        let m = chart_finish(data.drop_last());
        let t = data.last().last().0 as int;
        if t < m {
            t
        } else {
            m
        }
    }
}

/// The law of the chart's span: the chart starts at the latest first time of the series
/// (no series starts after it, and one starts at it) and finishes at the earliest last
/// time (no series ends before it, and one ends at it).
pub proof fn law_chart_spans_common_times(data: Seq<Seq<(i64, OrderData)>>)
    requires
        data.len() > 0,
        forall|c: int| 0 <= c < data.len() ==> (#[trigger] data[c]).len() > 0,
    ensures
        forall|c: int| 0 <= c < data.len() ==> (#[trigger] data[c])[0].0 <= chart_start(data),
        exists|c: int| 0 <= c < data.len() && (#[trigger] data[c])[0].0 == chart_start(data),
        forall|c: int| 0 <= c < data.len() ==> chart_finish(data) <= (#[trigger] data[c]).last().0,
        exists|c: int| 0 <= c < data.len() && (#[trigger] data[c]).last().0 == chart_finish(data),
    decreases data.len(),
{
    if data.len() > 1 {
        let d = data.drop_last();
        assert forall|c: int| 0 <= c < d.len() implies (#[trigger] d[c]).len() > 0 by {
            assert(d[c] == data[c]);
        }
        law_chart_spans_common_times(d);
        let n = data.len() - 1;
        assert forall|c: int| 0 <= c < data.len() implies (#[trigger] data[c])[0].0 <= chart_start(
            data,
        ) by {
            if c < n {
                assert(d[c] == data[c]);
            }
        }
        assert forall|c: int| 0 <= c < data.len() implies chart_finish(data) <= (
        #[trigger] data[c]).last().0 by {
            if c < n {
                assert(d[c] == data[c]);
            }
        }
        let cs = choose|c: int| 0 <= c < d.len() && (#[trigger] d[c])[0].0 == chart_start(d);
        let cf = choose|c: int| 0 <= c < d.len() && (#[trigger] d[c]).last().0 == chart_finish(d);
        assert(d[cs] == data[cs] && d[cf] == data[cf]);
        if data[n][0].0 > chart_start(d) {
            assert(data[n][0].0 == chart_start(data));
        } else {
            assert(data[cs][0].0 == chart_start(data));
        }
        if data[n].last().0 < chart_finish(d) {
            assert(data[n].last().0 == chart_finish(data));
        } else {
            assert(data[cf].last().0 == chart_finish(data));
        }
    } else {
        assert(data[0][0].0 == chart_start(data));
        assert(data[0].last().0 == chart_finish(data));
    }
}

/// The span of the chart in milliseconds.
pub open spec fn chart_length(data: Seq<Seq<(i64, OrderData)>>) -> int {
    millis(chart_finish(data)) - millis(chart_start(data))
}

/// Whether every group of every series stays within `Decimal`.
pub open spec fn groups_defined(data: Seq<Seq<(i64, OrderData)>>) -> bool {
    forall|c: int|
        0 <= c < data.len() ==> channel_defined(
            #[trigger] data[c],
            millis(chart_start(data)),
            chart_length(data),
        )
}

/// The grouped chart: the groups' times and, per group, the mean price of each series.
#[derive(Clone, Debug)]
pub struct PriceGroups {
    /// The latest first time of the series, in nanoseconds.
    pub start: i64,
    /// For each group, its time after `start`, in milliseconds.
    pub offsets_ms: Vec<i64>,
    /// For each group, the mean price of each series, where the group has any size.
    pub values: Vec<Vec<Option<Dec>>>,
}

fn group_index(ts: i64, start_ms: i64, length: i64) -> (g: usize)
    requires
        length != 0,
        length > i64::MIN,
        -9_223_372_036_855 <= start_ms <= 9_223_372_036_854,
    ensures
        g == group_of(ts, start_ms as int, length as int),
        g < 1600,
{
    let t = floor_millis(ts) - start_ms;
    let q = trunc_div_i64(t * 1601, length);
    if q < 2 {
        0
    } else if q - 2 > 1599 {
        1599
    } else {
        (q - 2) as usize
    }
}

proof fn lemma_group_sums_none(series: Seq<(i64, OrderData)>, start: int, length: int, g: int, i: int)
    requires
        0 <= i <= series.len(),
        group_sums(series.take(i), start, length, g) is None,
    ensures
        group_sums(series, start, length, g) is None,
    decreases series.len() - i,
{
    if i < series.len() {
        assert(series.take(i + 1).drop_last() =~= series.take(i));
        lemma_group_sums_none(series, start, length, g, i + 1);
    } else {
        assert(series.take(i) =~= series);
    }
}

/// The mean price of each group of one series.
fn channel_values(series: &Vec<(i64, OrderData)>, start_ms: i64, length: i64) -> (r: Option<
    Vec<Option<Dec>>,
>)
    requires
        length != 0,
        length > i64::MIN,
        -9_223_372_036_855 <= start_ms <= 9_223_372_036_854,
    ensures
        r is None <==> !channel_defined(series@, start_ms as int, length as int),
        r matches Some(v) ==> v@.len() == 1600 && forall|g: int|
            0 <= g < 1600 ==> opt_view(#[trigger] v@[g]) == group_value(
                group_sums(series@, start_ms as int, length as int, g).unwrap(),
            ),
{
    let ghost start = start_ms as int;
    let ghost len = length as int;
    let mut sums: Vec<(Dec, Dec)> = Vec::new();
    let mut g: usize = 0;
    while g < PRICES_RESOLUTION
        invariant
            g <= 1600,
            sums@.len() == g,
            forall|h: int| 0 <= h < g ==> #[trigger] sums@[h].0@ == (0int, 0int) && sums@[h].1@ == (
                0int,
                0int,
            ),
        decreases 1600 - g,
    {
        sums.push((Dec::zero(), Dec::zero()));
        g = g + 1;
    }
    let mut i: usize = 0;
    assert(series@.take(0) =~= Seq::<(i64, OrderData)>::empty());
    while i < series.len()
        invariant
            i <= series@.len(),
            start == start_ms as int,
            len == length as int,
            length != 0,
            length > i64::MIN,
            -9_223_372_036_855 <= start_ms <= 9_223_372_036_854,
            sums@.len() == 1600,
            forall|h: int|
                0 <= h < 1600 ==> #[trigger] group_sums(series@.take(i as int), start, len, h) == Some(
                    (sums@[h].0@, sums@[h].1@),
                ),
        decreases series@.len() - i,
    {
        let point = series[i];
        let ts = point.0;
        let level = point.1;
        let ghost prefix = series@.take(i as int);
        let ghost next = series@.take(i + 1);
        assert(next.drop_last() =~= prefix);
        assert(next.last() == point);
        let k = group_index(ts, start_ms, length);
        let sum_price = sums[k].0;
        let sum_size = sums[k].1;
        assert(group_sums(prefix, start, len, k as int) == Some((sum_price@, sum_size@)));
        let product = match dec_mul(level.price, level.size) {
            Some(v) => v,
            None => {
                assert(group_sums(next, start, len, k as int) is None);
                proof {
                    lemma_group_sums_none(series@, start, len, k as int, i + 1);
                }
                return None;
            },
        };
        let ghost old_sums = sums@;
        match (dec_add(product, sum_price), dec_add(level.size, sum_size)) {
            (Some(a), Some(b)) => {
                sums.set(k, (a, b));
                assert forall|h: int| 0 <= h < 1600 implies #[trigger] group_sums(
                    next,
                    start,
                    len,
                    h,
                ) == Some((sums@[h].0@, sums@[h].1@)) by {
                    assert(group_sums(prefix, start, len, h) == Some((old_sums[h].0@, old_sums[h].1@)));
                }
            },
            _ => {
                assert(group_sums(next, start, len, k as int) is None);
                proof {
                    lemma_group_sums_none(series@, start, len, k as int, i + 1);
                }
                return None;
            },
        }
        i = i + 1;
    }
    assert(series@.take(series@.len() as int) =~= series@);
    let mut values: Vec<Option<Dec>> = Vec::new();
    let mut h: usize = 0;
    while h < PRICES_RESOLUTION
        invariant
            h <= 1600,
            start == start_ms as int,
            len == length as int,
            sums@.len() == 1600,
            values@.len() == h,
            forall|j: int|
                0 <= j < 1600 ==> #[trigger] group_sums(series@, start, len, j) == Some(
                    (sums@[j].0@, sums@[j].1@),
                ),
            forall|j: int| 0 <= j < h ==> group_defined(#[trigger] group_sums(series@, start, len, j)),
            forall|j: int|
                0 <= j < h ==> opt_view(#[trigger] values@[j]) == group_value(
                    group_sums(series@, start, len, j).unwrap(),
                ),
        decreases 1600 - h,
    {
        let (sum_price, sum_size) = sums[h];
        if sum_size.is_zero() {
            values.push(None);
        } else {
            match dec_div(sum_price, sum_size) {
                Some(v) => values.push(Some(v)),
                None => {
                    assert(!group_defined(group_sums(series@, start, len, h as int)));
                    assert(!channel_defined(series@, start_ms as int, length as int));
                    return None;
                },
            }
        }
        h = h + 1;
    }
    Some(values)
}

/// Groups the series of a chart in time, as the price and delta charts show them.  The
/// chart starts at the latest first time of the series and spans, in whole
/// milliseconds, to their earliest last time; it has 1600 groups, and each point goes to
/// the group of its share of the span (see `group_of`).  The value of a series in a
/// group is the volume-weighted mean of its prices there (the sum of price times size
/// over the sum of sizes), where the group has any size.  Group `g` lies
/// `(g + 1) * span / 1600` milliseconds after the start.  `None` where `Decimal`
/// overflows.
pub fn group_data(data: &[Vec<(i64, OrderData)>]) -> (r: Option<PriceGroups>)
    requires
        data@.len() > 0,
        forall|c: int| 0 <= c < data@.len() ==> (#[trigger] data@[c])@.len() > 0,
        chart_length(series_views(data@)) != 0,
    ensures
        r is None <==> !groups_defined(series_views(data@)),
        r matches Some(p) ==> {
            &&& p.start == chart_start(series_views(data@))
            &&& p.offsets_ms@.len() == 1600
            &&& forall|g: int|
                0 <= g < 1600 ==> #[trigger] p.offsets_ms@[g] == trunc_div(
                    (g + 1) * chart_length(series_views(data@)),
                    1600,
                )
            &&& p.values@.len() == 1600
            &&& forall|g: int| 0 <= g < 1600 ==> (#[trigger] p.values@[g])@.len() == data@.len()
            &&& forall|g: int, c: int|
                0 <= g < 1600 && 0 <= c < data@.len() ==> opt_view(#[trigger] p.values@[g]@[c])
                    == group_value(
                    group_sums(
                        data@[c]@,
                        millis(chart_start(series_views(data@))),
                        chart_length(series_views(data@)),
                        g,
                    ).unwrap(),
                )
        },
{
    let ghost views = series_views(data@);
    assert(views.len() == data@.len());
    let mut start_ts: i64 = data[0][0].0;
    let last0 = data[0].len() - 1;
    let mut finish_ts: i64 = data[0][last0].0;
    assert(views.take(1).len() == 1 && views.take(1)[0] == data@[0]@);
    let mut i: usize = 1;
    while i < data.len()
        invariant
            1 <= i <= data@.len(),
            views == series_views(data@),
            forall|c: int| 0 <= c < data@.len() ==> (#[trigger] data@[c])@.len() > 0,
            start_ts == chart_start(views.take(i as int)),
            finish_ts == chart_finish(views.take(i as int)),
        decreases data@.len() - i,
    {
        assert(views.take(i + 1).drop_last() =~= views.take(i as int));
        assert(views.take(i + 1).last() == data@[i as int]@);
        let series = &data[i];
        let first = series[0].0;
        let last = series[series.len() - 1].0;
        if first > start_ts {
            start_ts = first;
        }
        if last < finish_ts {
            finish_ts = last;
        }
        i = i + 1;
    }
    assert(views.take(data@.len() as int) =~= views);
    let start_ms = floor_millis(start_ts);
    let finish_ms = floor_millis(finish_ts);
    let length = finish_ms - start_ms;
    let ghost start = start_ms as int;
    let ghost len = length as int;
    let mut columns: Vec<Vec<Option<Dec>>> = Vec::new();
    let mut c: usize = 0;
    while c < data.len()
        invariant
            c <= data@.len(),
            views == series_views(data@),
            start == millis(chart_start(views)),
            len == chart_length(views),
            start == start_ms as int,
            len == length as int,
            length != 0,
            -18_446_744_073_709 <= length <= 18_446_744_073_709,
            -9_223_372_036_855 <= start_ms <= 9_223_372_036_854,
            columns@.len() == c,
            forall|k: int| 0 <= k < c ==> channel_defined(#[trigger] views[k], start, len),
            forall|k: int| 0 <= k < c ==> (#[trigger] columns@[k])@.len() == 1600,
            forall|k: int, g: int|
                0 <= k < c && 0 <= g < 1600 ==> opt_view(#[trigger] columns@[k]@[g]) == group_value(
                    group_sums(views[k], start, len, g).unwrap(),
                ),
        decreases data@.len() - c,
    {
        assert(views[c as int] == data@[c as int]@);
        match channel_values(&data[c], start_ms, length) {
            Some(column) => {
                columns.push(column);
            },
            None => {
                assert(!groups_defined(views));
                return None;
            },
        }
        c = c + 1;
    }
    let mut values: Vec<Vec<Option<Dec>>> = Vec::new();
    let mut offsets: Vec<i64> = Vec::new();
    let mut g: usize = 0;
    while g < PRICES_RESOLUTION
        invariant
            g <= 1600,
            views == series_views(data@),
            start == millis(chart_start(views)),
            len == chart_length(views),
            len == length as int,
            -18_446_744_073_709 <= length <= 18_446_744_073_709,
            columns@.len() == data@.len(),
            forall|k: int| 0 <= k < data@.len() ==> (#[trigger] columns@[k])@.len() == 1600,
            forall|k: int, h: int|
                0 <= k < data@.len() && 0 <= h < 1600 ==> opt_view(#[trigger] columns@[k]@[h])
                    == group_value(group_sums(views[k], start, len, h).unwrap()),
            values@.len() == g,
            offsets@.len() == g,
            forall|h: int| 0 <= h < g ==> (#[trigger] values@[h])@.len() == data@.len(),
            forall|h: int, k: int|
                0 <= h < g && 0 <= k < data@.len() ==> #[trigger] values@[h]@[k] == columns@[k]@[h],
            forall|h: int| 0 <= h < g ==> #[trigger] offsets@[h] == trunc_div((h + 1) * len, 1600),
        decreases 1600 - g,
    {
        let mut row: Vec<Option<Dec>> = Vec::new();
        let mut k: usize = 0;
        while k < columns.len()
            invariant
                g < 1600,
                k <= columns@.len(),
                forall|j: int| 0 <= j < columns@.len() ==> (#[trigger] columns@[j])@.len() == 1600,
                row@.len() == k,
                forall|j: int| 0 <= j < k ==> #[trigger] row@[j] == columns@[j]@[g as int],
            decreases columns@.len() - k,
        {
            row.push(columns[k][g]);
            k = k + 1;
        }
        values.push(row);
        let n: i64 = (g + 1) as i64;
        assert(-29_514_790_517_934_400 <= n * length <= 29_514_790_517_934_400) by (nonlinear_arith)
            requires
                1 <= n <= 1600,
                -18_446_744_073_709 <= length <= 18_446_744_073_709,
        ;
        offsets.push(trunc_div_i64(n * length, 1600));
        g = g + 1;
    }
    assert forall|gg: int, cc: int|
        0 <= gg < 1600 && 0 <= cc < data@.len() implies opt_view(#[trigger] values@[gg]@[cc])
        == group_value(
        group_sums(data@[cc]@, millis(chart_start(views)), chart_length(views), gg).unwrap(),
    ) by {
        assert(views[cc] == data@[cc]@);
        assert(values@[gg]@[cc] == columns@[cc]@[gg]);
    }
    Some(PriceGroups { start: start_ts, offsets_ms: offsets, values })
}

} // verus!
