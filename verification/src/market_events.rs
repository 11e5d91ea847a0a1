//! The market events of the experiments: the order books and the trades of two
//! instruments, in one stream ordered by time, how long such a stream spans, and the
//! order book nearest to a time.
use crate::model::OrderBook;
use vstd::prelude::*;

verus! {

/// Where a market event comes from.
#[derive(Clone, Copy, Debug, PartialEq, Eq, Structural)]
pub enum MarketSource {
    OrderBook1,
    OrderBook2,
    Deal1,
    Deal2,
}

/// A market event as the stream's bookkeeping reads it: where it comes from and its time
/// (nanoseconds since the Unix epoch).
#[derive(Clone, Copy, Debug, PartialEq, Eq, Structural)]
pub struct MarketEvent {
    pub source: MarketSource,
    pub time: i64,
}

impl MarketEvent {
    /// The time of the event: the time of its order book, or when its trade was made.
    pub fn event_datetime(&self) -> (r: i64)
        ensures
            r == self.time,
    {
        self.time
    }
}

/// How long a stream of events spans: the time of its last event less that of its first,
/// in nanoseconds.
pub fn market_events_time_diapason(events: &[MarketEvent]) -> (r: i128)
    requires
        events@.len() > 0,
    ensures
        r == events@.last().time - events@[0].time,
{
    events[events.len() - 1].event_datetime() as i128 - events[0].event_datetime() as i128
}

/// The source whose next event comes first: the first source (in the order order books
/// of the first instrument, of the second, trades of the first, of the second) whose
/// next time is the earliest; `None` where every source is exhausted.
pub open spec fn next_source(
    a: Seq<i64>,
    b: Seq<i64>,
    c: Seq<i64>,
    d: Seq<i64>,
    i: int,
    j: int,
    k: int,
    l: int,
) -> Option<MarketSource> {
    let s1: Option<(MarketSource, i64)> = if 0 <= i < a.len() {
        Some((MarketSource::OrderBook1, a[i]))
    } else {
        None
    };
    let s2 = if 0 <= j < b.len() && (s1 matches Some(x) ==> b[j] < x.1) {
        Some((MarketSource::OrderBook2, b[j]))
    } else {
        s1
    };
    let s3 = if 0 <= k < c.len() && (s2 matches Some(x) ==> c[k] < x.1) {
        Some((MarketSource::Deal1, c[k]))
    } else {
        s2
    };
    let s4 = if 0 <= l < d.len() && (s3 matches Some(x) ==> d[l] < x.1) {
        Some((MarketSource::Deal2, d[l]))
    } else {
        s3
    };
    match s4 {
        Some(x) => Some(x.0),
        None => None,
    }
}

/// The source `next_source` picks has an event left.
pub proof fn lemma_next_source(
    a: Seq<i64>,
    b: Seq<i64>,
    c: Seq<i64>,
    d: Seq<i64>,
    i: int,
    j: int,
    k: int,
    l: int,
)
    ensures
        next_source(a, b, c, d, i, j, k, l) == Some(MarketSource::OrderBook1) ==> 0 <= i < a.len(),
        next_source(a, b, c, d, i, j, k, l) == Some(MarketSource::OrderBook2) ==> 0 <= j < b.len(),
        next_source(a, b, c, d, i, j, k, l) == Some(MarketSource::Deal1) ==> 0 <= k < c.len(),
        next_source(a, b, c, d, i, j, k, l) == Some(MarketSource::Deal2) ==> 0 <= l < d.len(),
        next_source(a, b, c, d, i, j, k, l) is None ==> !(0 <= i < a.len()) && !(0 <= j < b.len())
            && !(0 <= k < c.len()) && !(0 <= l < d.len()),
{
}

/// The order in which the events of the four sources are taken, from positions
/// `(i, j, k, l)` on: each step takes the next event of `next_source`.
pub open spec fn merge_order(
    a: Seq<i64>,
    b: Seq<i64>,
    c: Seq<i64>,
    d: Seq<i64>,
    i: int,
    j: int,
    k: int,
    l: int,
) -> Seq<(MarketSource, int)>
    decreases (a.len() - i) + (b.len() - j) + (c.len() - k) + (d.len() - l),
{
    if !(0 <= i <= a.len() && 0 <= j <= b.len() && 0 <= k <= c.len() && 0 <= l <= d.len()) {
        Seq::empty()
    } else {
        proof {
            lemma_next_source(a, b, c, d, i, j, k, l);
        }
        match next_source(a, b, c, d, i, j, k, l) {
            Some(MarketSource::OrderBook1) => seq![(MarketSource::OrderBook1, i)] + merge_order(
                a,
                b,
                c,
                d,
                i + 1,
                j,
                k,
                l,
            ),
            Some(MarketSource::OrderBook2) => seq![(MarketSource::OrderBook2, j)] + merge_order(
                a,
                b,
                c,
                d,
                i,
                j + 1,
                k,
                l,
            ),
            Some(MarketSource::Deal1) => seq![(MarketSource::Deal1, k)] + merge_order(
                a,
                b,
                c,
                d,
                i,
                j,
                k + 1,
                l,
            ),
            Some(MarketSource::Deal2) => seq![(MarketSource::Deal2, l)] + merge_order(
                a,
                b,
                c,
                d,
                i,
                j,
                k,
                l + 1,
            ),
            None => Seq::empty(),
        }
    }
}

/// The order in which the market events of two instruments are merged by time: the
/// order books of each instrument (by their times `values1`, `values2`) and the trades of
/// each (`trades1`, `trades2`); at each step the earliest next event is taken, the first
/// source in that order where several come at the same time.  Each event is given by
/// its source and its index there.
pub fn merge_events(values1: &[i64], values2: &[i64], trades1: &[i64], trades2: &[i64]) -> (r: Vec<
    (MarketSource, usize),
>)
    ensures
        r@.map_values(|e: (MarketSource, usize)| (e.0, e.1 as int)) == merge_order(
            values1@,
            values2@,
            trades1@,
            trades2@,
            0,
            0,
            0,
            0,
        ),
{
    let ghost whole = merge_order(values1@, values2@, trades1@, trades2@, 0, 0, 0, 0);
    let mut events: Vec<(MarketSource, usize)> = Vec::new();
    let mut i: usize = 0;
    let mut j: usize = 0;
    let mut k: usize = 0;
    let mut l: usize = 0;
    assert(events@.map_values(|e: (MarketSource, usize)| (e.0, e.1 as int)) + whole =~= whole);
    loop
        invariant_except_break
            i <= values1@.len(),
            j <= values2@.len(),
            k <= trades1@.len(),
            l <= trades2@.len(),
            whole == merge_order(values1@, values2@, trades1@, trades2@, 0, 0, 0, 0),
            whole == events@.map_values(|e: (MarketSource, usize)| (e.0, e.1 as int)) + merge_order(
                values1@,
                values2@,
                trades1@,
                trades2@,
                i as int,
                j as int,
                k as int,
                l as int,
            ),
        ensures
            whole == events@.map_values(|e: (MarketSource, usize)| (e.0, e.1 as int)),
        decreases (values1@.len() - i) + (values2@.len() - j) + (trades1@.len() - k) + (
        trades2@.len() - l),
    {
        let mut cur: Option<(MarketSource, i64)> = None;
        if i < values1.len() {
            cur = Some((MarketSource::OrderBook1, values1[i]));
        }
        if j < values2.len() {
            let use_it = match cur {
                Some((_, t)) => values2[j] < t,
                None => true,
            };
            if use_it {
                cur = Some((MarketSource::OrderBook2, values2[j]));
            }
        }
        if k < trades1.len() {
            let use_it = match cur {
                Some((_, t)) => trades1[k] < t,
                None => true,
            };
            if use_it {
                cur = Some((MarketSource::Deal1, trades1[k]));
            }
        }
        if l < trades2.len() {
            let use_it = match cur {
                Some((_, t)) => trades2[l] < t,
                None => true,
            };
            if use_it {
                cur = Some((MarketSource::Deal2, trades2[l]));
            }
        }
        let ghost before = events@.map_values(|e: (MarketSource, usize)| (e.0, e.1 as int));
        match cur {
            Some((MarketSource::OrderBook1, _)) => {
                events.push((MarketSource::OrderBook1, i));
                i = i + 1;
            },
            Some((MarketSource::OrderBook2, _)) => {
                events.push((MarketSource::OrderBook2, j));
                j = j + 1;
            },
            Some((MarketSource::Deal1, _)) => {
                events.push((MarketSource::Deal1, k));
                k = k + 1;
            },
            Some((MarketSource::Deal2, _)) => {
                events.push((MarketSource::Deal2, l));
                l = l + 1;
            },
            None => {
                assert(merge_order(
                    values1@,
                    values2@,
                    trades1@,
                    trades2@,
                    i as int,
                    j as int,
                    k as int,
                    l as int,
                ) =~= Seq::<(MarketSource, int)>::empty());
                assert(whole =~= events@.map_values(|e: (MarketSource, usize)| (e.0, e.1 as int)));
                break;
            },
        }
        assert(events@.map_values(|e: (MarketSource, usize)| (e.0, e.1 as int)) =~= before.push(
            (events@.last().0, events@.last().1 as int),
        ));
    }
    events
}

/// The distance between two times.
pub open spec fn time_distance(a: i64, b: i64) -> int {
    if a < b {
        b - a
    } else {
        a - b
    }
}

/// The index of the book nearest in time to `time` among indices `from..=to`, the first
/// one among equally near books.
pub open spec fn nearest_in(books: Seq<OrderBook>, time: i64, from: int, to: int) -> int
    decreases to - from,
{
    if to <= from {
        from
    } else {
        let k = nearest_in(books, time, from, to - 1);
        if time_distance(books[to].timestamp, time) < time_distance(books[k].timestamp, time) {
            to
        } else {
            k
        }
    }
}

/// The index of the order book nearest in time to `time`, looking only within ten books
/// of `prev_index` on either side; the first one among equally near books.
pub fn find_nearest_order_book(time: i64, order_books: &[OrderBook], prev_index: usize) -> (r:
    Option<usize>)
    requires
        order_books@.len() > 0,
        prev_index <= i32::MAX,
    ensures
        ({
            let from = if prev_index < 10 {
                0
            } else {
                prev_index - 10
            };
            let to = if prev_index + 10 < order_books@.len() - 1 {
                prev_index + 10
            } else {
                order_books@.len() - 1
            };
            if from <= to {
                r == Some(nearest_in(order_books@, time, from, to) as usize)
            } else {
                r is None
            }
        }),
{
    let from: usize = if prev_index < 10 {
        0
    } else {
        prev_index - 10
    };
    let last = order_books.len() - 1;
    let to: usize = if prev_index + 10 < last {
        prev_index + 10
    } else {
        last
    };
    if from > to {
        return None;
    }
    let mut best: usize = from;
    let mut best_diff: i128 = (order_books[from].timestamp as i128) - (time as i128);
    if best_diff < 0 {
        best_diff = -best_diff;
    }
    let mut i: usize = from + 1;
    while i <= to
        invariant
            from <= best <= to < order_books@.len(),
            from < i <= to + 1,
            best == nearest_in(order_books@, time, from as int, i - 1),
            best_diff == time_distance(order_books@[best as int].timestamp, time),
        decreases to + 1 - i,
    {
        let mut diff: i128 = (order_books[i].timestamp as i128) - (time as i128);
        if diff < 0 {
            diff = -diff;
        }
        if diff < best_diff {
            best = i;
            best_diff = diff;
        }
        i = i + 1;
    }
    Some(best)
}

} // verus!
