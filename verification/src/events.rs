//! Streams of order-book events of two instruments: merging them by time and finding
//! the books a given time ahead.
use crate::model::{OrderBook, OrderBookEvent, OrderData};
use vstd::prelude::*;

verus! {

/// An order book as plain values.
pub struct OrderBookView {
    pub id: Option<i64>,
    pub timestamp: i64,
    pub asks: Seq<OrderData>,
    pub bids: Seq<OrderData>,
}

impl View for OrderBook {
    type V = OrderBookView;

    open spec fn view(&self) -> OrderBookView {
        OrderBookView {
            id: self.id,
            timestamp: self.timestamp,
            asks: self.asks@,
            bids: self.bids@,
        }
    }
}

/// An event as plain values: the instrument and its order book.
pub open spec fn event_view(e: OrderBookEvent) -> (i16, OrderBookView) {
    (e.instrument_id, e.order_book@)
}

/// The views of a sequence of order books.
pub open spec fn book_views(s: Seq<OrderBook>) -> Seq<OrderBookView> {
    s.map_values(|o: OrderBook| o@)
}

/// The views of a sequence of events.
pub open spec fn event_views(s: Seq<OrderBookEvent>) -> Seq<(i16, OrderBookView)> {
    s.map_values(|e: OrderBookEvent| event_view(e))
}

/// The merge of two streams of order books by time: at each step the earlier head goes
/// first, the head of the first stream where both heads have the same time.
pub open spec fn merge_spec(id1: i16, id2: i16, a: Seq<OrderBookView>, b: Seq<OrderBookView>) -> Seq<
    (i16, OrderBookView),
>
    decreases a.len() + b.len(),
{
    if a.len() == 0 && b.len() == 0 {
        Seq::empty()
    } else if a.len() > 0 && (b.len() == 0 || !(b[0].timestamp < a[0].timestamp)) {
        seq![(id1, a[0])] + merge_spec(id1, id2, a.drop_first(), b)
    } else {
        seq![(id2, b[0])] + merge_spec(id1, id2, a, b.drop_first())
    }
}

/// A copy of a side of an order book.
pub fn copy_levels(v: &Vec<OrderData>) -> (r: Vec<OrderData>)
    ensures
        r@ == v@,
{
    let r = v.clone();
    assert(r@ =~= v@);
    r
}

/// A copy of an order book.
pub fn copy_order_book(o: &OrderBook) -> (r: OrderBook)
    ensures
        r@ == o@,
{
    OrderBook { id: o.id, timestamp: o.timestamp, asks: copy_levels(&o.asks), bids: copy_levels(&o.bids) }
}

/// Merges the order books of two instruments into one stream of events ordered by time;
/// where two books have the same time, the one of the first instrument comes first.
pub fn merge_events(id1: i16, id2: i16, values1: &[OrderBook], values2: &[OrderBook]) -> (r: Vec<
    OrderBookEvent,
>)
    requires
        id1 != id2,
    ensures
        event_views(r@) == merge_spec(id1, id2, book_views(values1@), book_views(values2@)),
{
    let ghost va = book_views(values1@);
    let ghost vb = book_views(values2@);
    let mut events: Vec<OrderBookEvent> = Vec::new();
    let mut i1: usize = 0;
    let mut i2: usize = 0;
    assert(va.skip(0) =~= va);
    assert(vb.skip(0) =~= vb);
    while i1 < values1.len() || i2 < values2.len()
        invariant
            id1 != id2,
            va == book_views(values1@),
            vb == book_views(values2@),
            i1 <= values1@.len(),
            i2 <= values2@.len(),
            event_views(events@) + merge_spec(id1, id2, va.skip(i1 as int), vb.skip(i2 as int))
                == merge_spec(id1, id2, va, vb),
        decreases values1@.len() - i1 + values2@.len() - i2,
    {
        let ghost rest_a = va.skip(i1 as int);
        let ghost rest_b = vb.skip(i2 as int);
        let take_first = i1 < values1.len() && (i2 >= values2.len()
            || !(values2[i2].timestamp < values1[i1].timestamp));
        let ghost before = event_views(events@);
        if take_first {
            let event = OrderBookEvent { instrument_id: id1, order_book: copy_order_book(&values1[i1]) };
            proof {
                assert(rest_a[0] == values1@[i1 as int]@);
                if rest_b.len() > 0 {
                    assert(rest_b[0] == values2@[i2 as int]@);
                }
            }
            events.push(event);
            assert(rest_a.drop_first() =~= va.skip(i1 + 1));
            assert(event_views(events@) =~= before.push((id1, rest_a[0])));
            assert(before.push((id1, rest_a[0])) + merge_spec(id1, id2, rest_a.drop_first(), rest_b)
                =~= before + (seq![(id1, rest_a[0])] + merge_spec(id1, id2, rest_a.drop_first(), rest_b)));
            i1 = i1 + 1;
        } else {
            let event = OrderBookEvent { instrument_id: id2, order_book: copy_order_book(&values2[i2]) };
            proof {
                assert(rest_b[0] == values2@[i2 as int]@);
                if rest_a.len() > 0 {
                    assert(rest_a[0] == values1@[i1 as int]@);
                }
            }
            events.push(event);
            assert(rest_b.drop_first() =~= vb.skip(i2 + 1));
            assert(event_views(events@) =~= before.push((id2, rest_b[0])));
            assert(before.push((id2, rest_b[0])) + merge_spec(id1, id2, rest_a, rest_b.drop_first())
                =~= before + (seq![(id2, rest_b[0])] + merge_spec(id1, id2, rest_a, rest_b.drop_first())));
            i2 = i2 + 1;
        }
    }
    assert(va.skip(i1 as int).len() == 0 && vb.skip(i2 as int).len() == 0);
    assert(event_views(events@) + Seq::empty() =~= event_views(events@));
    events
}

/// The books of one instrument in a merged stream, in order.
pub open spec fn stream_of(s: Seq<(i16, OrderBookView)>, id: i16) -> Seq<OrderBookView>
    decreases s.len(),
{
    if s.len() == 0 {
        Seq::empty()
    } else if s[0].0 == id {
        seq![s[0].1] + stream_of(s.drop_first(), id)
    } else {
        stream_of(s.drop_first(), id)
    }
}

/// Whether order books come in non-decreasing time.
pub open spec fn sorted_by_time(s: Seq<OrderBookView>) -> bool {
    forall|i: int, j: int| 0 <= i < j < s.len() ==> s[i].timestamp <= s[j].timestamp
}

/// Whether events come in non-decreasing time.
pub open spec fn events_sorted_by_time(s: Seq<(i16, OrderBookView)>) -> bool {
    forall|i: int, j: int| 0 <= i < j < s.len() ==> s[i].1.timestamp <= s[j].1.timestamp
}

/// The law of merging: the merged stream holds every book of both instruments once,
/// each instrument's books in their own order.
pub proof fn law_merge_keeps_streams(
    id1: i16,
    id2: i16,
    a: Seq<OrderBookView>,
    b: Seq<OrderBookView>,
)
    requires
        id1 != id2,
    ensures
        merge_spec(id1, id2, a, b).len() == a.len() + b.len(),
        stream_of(merge_spec(id1, id2, a, b), id1) == a,
        stream_of(merge_spec(id1, id2, a, b), id2) == b,
    decreases a.len() + b.len(),
{
    let m = merge_spec(id1, id2, a, b);
    if a.len() == 0 && b.len() == 0 {
        assert(a =~= Seq::<OrderBookView>::empty());
        assert(b =~= Seq::<OrderBookView>::empty());
    } else if a.len() > 0 && (b.len() == 0 || !(b[0].timestamp < a[0].timestamp)) {
        law_merge_keeps_streams(id1, id2, a.drop_first(), b);
        let rest = merge_spec(id1, id2, a.drop_first(), b);
        assert(m == seq![(id1, a[0])] + rest);
        assert(m.drop_first() =~= rest);
        assert(seq![a[0]] + a.drop_first() =~= a);
    } else {
        law_merge_keeps_streams(id1, id2, a, b.drop_first());
        let rest = merge_spec(id1, id2, a, b.drop_first());
        assert(m == seq![(id2, b[0])] + rest);
        assert(m.drop_first() =~= rest);
        assert(seq![b[0]] + b.drop_first() =~= b);
    }
}

proof fn lemma_merge_lower_bound(id1: i16, id2: i16, a: Seq<OrderBookView>, b: Seq<OrderBookView>, t: i64)
    requires
        forall|i: int| 0 <= i < a.len() ==> t <= #[trigger] a[i].timestamp,
        forall|i: int| 0 <= i < b.len() ==> t <= #[trigger] b[i].timestamp,
    ensures
        forall|i: int|
            0 <= i < merge_spec(id1, id2, a, b).len() ==> t <= #[trigger] merge_spec(
                id1,
                id2,
                a,
                b,
            )[i].1.timestamp,
    decreases a.len() + b.len(),
{
    let m = merge_spec(id1, id2, a, b);
    if a.len() == 0 && b.len() == 0 {
    } else if a.len() > 0 && (b.len() == 0 || !(b[0].timestamp < a[0].timestamp)) {
        let a2 = a.drop_first();
        assert forall|i: int| 0 <= i < a2.len() implies t <= #[trigger] a2[i].timestamp by {
            assert(a2[i] == a[i + 1]);
        }
        lemma_merge_lower_bound(id1, id2, a2, b, t);
        let rest = merge_spec(id1, id2, a2, b);
        assert forall|i: int| 0 <= i < m.len() implies t <= #[trigger] m[i].1.timestamp by {
            if i > 0 {
                assert(m[i] == rest[i - 1]);
            }
        }
    } else {
        let b2 = b.drop_first();
        assert forall|i: int| 0 <= i < b2.len() implies t <= #[trigger] b2[i].timestamp by {
            assert(b2[i] == b[i + 1]);
        }
        lemma_merge_lower_bound(id1, id2, a, b2, t);
        let rest = merge_spec(id1, id2, a, b2);
        assert forall|i: int| 0 <= i < m.len() implies t <= #[trigger] m[i].1.timestamp by {
            if i > 0 {
                assert(m[i] == rest[i - 1]);
            }
        }
    }
}

/// The law of merging sorted streams: where each instrument's books come in time order,
/// so do the merged events.
pub proof fn law_merge_sorted(id1: i16, id2: i16, a: Seq<OrderBookView>, b: Seq<OrderBookView>)
    requires
        sorted_by_time(a),
        sorted_by_time(b),
    ensures
        events_sorted_by_time(merge_spec(id1, id2, a, b)),
    decreases a.len() + b.len(),
{
    let m = merge_spec(id1, id2, a, b);
    if a.len() == 0 && b.len() == 0 {
    } else if a.len() > 0 && (b.len() == 0 || !(b[0].timestamp < a[0].timestamp)) {
        let a2 = a.drop_first();
        let t = a[0].timestamp;
        assert(sorted_by_time(a2)) by {
            assert forall|i: int, j: int| 0 <= i < j < a2.len() implies a2[i].timestamp
                <= a2[j].timestamp by {
                assert(a2[i] == a[i + 1] && a2[j] == a[j + 1]);
            }
        }
        law_merge_sorted(id1, id2, a2, b);
        assert forall|i: int| 0 <= i < a2.len() implies t <= #[trigger] a2[i].timestamp by {
            assert(a2[i] == a[i + 1]);
        }
        assert forall|i: int| 0 <= i < b.len() implies t <= #[trigger] b[i].timestamp by {
            assert(b[0].timestamp <= b[i].timestamp);
        }
        lemma_merge_lower_bound(id1, id2, a2, b, t);
        let rest = merge_spec(id1, id2, a2, b);
        assert forall|i: int, j: int| 0 <= i < j < m.len() implies m[i].1.timestamp
            <= m[j].1.timestamp by {
            assert(m[j] == rest[j - 1]);
            if i > 0 {
                assert(m[i] == rest[i - 1]);
            }
        }
    } else {
        let b2 = b.drop_first();
        let t = b[0].timestamp;
        assert(sorted_by_time(b2)) by {
            assert forall|i: int, j: int| 0 <= i < j < b2.len() implies b2[i].timestamp
                <= b2[j].timestamp by {
                assert(b2[i] == b[i + 1] && b2[j] == b[j + 1]);
            }
        }
        law_merge_sorted(id1, id2, a, b2);
        assert forall|i: int| 0 <= i < b2.len() implies t <= #[trigger] b2[i].timestamp by {
            assert(b2[i] == b[i + 1]);
        }
        assert forall|i: int| 0 <= i < a.len() implies t <= #[trigger] a[i].timestamp by {
            assert(a[0].timestamp <= a[i].timestamp);
        }
        lemma_merge_lower_bound(id1, id2, a, b2, t);
        let rest = merge_spec(id1, id2, a, b2);
        assert forall|i: int, j: int| 0 <= i < j < m.len() implies m[i].1.timestamp
            <= m[j].1.timestamp by {
            assert(m[j] == rest[j - 1]);
            if i > 0 {
                assert(m[i] == rest[i - 1]);
            }
        }
    }
}

/// Nanoseconds in a millisecond.
pub const NANOS_PER_MILLI: i64 = 1_000_000;

/// The scan of `on_horizon` from index `n` on, with the latest index of each leg seen so
/// far (at or after `target`): the pair of indices at the first point where both legs
/// have been seen.
pub open spec fn horizon_scan(
    events: Seq<OrderBookEvent>,
    target: int,
    first_leg_id: i16,
    n: int,
    i1: Option<int>,
    i2: Option<int>,
) -> Option<(int, int)>
    decreases events.len() - n,
{
    if n < 0 || n >= events.len() {
        None
    } else {
        let seen1 = if events[n].order_book.timestamp >= target && events[n].instrument_id
            == first_leg_id {
            Some(n)
        } else {
            i1
        };
        let seen2 = if events[n].order_book.timestamp >= target && events[n].instrument_id
            != first_leg_id {
            Some(n)
        } else {
            i2
        };
        match (seen1, seen2) {
            (Some(x), Some(y)) => Some((x, y)),
            _ => horizon_scan(events, target, first_leg_id, n + 1, seen1, seen2),
        }
    }
}

proof fn lemma_horizon_scan(
    events: Seq<OrderBookEvent>,
    target: int,
    first_leg_id: i16,
    start: int,
    n: int,
    i1: Option<int>,
    i2: Option<int>,
)
    requires
        0 <= start <= n,
        i1 matches Some(x) ==> start <= x < n && events[x].instrument_id == first_leg_id
            && events[x].order_book.timestamp >= target,
        i2 matches Some(y) ==> start <= y < n && events[y].instrument_id != first_leg_id
            && events[y].order_book.timestamp >= target,
    ensures
        horizon_scan(events, target, first_leg_id, n, i1, i2) matches Some((x, y)) ==> {
            &&& start <= x < events.len() && start <= y < events.len()
            &&& events[x].instrument_id == first_leg_id && events[y].instrument_id != first_leg_id
            &&& events[x].order_book.timestamp >= target && events[y].order_book.timestamp >= target
        },
    decreases events.len() - n,
{
    if 0 <= n < events.len() {
        let seen1 = if events[n].order_book.timestamp >= target && events[n].instrument_id
            == first_leg_id {
            Some(n)
        } else {
            i1
        };
        let seen2 = if events[n].order_book.timestamp >= target && events[n].instrument_id
            != first_leg_id {
            Some(n)
        } else {
            i2
        };
        lemma_horizon_scan(events, target, first_leg_id, start, n + 1, seen1, seen2);
    }
}

/// The order books of both legs `horizon` milliseconds after event `i`: scanning from
/// event `i` on, the latest book of each leg whose time is at least that target, at the
/// first point where both legs have such a book.  `None` for a zero horizon or where one
/// leg has no such book.
pub fn on_horizon<'a>(events: &'a [OrderBookEvent], i: usize, first_leg_id: i16, horizon: u16) -> (r:
    Option<(&'a OrderBook, &'a OrderBook)>)
    requires
        i < events@.len(),
        events@[i as int].order_book.timestamp + horizon * NANOS_PER_MILLI <= i64::MAX,
    ensures
        horizon == 0 ==> r is None,
        horizon != 0 ==> match horizon_scan(
            events@,
            events@[i as int].order_book.timestamp + horizon * NANOS_PER_MILLI,
            first_leg_id,
            i as int,
            None,
            None,
        ) {
            Some((x, y)) => r matches Some((b1, b2)) && *b1 == events@[x].order_book && *b2
                == events@[y].order_book,
            None => r is None,
        },
        r matches Some((b1, b2)) ==> b1.timestamp >= events@[i as int].order_book.timestamp
            + horizon * NANOS_PER_MILLI && b2.timestamp >= events@[i as int].order_book.timestamp
            + horizon * NANOS_PER_MILLI,
{
    if horizon == 0 {
        return None;
    }
    let target = events[i].order_book.timestamp + (horizon as i64) * NANOS_PER_MILLI;
    let ghost full = horizon_scan(events@, target as int, first_leg_id, i as int, None, None);
    proof {
        lemma_horizon_scan(events@, target as int, first_leg_id, i as int, i as int, None, None);
    }
    let mut index = i;
    let mut i1: Option<usize> = None;
    let mut i2: Option<usize> = None;
    while index < events.len()
        invariant
            i <= index <= events@.len(),
            horizon != 0,
            target == events@[i as int].order_book.timestamp + horizon * NANOS_PER_MILLI,
            full matches Some((x, y)) ==> 0 <= x < events@.len() && 0 <= y < events@.len()
                && events@[x].order_book.timestamp >= target && events@[y].order_book.timestamp
                >= target,
            full == horizon_scan(events@, target as int, first_leg_id, i as int, None, None),
            full == horizon_scan(
                events@,
                target as int,
                first_leg_id,
                index as int,
                match i1 {
                    Some(x) => Some(x as int),
                    None => None,
                },
                match i2 {
                    Some(y) => Some(y as int),
                    None => None,
                },
            ),
            !(i1 is Some && i2 is Some),
            i1 matches Some(x) ==> x < index,
            i2 matches Some(y) ==> y < index,
        decreases events@.len() - index,
    {
        if events[index].order_book.timestamp >= target {
            if events[index].instrument_id == first_leg_id {
                i1 = Some(index);
            } else {
                i2 = Some(index);
            }
        }
        if let (Some(x), Some(y)) = (i1, i2) {
            return Some((&events[x].order_book, &events[y].order_book));
        }
        index = index + 1;
    }
    None
}

} // verus!
