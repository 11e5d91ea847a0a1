//! Rebuilding the order books of a query from the store, row by row.  Each stored row
//! holds, for each side, a full snapshot, a delta to the previous book, or nothing.
//! Where a delta names a price id the price dictionary lacks, the rebuilding stops
//! there; the caller reloads the dictionary and goes on from where it stopped.
use crate::book_delta::{
    apply_deltas, delta_spec, distinct_prices, has_level, lemma_apply_deltas_levels,
    law_delta_rebuilds_side, price_units, size_units,
};
use crate::decimal::Dec;
use crate::model::{OrderBook, OrderData};
use crate::storage::{rebuild_side, resolve_prices, QueryAsksOrBids, SideStep, StoredSide};
use std::collections::HashMap;
use vstd::prelude::*;

verus! {

/// A stored row: the order book's id and time, and what is stored for each side.
pub struct StoredRow {
    pub id: i64,
    pub timestamp: i64,
    pub asks: StoredSide,
    pub bids: StoredSide,
}

/// What rebuilding one side gives with the price dictionary `prices`: the new current
/// side and the book's side.  A full snapshot is both; a delta is applied to the current
/// side, which is then both; nothing stored leaves the current side and gives an empty
/// side.  `None` where a delta names a price id the dictionary lacks.
pub open spec fn side_step(stored: StoredSide, cur: Seq<OrderData>, prices: Map<i32, Dec>) -> Option<
    (Seq<OrderData>, Seq<OrderData>),
> {
    match stored {
        StoredSide::Full(v) => Some((v@, v@)),
        StoredSide::Delta(d) => match resolve_prices(d@, prices) {
            Some(levels) => Some((apply_deltas(cur, levels), apply_deltas(cur, levels))),
            None => None,
        },
        StoredSide::Missing => Some((cur, Seq::empty())),
    }
}

/// The progress of a rebuilding as plain values: the next row, the asks already rebuilt
/// for it (where only its bids are left), the current side of each, and the books so
/// far, each by its id, time and sides.
pub struct RebuildView {
    pub next_row: int,
    pub asks_of_row: Option<Seq<OrderData>>,
    pub cur_asks: Seq<OrderData>,
    pub cur_bids: Seq<OrderData>,
    pub books: Seq<(Option<i64>, i64, Seq<OrderData>, Seq<OrderData>)>,
}

/// An order book by its id, time and sides.
pub open spec fn book_view(b: OrderBook) -> (Option<i64>, i64, Seq<OrderData>, Seq<OrderData>) {
    (b.id, b.timestamp, b.asks@, b.bids@)
}

/// The progress of rebuilding a query's order books (see `RebuildView`).
pub struct OrderBooksRebuild {
    pub next_row: usize,
    pub asks_of_row: Option<Vec<OrderData>>,
    pub cur_asks: Vec<OrderData>,
    pub cur_bids: Vec<OrderData>,
    pub books: Vec<OrderBook>,
}

impl View for OrderBooksRebuild {
    type V = RebuildView;

    open spec fn view(&self) -> RebuildView {
        RebuildView {
            next_row: self.next_row as int,
            asks_of_row: match self.asks_of_row {
                Some(v) => Some(v@),
                None => None,
            },
            cur_asks: self.cur_asks@,
            cur_bids: self.cur_bids@,
            books: self.books@.map_values(|b: OrderBook| book_view(b)),
        }
    }
}

/// One step of rebuilding `rows` with the price dictionary `prices`, from `s`: the asks
/// of the next row, or, where they are done, its bids, after which the row's book is
/// kept where it has a level, and the next row comes.  A side the query does not read
/// is empty and leaves its current side.  `None` where the step needs a price id the
/// dictionary lacks.
pub open spec fn rebuild_step(
    rows: Seq<StoredRow>,
    ab: QueryAsksOrBids,
    prices: Map<i32, Dec>,
    s: RebuildView,
) -> Option<RebuildView> {
    let row = rows[s.next_row];
    match s.asks_of_row {
        None => {
            let asks_step = if ab is BIDS {
                Some((s.cur_asks, Seq::<OrderData>::empty()))
            } else {
                side_step(row.asks, s.cur_asks, prices)
            };
            match asks_step {
                Some((cur, asks)) => Some(
                    RebuildView {
                        next_row: s.next_row,
                        asks_of_row: Some(asks),
                        cur_asks: cur,
                        cur_bids: s.cur_bids,
                        books: s.books,
                    },
                ),
                None => None,
            }
        },
        Some(asks) => {
            let bids_step = if ab is ASKS {
                Some((s.cur_bids, Seq::<OrderData>::empty()))
            } else {
                side_step(row.bids, s.cur_bids, prices)
            };
            match bids_step {
                Some((cur, bids)) => Some(
                    RebuildView {
                        next_row: s.next_row + 1,
                        asks_of_row: None,
                        cur_asks: s.cur_asks,
                        cur_bids: cur,
                        books: if asks.len() > 0 || bids.len() > 0 {
                            s.books.push((Some(row.id), row.timestamp, asks, bids))
                        } else {
                            s.books
                        },
                    },
                ),
                None => None,
            }
        },
    }
}

/// How far a step of the rebuilding is from the end.
pub open spec fn steps_left(rows: Seq<StoredRow>, s: RebuildView) -> int {
    2 * (rows.len() - s.next_row) - (if s.asks_of_row is Some {
        1int
    } else {
        0int
    })
}

/// Rebuilding `rows` with the price dictionary `prices`, from `s` on: the progress once
/// every row is done (`true`), or once a step needs a price id the dictionary lacks
/// (`false`, with the progress up to that step).
pub open spec fn rebuild_run(
    rows: Seq<StoredRow>,
    ab: QueryAsksOrBids,
    prices: Map<i32, Dec>,
    s: RebuildView,
) -> (RebuildView, bool)
    decreases steps_left(rows, s),
{
    if s.next_row >= rows.len() {
        (s, true)
    } else {
        match rebuild_step(rows, ab, prices, s) {
            Some(t) => rebuild_run(rows, ab, prices, t),
            None => (s, false),
        }
    }
}

/// Whether the price dictionary has every price id that a stored side names.
pub open spec fn side_prices_known(stored: StoredSide, prices: Map<i32, Dec>) -> bool {
    match stored {
        StoredSide::Delta(d) => resolve_prices(d@, prices) is Some,
        _ => true,
    }
}

/// With a price dictionary that has every price id the rows' deltas name, rebuilding
/// goes through every row: it never stops for a reload.
pub proof fn law_rebuild_completes_with_known_prices(
    rows: Seq<StoredRow>,
    ab: QueryAsksOrBids,
    prices: Map<i32, Dec>,
    s: RebuildView,
)
    requires
        0 <= s.next_row,
        forall|i: int|
            0 <= i < rows.len() ==> side_prices_known(#[trigger] rows[i].asks, prices)
                && side_prices_known(rows[i].bids, prices),
    ensures
        rebuild_run(rows, ab, prices, s).1,
    decreases steps_left(rows, s),
{
    if s.next_row < rows.len() {
        let row = rows[s.next_row];
        assert(side_prices_known(row.asks, prices) && side_prices_known(row.bids, prices));
        let t = rebuild_step(rows, ab, prices, s);
        assert(t is Some);
        law_rebuild_completes_with_known_prices(rows, ab, prices, t.unwrap());
    }
}

/// Whether two sides have the same levels: the same sizes at the same prices, compared
/// numerically.
pub open spec fn same_levels(a: Seq<OrderData>, b: Seq<OrderData>) -> bool {
    forall|x: int, v: int|
        #![trigger has_level(a, x, v)]
        #![trigger has_level(b, x, v)]
        has_level(a, x, v) <==> has_level(b, x, v)
}

/// Whether the rows store the sides `asks` and `bids` of a sequence of order books: each
/// side whole, or (after the first book) as delta levels, stored as price ids that the
/// dictionary `prices` resolves (see `law_stored_delta_reads_back`), which take the same
/// side of the book before to one with this side's levels.
pub open spec fn rows_store_books(
    rows: Seq<StoredRow>,
    asks: Seq<Seq<OrderData>>,
    bids: Seq<Seq<OrderData>>,
    prices: Map<i32, Dec>,
) -> bool {
    &&& rows.len() == asks.len() == bids.len()
    &&& forall|i: int| 0 <= i < rows.len() ==> #[trigger] stores_side(rows[i].asks, asks, i, prices)
    &&& forall|i: int| 0 <= i < rows.len() ==> #[trigger] stores_side(rows[i].bids, bids, i, prices)
}

/// Whether `stored` holds side `i` of `sides`: whole, or as delta levels that take side
/// `i - 1` to a side with the levels of side `i`.
pub open spec fn stores_side(stored: StoredSide, sides: Seq<Seq<OrderData>>, i: int, prices: Map<
    i32,
    Dec,
>) -> bool {
    match stored {
        StoredSide::Full(v) => v@ == sides[i],
        StoredSide::Delta(d) => i > 0 && match resolve_prices(d@, prices) {
            Some(levels) => same_levels(apply_deltas(sides[i - 1], levels), sides[i]),
            None => false,
        },
        StoredSide::Missing => false,
    }
}

/// Whether `stored` holds side `i` of `sides` the way the listeners write it: whole, or
/// as the delta from side `i - 1` (`calculate_delta`).
pub open spec fn listener_stores_side(
    stored: StoredSide,
    sides: Seq<Seq<OrderData>>,
    i: int,
    prices: Map<i32, Dec>,
) -> bool {
    match stored {
        StoredSide::Full(v) => v@ == sides[i],
        StoredSide::Delta(d) => i > 0 && resolve_prices(d@, prices) == Some(
            delta_spec(sides[i - 1], sides[i]),
        ),
        StoredSide::Missing => false,
    }
}

/// Whether a side has no repeated price and no level of size zero, as a listened order
/// book's sides are.
pub open spec fn proper_side(side: Seq<OrderData>) -> bool {
    &&& distinct_prices(side)
    &&& forall|i: int| 0 <= i < side.len() ==> (#[trigger] side[i]).size@.0 != 0
}

proof fn lemma_same_levels_len(a: Seq<OrderData>, b: Seq<OrderData>)
    requires
        same_levels(a, b),
    ensures
        a.len() > 0 <==> b.len() > 0,
{
    if a.len() > 0 {
        assert(has_level(a, price_units(a[0]), size_units(a[0])));
    }
    if b.len() > 0 {
        assert(has_level(b, price_units(b[0]), size_units(b[0])));
    }
}

/// Rebuilding one side of a stored book from a current side with the levels of the
/// side before gives a side with the levels of the book's side.
proof fn lemma_side_step_levels(
    stored: StoredSide,
    sides: Seq<Seq<OrderData>>,
    i: int,
    cur: Seq<OrderData>,
    prices: Map<i32, Dec>,
)
    requires
        0 <= i < sides.len(),
        stores_side(stored, sides, i, prices),
        forall|j: int| 0 <= j < sides.len() ==> distinct_prices(#[trigger] sides[j]),
        i > 0 ==> distinct_prices(cur) && same_levels(cur, sides[i - 1]),
    ensures
        side_step(stored, cur, prices) is Some,
        side_step(stored, cur, prices).unwrap().0 == side_step(stored, cur, prices).unwrap().1,
        distinct_prices(side_step(stored, cur, prices).unwrap().1),
        same_levels(side_step(stored, cur, prices).unwrap().1, sides[i]),
{
    assert(distinct_prices(sides[i]));
    match stored {
        StoredSide::Full(v) => {
            assert(same_levels(v@, sides[i]));
        },
        StoredSide::Delta(d) => {
            let prev = sides[i - 1];
            let levels = resolve_prices(d@, prices).unwrap();
            assert(distinct_prices(prev));
            lemma_apply_deltas_levels(cur, levels);
            lemma_apply_deltas_levels(prev, levels);
            assert(same_levels(apply_deltas(cur, levels), sides[i])) by {
                assert forall|x: int, v: int|
                    has_level(apply_deltas(cur, levels), x, v) <==> has_level(sides[i], x, v) by {
                    assert(has_level(apply_deltas(prev, levels), x, v) <==> has_level(sides[i], x, v));
                    assert(has_level(cur, x, v) <==> has_level(prev, x, v));
                }
            }
        },
        StoredSide::Missing => {},
    }
}

/// Whether the progress `s` has rebuilt the first `s.next_row` books with the rows' ids
/// and times and the levels of the books' sides, and keeps the levels of the last
/// rebuilt book as its current sides.
pub open spec fn rebuilt_so_far(
    rows: Seq<StoredRow>,
    asks: Seq<Seq<OrderData>>,
    bids: Seq<Seq<OrderData>>,
    s: RebuildView,
) -> bool {
    &&& 0 <= s.next_row <= rows.len()
    &&& s.books.len() == s.next_row
    &&& forall|i: int|
        0 <= i < s.next_row ==> {
            &&& (#[trigger] s.books[i]).0 == Some(rows[i].id)
            &&& s.books[i].1 == rows[i].timestamp
            &&& same_levels(s.books[i].2, asks[i])
            &&& same_levels(s.books[i].3, bids[i])
            &&& distinct_prices(s.books[i].2)
            &&& distinct_prices(s.books[i].3)
        }
    &&& s.next_row > 0 ==> distinct_prices(s.cur_asks) && same_levels(s.cur_asks, asks[s.next_row - 1])
    &&& s.next_row > 0 ==> distinct_prices(s.cur_bids) && same_levels(s.cur_bids, bids[s.next_row - 1])
}

proof fn lemma_rebuild_books(
    rows: Seq<StoredRow>,
    asks: Seq<Seq<OrderData>>,
    bids: Seq<Seq<OrderData>>,
    prices: Map<i32, Dec>,
    s: RebuildView,
)
    requires
        rows_store_books(rows, asks, bids, prices),
        forall|i: int| 0 <= i < rows.len() ==> distinct_prices(#[trigger] asks[i]),
        forall|i: int| 0 <= i < rows.len() ==> distinct_prices(#[trigger] bids[i]),
        forall|i: int| 0 <= i < rows.len() ==> #[trigger] asks[i].len() > 0 || bids[i].len() > 0,
        rebuilt_so_far(rows, asks, bids, s),
        s.asks_of_row is None,
    ensures
        rebuild_run(rows, QueryAsksOrBids::BOTH, prices, s).1,
        rebuilt_so_far(rows, asks, bids, rebuild_run(rows, QueryAsksOrBids::BOTH, prices, s).0),
        rebuild_run(rows, QueryAsksOrBids::BOTH, prices, s).0.next_row == rows.len(),
    decreases rows.len() - s.next_row,
{
    let ab = QueryAsksOrBids::BOTH;
    if s.next_row < rows.len() {
        let k = s.next_row;
        let row = rows[k];
        assert(stores_side(row.asks, asks, k, prices));
        assert(stores_side(row.bids, bids, k, prices));
        lemma_side_step_levels(row.asks, asks, k, s.cur_asks, prices);
        lemma_side_step_levels(row.bids, bids, k, s.cur_bids, prices);
        let t1 = rebuild_step(rows, ab, prices, s).unwrap();
        let t2 = rebuild_step(rows, ab, prices, t1).unwrap();
        let new_asks = t1.asks_of_row.unwrap();
        let new_bids = t2.cur_bids;
        lemma_same_levels_len(new_asks, asks[k]);
        lemma_same_levels_len(new_bids, bids[k]);
        assert(asks[k].len() > 0 || bids[k].len() > 0);
        assert(t2.books == s.books.push((Some(row.id), row.timestamp, new_asks, new_bids)));
        assert(rebuilt_so_far(rows, asks, bids, t2)) by {
            assert forall|i: int| 0 <= i < t2.next_row implies {
                &&& (#[trigger] t2.books[i]).0 == Some(rows[i].id)
                &&& t2.books[i].1 == rows[i].timestamp
                &&& same_levels(t2.books[i].2, asks[i])
                &&& same_levels(t2.books[i].3, bids[i])
                &&& distinct_prices(t2.books[i].2)
                &&& distinct_prices(t2.books[i].3)
            } by {
                if i < k {
                    assert(t2.books[i] == s.books[i]);
                }
            }
        }
        assert(rebuild_run(rows, ab, prices, t1) == rebuild_run(rows, ab, prices, t2));
        lemma_rebuild_books(rows, asks, bids, prices, t2);
    }
}

/// Whether rebuilding the rows from the start goes through every row and gives back
/// one book per row, in order, with the row's id and time and the levels of the sides
/// `asks` and `bids`.
pub open spec fn reads_back_books(
    rows: Seq<StoredRow>,
    asks: Seq<Seq<OrderData>>,
    bids: Seq<Seq<OrderData>>,
    prices: Map<i32, Dec>,
) -> bool {
    let (s, done) = rebuild_run(
        rows,
        QueryAsksOrBids::BOTH,
        prices,
        RebuildView {
            next_row: 0,
            asks_of_row: None,
            cur_asks: Seq::empty(),
            cur_bids: Seq::empty(),
            books: Seq::empty(),
        },
    );
    &&& done
    &&& s.books.len() == rows.len()
    &&& forall|i: int|
        0 <= i < rows.len() ==> {
            &&& (#[trigger] s.books[i]).0 == Some(rows[i].id)
            &&& s.books[i].1 == rows[i].timestamp
            &&& same_levels(s.books[i].2, asks[i])
            &&& same_levels(s.books[i].3, bids[i])
        }
}

/// The law of the store: order books whose sides the rows hold whole or as delta levels
/// (`rows_store_books`), each with a level on some side and no repeated price on a side,
/// are read back by the rebuilding in full: every row is done, and the books come back
/// in order, with the rows' ids and times and exactly the levels of the books' sides.
pub proof fn law_store_reads_back_books(
    rows: Seq<StoredRow>,
    asks: Seq<Seq<OrderData>>,
    bids: Seq<Seq<OrderData>>,
    prices: Map<i32, Dec>,
)
    requires
        rows_store_books(rows, asks, bids, prices),
        forall|i: int| 0 <= i < rows.len() ==> distinct_prices(#[trigger] asks[i]),
        forall|i: int| 0 <= i < rows.len() ==> distinct_prices(#[trigger] bids[i]),
        forall|i: int| 0 <= i < rows.len() ==> #[trigger] asks[i].len() > 0 || bids[i].len() > 0,
    ensures
        reads_back_books(rows, asks, bids, prices),
{
    let start = RebuildView {
        next_row: 0,
        asks_of_row: None,
        cur_asks: Seq::empty(),
        cur_bids: Seq::empty(),
        books: Seq::empty(),
    };
    lemma_rebuild_books(rows, asks, bids, prices, start);
}

/// The law of the listeners and the store: order books that a listener writes (each
/// side whole, or as the delta from the book before, with its prices stored as ids the
/// dictionary resolves), each with a level on some side, no repeated price and no level
/// of size zero, are read back by the rebuilding in full, with exactly their levels.
pub proof fn law_listened_books_read_back(
    rows: Seq<StoredRow>,
    asks: Seq<Seq<OrderData>>,
    bids: Seq<Seq<OrderData>>,
    prices: Map<i32, Dec>,
)
    requires
        rows.len() == asks.len() == bids.len(),
        forall|i: int|
            0 <= i < rows.len() ==> #[trigger] listener_stores_side(rows[i].asks, asks, i, prices),
        forall|i: int|
            0 <= i < rows.len() ==> #[trigger] listener_stores_side(rows[i].bids, bids, i, prices),
        forall|i: int| 0 <= i < rows.len() ==> proper_side(#[trigger] asks[i]),
        forall|i: int| 0 <= i < rows.len() ==> proper_side(#[trigger] bids[i]),
        forall|i: int| 0 <= i < rows.len() ==> #[trigger] asks[i].len() > 0 || bids[i].len() > 0,
    ensures
        reads_back_books(rows, asks, bids, prices),
{
    assert forall|i: int| 0 <= i < rows.len() implies #[trigger] stores_side(
        rows[i].asks,
        asks,
        i,
        prices,
    ) by {
        lemma_listener_side(rows[i].asks, asks, i, prices);
    }
    assert forall|i: int| 0 <= i < rows.len() implies #[trigger] stores_side(
        rows[i].bids,
        bids,
        i,
        prices,
    ) by {
        lemma_listener_side(rows[i].bids, bids, i, prices);
    }
    assert forall|i: int| 0 <= i < rows.len() implies distinct_prices(#[trigger] asks[i]) by {
        assert(proper_side(asks[i]));
    }
    assert forall|i: int| 0 <= i < rows.len() implies distinct_prices(#[trigger] bids[i]) by {
        assert(proper_side(bids[i]));
    }
    law_store_reads_back_books(rows, asks, bids, prices);
}

proof fn lemma_listener_side(stored: StoredSide, sides: Seq<Seq<OrderData>>, i: int, prices: Map<i32, Dec>)
    requires
        0 <= i < sides.len(),
        listener_stores_side(stored, sides, i, prices),
        forall|j: int| 0 <= j < sides.len() ==> proper_side(#[trigger] sides[j]),
    ensures
        stores_side(stored, sides, i, prices),
{
    if stored is Delta {
        assert(proper_side(sides[i - 1]) && proper_side(sides[i]));
        law_delta_rebuilds_side(sides[i - 1], sides[i]);
    }
}

impl OrderBooksRebuild {
    /// The start of a rebuilding: the first row, no books, empty current sides.
    pub fn new() -> (r: OrderBooksRebuild)
        ensures
            r@ == (RebuildView {
                next_row: 0,
                asks_of_row: None,
                cur_asks: Seq::empty(),
                cur_bids: Seq::empty(),
                books: Seq::empty(),
            }),
    {
        let r = OrderBooksRebuild {
            next_row: 0,
            asks_of_row: None,
            cur_asks: Vec::new(),
            cur_bids: Vec::new(),
            books: Vec::new(),
        };
        assert(r@.books =~= Seq::empty());
        r
    }
}

/// One step of the rebuilding (see `rebuild_step`).
fn rebuild_one_step(
    rows: &[StoredRow],
    ab: QueryAsksOrBids,
    prices_map: &HashMap<i32, Dec>,
    state: &mut OrderBooksRebuild,
) -> (ok: bool)
    requires
        old(state).next_row < rows@.len(),
    ensures
        match rebuild_step(rows@, ab, prices_map@, old(state)@) {
            Some(t) => ok && final(state)@ == t,
            None => !ok && final(state)@ == old(state)@,
        },
{
    let row = &rows[state.next_row];
    if state.asks_of_row.is_none() {
        if ab.is_asks() {
            match rebuild_side(&row.asks, &mut state.cur_asks, prices_map) {
                SideStep::Side(side) => {
                    state.asks_of_row = Some(side);
                    assert(state@.books =~= old(state)@.books);
                    assert(side_step(row.asks, old(state)@.cur_asks, prices_map@) == Some(
                        (state@.cur_asks, side@),
                    ));
                    true
                },
                SideStep::NeedPrices => {
                    assert(state@.books =~= old(state)@.books);
                    assert(state@ == old(state)@);
                    false
                },
            }
        } else {
            state.asks_of_row = Some(Vec::new());
            assert(state@.books =~= old(state)@.books);
            assert(rebuild_step(rows@, ab, prices_map@, old(state)@) == Some(state@));
            true
        }
    } else {
        let mut bids: Vec<OrderData> = Vec::new();
        if ab.is_bids() {
            match rebuild_side(&row.bids, &mut state.cur_bids, prices_map) {
                SideStep::Side(side) => {
                    bids = side;
                },
                SideStep::NeedPrices => {
                    assert(state@.books =~= old(state)@.books);
                    assert(state@ == old(state)@);
                    return false;
                },
            }
        }
        let ghost bids_step = if ab is ASKS {
            Some((old(state)@.cur_bids, Seq::<OrderData>::empty()))
        } else {
            side_step(row.bids, old(state)@.cur_bids, prices_map@)
        };
        assert(bids_step == Some((state@.cur_bids, bids@)));
        let asks = match state.asks_of_row.take() {
            Some(a) => a,
            None => Vec::new(),
        };
        assert(old(state)@.asks_of_row == Some(asks@));
        let ghost old_books = state.books@;
        assert(old_books.map_values(|b: OrderBook| book_view(b)) == old(state)@.books);
        if asks.len() > 0 || bids.len() > 0 {
            let book = OrderBook { id: Some(row.id), timestamp: row.timestamp, asks, bids };
            state.books.push(book);
            assert(state.books@.map_values(|b: OrderBook| book_view(b)) =~= old_books.map_values(
                |b: OrderBook| book_view(b),
            ).push(book_view(book)));
        } else {
            assert(state@.books =~= old(state)@.books);
        }
        state.next_row = state.next_row + 1;
        assert(rebuild_step(rows@, ab, prices_map@, old(state)@) == Some(state@));
        true
    }
}

/// Rebuilds the order books of a query's rows, in order, going on from `state` with the
/// price dictionary `prices_map` (see `rebuild_run`).  Returns true once every row is
/// done; false where a row's delta names a price id the dictionary lacks, with `state`
/// at that step: reload the dictionary and call again.
pub fn rebuild_order_books(
    rows: &[StoredRow],
    ab: QueryAsksOrBids,
    prices_map: &HashMap<i32, Dec>,
    state: &mut OrderBooksRebuild,
) -> (done: bool)
    ensures
        (final(state)@, done) == rebuild_run(rows@, ab, prices_map@, old(state)@),
{
    while state.next_row < rows.len()
        invariant
            rebuild_run(rows@, ab, prices_map@, state@) == rebuild_run(
                rows@,
                ab,
                prices_map@,
                old(state)@,
            ),
        decreases steps_left(rows@, state@),
    {
        let ghost before = state@;
        if !rebuild_one_step(rows, ab, prices_map, state) {
            return false;
        }
        assert(rebuild_run(rows@, ab, prices_map@, before) == rebuild_run(
            rows@,
            ab,
            prices_map@,
            state@,
        ));
    }
    true
}

} // verus!
