//! The bookkeeping of the order-book store: which sides a query reads, the codes of the
//! dictionary tables, and rebuilding the sides of stored order books from full snapshots
//! and stored deltas (whose prices are kept as ids of a price dictionary).
use crate::book_delta::{apply_deltas, handle_delta};
use crate::decimal::Dec;
use crate::clock::{floor_millis, millis};
use crate::model::{OrderBook, OrderData, OrderDataDelta, TimeDiapason};
use crate::text::{int_text, push_i64};
use vstd::string::StringExecFns;
use std::collections::HashMap;
use vstd::prelude::*;

verus! {

broadcast use vstd::std_specs::hash::group_hash_axioms;

/// Which sides of the order books a query reads.
#[derive(Clone, Copy, Debug, PartialEq, Eq, Structural)]
pub enum QueryAsksOrBids {
    ASKS,
    BIDS,
    BOTH,
}

impl QueryAsksOrBids {
    /// Whether the asks are read.
    pub fn is_asks(&self) -> (r: bool)
        ensures
            r == !(*self is BIDS),
    {
        match self {
            QueryAsksOrBids::ASKS => true,
            QueryAsksOrBids::BIDS => false,
            QueryAsksOrBids::BOTH => true,
        }
    }

    /// Whether the bids are read.
    pub fn is_bids(&self) -> (r: bool)
        ensures
            r == !(*self is ASKS),
    {
        match self {
            QueryAsksOrBids::ASKS => false,
            QueryAsksOrBids::BIDS => true,
            QueryAsksOrBids::BOTH => true,
        }
    }
}

/// The largest code of a dictionary table, if it has any.
pub open spec fn max_code(codes: Seq<i16>) -> Option<i16>
    decreases codes.len(),
{
    if codes.len() == 0 {
        None
    } else {
        match max_code(codes.drop_last()) {
            None => Some(codes.last()),
            Some(m) => if m < codes.last() {
                Some(codes.last())
            } else {
                Some(m)
            },
        }
    }
}

proof fn lemma_max_code(codes: Seq<i16>)
    ensures
        max_code(codes) is None <==> codes.len() == 0,
        max_code(codes) matches Some(m) ==> (exists|i: int| 0 <= i < codes.len() && codes[i] == m)
            && forall|i: int| 0 <= i < codes.len() ==> codes[i] <= m,
    decreases codes.len(),
{
    if codes.len() > 0 {
        let c = codes.drop_last();
        lemma_max_code(c);
        match max_code(c) {
            None => {
                assert(codes[codes.len() - 1] == codes.last());
            },
            Some(m) => {
                let i = choose|i: int| 0 <= i < c.len() && c[i] == m;
                assert(codes[i] == c[i]);
                assert(codes[codes.len() - 1] == codes.last());
                assert forall|j: int| 0 <= j < codes.len() implies codes[j] <= max_code(codes).unwrap() by {
                    if j < c.len() {
                        assert(codes[j] == c[j]);
                    }
                }
            },
        }
    }
}

/// The code for a new value of a dictionary table: one more than the largest code, or 0
/// for an empty table.
pub fn new_dictionary_code(codes: &[i16]) -> (r: i16)
    requires
        forall|i: int| 0 <= i < codes@.len() ==> codes@[i] < i16::MAX,
    ensures
        r == match max_code(codes@) {
            Some(m) => m + 1,
            None => 0,
        },
        forall|i: int| 0 <= i < codes@.len() ==> codes@[i] < r,
{
    proof {
        lemma_max_code(codes@);
    }
    let mut max: Option<i16> = None;
    let mut i: usize = 0;
    assert(codes@.take(0) =~= Seq::<i16>::empty());
    while i < codes.len()
        invariant
            i <= codes@.len(),
            max == max_code(codes@.take(i as int)),
        decreases codes@.len() - i,
    {
        assert(codes@.take(i + 1).drop_last() =~= codes@.take(i as int));
        max = match max {
            None => Some(codes[i]),
            Some(m) => if m < codes[i] {
                Some(codes[i])
            } else {
                Some(m)
            },
        };
        i = i + 1;
    }
    assert(codes@.take(codes@.len() as int) =~= codes@);
    match max {
        Some(m) => {
            proof {
                let k = choose|k: int| 0 <= k < codes@.len() && codes@[k] == m;
            }
            m + 1
        },
        None => 0,
    }
}

/// The code of a value in a dictionary table.
#[derive(Clone, Copy, Debug, PartialEq, Eq, Structural)]
pub enum DictionaryCode {
    /// The value has this code already.
    Existing(i16),
    /// The value is new; it gets this code.
    New(i16),
}

/// The code of `value` in a dictionary table given as (name, code) entries: the code of
/// the first entry with that name, or else a new code, one more than the largest code
/// (0 for an empty table).
pub fn dictionary_code(entries: &[(String, i16)], value: &str) -> (r: DictionaryCode)
    requires
        forall|i: int| 0 <= i < entries@.len() ==> entries@[i].1 < i16::MAX,
    ensures
        match r {
            DictionaryCode::Existing(code) => exists|i: int|
                0 <= i < entries@.len() && entries@[i].0@ == value@ && entries@[i].1 == code && forall|
                    j: int,
                | 0 <= j < i ==> entries@[j].0@ != value@,
            DictionaryCode::New(code) => (forall|i: int|
                0 <= i < entries@.len() ==> entries@[i].0@ != value@) && code == match max_code(
                entries@.map_values(|e: (String, i16)| e.1),
            ) {
                Some(m) => m + 1,
                None => 0,
            },
        },
{
    let wanted = value.to_owned();
    let mut codes: Vec<i16> = Vec::new();
    let mut i: usize = 0;
    while i < entries.len()
        invariant
            i <= entries@.len(),
            wanted@ == value@,
            codes@ == entries@.take(i as int).map_values(|e: (String, i16)| e.1),
            forall|j: int| 0 <= j < i ==> entries@[j].0@ != value@,
        decreases entries@.len() - i,
    {
        if entries[i].0 == wanted {
            return DictionaryCode::Existing(entries[i].1);
        }
        codes.push(entries[i].1);
        assert(codes@ =~= entries@.take(i + 1).map_values(|e: (String, i16)| e.1));
        i = i + 1;
    }
    assert(entries@.take(entries@.len() as int) =~= entries@);
    DictionaryCode::New(new_dictionary_code(codes.as_slice()))
}

/// The stored delta levels with their price ids replaced by the prices; `None` where an
/// id is not in the dictionary.
pub open spec fn resolve_prices(deltas: Seq<OrderDataDelta>, prices: Map<i32, Dec>) -> Option<
    Seq<OrderData>,
>
    decreases deltas.len(),
{
    if deltas.len() == 0 {
        Some(Seq::empty())
    } else {
        match resolve_prices(deltas.drop_last(), prices) {
            None => None,
            Some(s) => if prices.contains_key(deltas.last().price_id) {
                Some(s.push(OrderData { price: prices[deltas.last().price_id], size: deltas.last().size }))
            } else {
                None
            },
        }
    }
}

proof fn lemma_resolve_none(deltas: Seq<OrderDataDelta>, prices: Map<i32, Dec>, i: int)
    requires
        0 <= i <= deltas.len(),
        resolve_prices(deltas.take(i), prices) is None,
    ensures
        resolve_prices(deltas, prices) is None,
    decreases deltas.len() - i,
{
    if i < deltas.len() {
        assert(deltas.take(i + 1).drop_last() =~= deltas.take(i));
        lemma_resolve_none(deltas, prices, i + 1);
    } else {
        assert(deltas.take(i) =~= deltas);
    }
}

/// Replaces the price ids of stored delta levels by their prices.
pub fn resolve_price_ids(deltas: &[OrderDataDelta], prices_map: &HashMap<i32, Dec>) -> (r: Option<
    Vec<OrderData>,
>)
    ensures
        match resolve_prices(deltas@, prices_map@) {
            Some(s) => r matches Some(v) && v@ == s,
            None => r is None,
        },
{
    let mut result: Vec<OrderData> = Vec::new();
    let mut i: usize = 0;
    assert(deltas@.take(0) =~= Seq::<OrderDataDelta>::empty());
    while i < deltas.len()
        invariant
            i <= deltas@.len(),
            resolve_prices(deltas@.take(i as int), prices_map@) == Some(result@),
        decreases deltas@.len() - i,
    {
        assert(deltas@.take(i + 1).drop_last() =~= deltas@.take(i as int));
        let delta = deltas[i];
        match prices_map.get(&delta.price_id) {
            Some(price) => {
                result.push(OrderData { price: *price, size: delta.size });
            },
            None => {
                proof {
                    lemma_resolve_none(deltas@, prices_map@, i + 1);
                }
                return None;
            },
        }
        i = i + 1;
    }
    assert(deltas@.take(deltas@.len() as int) =~= deltas@);
    Some(result)
}

/// Applies stored delta levels to one side.  Returns false, and leaves the side as it
/// is, where a price id is not in the dictionary (the dictionary must be reloaded).
pub fn handle_stored_delta(
    deltas: &[OrderDataDelta],
    cur_data: &mut Vec<OrderData>,
    prices_map: &HashMap<i32, Dec>,
) -> (ok: bool)
    ensures
        ok == resolve_prices(deltas@, prices_map@) is Some,
        ok ==> final(cur_data)@ == apply_deltas(
            old(cur_data)@,
            resolve_prices(deltas@, prices_map@).unwrap(),
        ),
        !ok ==> final(cur_data)@ == old(cur_data)@,
{
    match resolve_price_ids(deltas, prices_map) {
        Some(resolved) => {
            handle_delta(resolved.as_slice(), cur_data);
            true
        },
        None => false,
    }
}

/// What is stored for one side of one order book: a full snapshot, a delta to the
/// previous book, or nothing.
#[derive(Clone, Debug)]
pub enum StoredSide {
    Full(Vec<OrderData>),
    Delta(Vec<OrderDataDelta>),
    Missing,
}

/// The outcome of rebuilding one side of one order book.
#[derive(Clone, Debug)]
pub enum SideStep {
    /// The side of this order book.
    Side(Vec<OrderData>),
    /// A price id of the delta is not in the dictionary; reload it and try again.
    NeedPrices,
}

/// Rebuilds one side of the next stored order book from what is stored for it, keeping
/// the current side in `cur`: a full snapshot becomes the current side and the book's
/// side; a delta is applied to the current side, which becomes the book's side; nothing
/// stored gives an empty side and leaves the current side.
pub fn rebuild_side(stored: &StoredSide, cur: &mut Vec<OrderData>, prices_map: &HashMap<i32, Dec>) -> (r:
    SideStep)
    ensures
        match *stored {
            StoredSide::Full(v) => final(cur)@ == v@ && (r matches SideStep::Side(s) && s@ == v@),
            StoredSide::Delta(d) => match resolve_prices(d@, prices_map@) {
                Some(levels) => final(cur)@ == apply_deltas(old(cur)@, levels) && (r matches SideStep::Side(
                    s,
                ) && s@ == final(cur)@),
                None => final(cur)@ == old(cur)@ && r is NeedPrices,
            },
            StoredSide::Missing => final(cur)@ == old(cur)@ && (r matches SideStep::Side(s) && s@.len()
                == 0),
        },
{
    match stored {
        StoredSide::Full(levels) => {
            let copy = levels.clone();
            assert(copy@ =~= levels@);
            let copy2 = levels.clone();
            assert(copy2@ =~= levels@);
            *cur = copy;
            SideStep::Side(copy2)
        },
        StoredSide::Delta(deltas) => {
            if handle_stored_delta(deltas.as_slice(), cur, prices_map) {
                let side = cur.clone();
                assert(side@ =~= cur@);
                SideStep::Side(side)
            } else {
                SideStep::NeedPrices
            }
        },
        StoredSide::Missing => SideStep::Side(Vec::new()),
    }
}

/// The order book of a stored row, kept only where a side has a level.
pub fn assemble_order_book(id: i64, timestamp: i64, asks: Vec<OrderData>, bids: Vec<OrderData>) -> (r:
    Option<OrderBook>)
    ensures
        (asks@.len() > 0 || bids@.len() > 0) ==> (r matches Some(o) && o.id == Some(id) && o.timestamp
            == timestamp && o.asks@ == asks@ && o.bids@ == bids@),
        (asks@.len() == 0 && bids@.len() == 0) ==> r is None,
{
    if !asks.is_empty() || !bids.is_empty() {
        Some(OrderBook { id: Some(id), timestamp, asks, bids })
    } else {
        None
    }
}

/// Delta levels as they are stored: each price replaced by its id in the price
/// dictionary.
pub open spec fn stored_levels(levels: Seq<OrderData>, ids: Seq<i32>) -> Seq<OrderDataDelta> {
    Seq::new(levels.len(), |i: int| OrderDataDelta { price_id: ids[i], size: levels[i].size })
}

/// The law of the store: what is read back of a stored delta is what was stored.  Where
/// the price dictionary maps the id given to each level's price back to that price,
/// resolving the stored levels through it gives the levels themselves.
pub proof fn law_stored_delta_reads_back(levels: Seq<OrderData>, ids: Seq<i32>, prices: Map<i32, Dec>)
    requires
        ids.len() == levels.len(),
        forall|i: int|
            0 <= i < levels.len() ==> prices.contains_key(#[trigger] ids[i]) && prices[ids[i]]
                == levels[i].price,
    ensures
        resolve_prices(stored_levels(levels, ids), prices) == Some(levels),
    decreases levels.len(),
{
    if levels.len() > 0 {
        let n = levels.len() - 1;
        law_stored_delta_reads_back(levels.drop_last(), ids.drop_last(), prices);
        assert(stored_levels(levels, ids).drop_last() =~= stored_levels(
            levels.drop_last(),
            ids.drop_last(),
        ));
        assert(stored_levels(levels, ids).last() == OrderDataDelta {
            price_id: ids[n],
            size: levels[n].size,
        });
        assert(prices.contains_key(ids[n]));
        assert(levels.drop_last().push(OrderData { price: prices[ids[n]], size: levels[n].size })
            =~= levels);
    } else {
        assert(stored_levels(levels, ids) =~= Seq::<OrderDataDelta>::empty());
        assert(levels =~= Seq::<OrderData>::empty());
    }
}

/// The name of the file that caches the order books of an instrument over an interval:
/// in ".cache" (or ".cache_full" for full books), the instrument and the interval's ends
/// in milliseconds.
pub open spec fn cache_file_name_spec(instrument: Seq<char>, from_ms: int, to_ms: int, is_full: bool) -> Seq<
    char,
> {
    ".cache"@ + (if is_full {
        "_full"@
    } else {
        Seq::empty()
    }) + "/"@ + instrument + "_"@ + int_text(from_ms) + "_"@ + int_text(to_ms) + ".bin"@
}

/// The name of the file that caches the order books of an instrument over an interval.
pub fn cache_file_name(instrument: &str, diapason: TimeDiapason, is_full: bool) -> (r: String)
    ensures
        r@ == cache_file_name_spec(
            instrument@,
            millis(diapason.from as int),
            millis(diapason.to as int),
            is_full,
        ),
{
    let mut name = String::from_str(".cache");
    if is_full {
        name.append("_full");
    }
    name.append("/");
    name.append(instrument);
    name.append("_");
    push_i64(&mut name, floor_millis(diapason.from));
    name.append("_");
    push_i64(&mut name, floor_millis(diapason.to));
    name.append(".bin");
    proof {
        let e: Seq<char> = Seq::empty();
        assert(".cache"@ + e =~= ".cache"@);
    }
    name
}

} // verus!
