//! The decisions of the market-data listeners: whether an incoming order book goes out
//! whole or as a delta from the previous one, how a stored order book takes a delta and
//! when it is saved whole again, and how an exchange message becomes an event.
use crate::book_delta::{
    apply_deltas, calculate_delta, delta_spec, distinct_prices, handle_delta, has_level,
    law_delta_rebuilds_side,
};
use crate::clock::{floor_micros, micros, trunc_div, trunc_div_i64};
use crate::decimal::{Dec, dec_parse, decimal_from_text};
use crate::events::{copy_levels, copy_order_book};
use crate::model::{
    Instrument, OrderBook, OrderBookDeltaEvent, OrderBookEvent, OrderData, first_with_symbol,
    symbol_index,
};
use vstd::prelude::*;
use vstd::string::{StrSliceExecFns, StringExecFns};

verus! {

/// What a listener sends for an incoming order book.
#[derive(Clone, Debug)]
pub enum FeedEvent {
    /// The whole order book.
    Full(OrderBookEvent),
    /// The changes from the previous order book.
    Delta(OrderBookDeltaEvent),
}

/// Whether an incoming order book goes out whole: there is no previous one, or the
/// previous one has an empty side.
pub open spec fn needs_full(prev: Option<OrderBook>) -> bool {
    match prev {
        Some(p) => p.asks@.len() == 0 || p.bids@.len() == 0,
        None => true,
    }
}

/// The order book a listener kept, if any.
pub open spec fn kept(prev: Option<&OrderBook>) -> Option<OrderBook> {
    match prev {
        Some(p) => Some(*p),
        None => None,
    }
}

/// What a listener sends for a new order book of an instrument, given the previous one
/// it kept: the whole book where `needs_full`, else the delta of each side from the
/// previous book, with the new book's time.
pub fn order_book_event(prev: Option<&OrderBook>, new: &OrderBook, instrument_id: i16) -> (r:
    FeedEvent)
    ensures
        needs_full(kept(prev)) ==> (r matches FeedEvent::Full(e) && e.instrument_id == instrument_id
            && e.order_book@ == new@),
        !needs_full(kept(prev)) ==> (r matches FeedEvent::Delta(e) && e.instrument_id
            == instrument_id && e.timestamp == new.timestamp && e.asks@ == delta_spec(
            prev.unwrap().asks@,
            new.asks@,
        ) && e.bids@ == delta_spec(prev.unwrap().bids@, new.bids@)),
{
    match prev {
        Some(p) => {
            if p.asks.len() == 0 || p.bids.len() == 0 {
                FeedEvent::Full(OrderBookEvent { instrument_id, order_book: copy_order_book(new) })
            } else {
                FeedEvent::Delta(
                    OrderBookDeltaEvent {
                        instrument_id,
                        timestamp: new.timestamp,
                        asks: calculate_delta(&p.asks, new.asks.as_slice()),
                        bids: calculate_delta(&p.bids, new.bids.as_slice()),
                    },
                )
            }
        },
        None => FeedEvent::Full(OrderBookEvent { instrument_id, order_book: copy_order_book(new) }),
    }
}

/// The length of the interval at which a stored order book is saved whole, in
/// microseconds: ten minutes.
pub const FULL_ORDER_BOOK_QUANT_MICROS: i64 = 600_000_000;

/// The interval a time falls in: its microseconds divided by the interval length,
/// rounded toward zero.
pub open spec fn full_quant(ts: int) -> int {
    trunc_div(micros(ts), FULL_ORDER_BOOK_QUANT_MICROS as int)
}

/// Applies a delta event to the stored order book of its instrument: the book takes the
/// event's time and each side takes the event's levels.  Returns whether the book is
/// now to be saved whole: its time has moved into a later ten-minute interval.
pub fn apply_delta_event(order_book: &mut OrderBook, event: &OrderBookDeltaEvent) -> (save_full:
    bool)
    ensures
        final(order_book).id == old(order_book).id,
        final(order_book).timestamp == event.timestamp,
        final(order_book).asks@ == apply_deltas(old(order_book).asks@, event.asks@),
        final(order_book).bids@ == apply_deltas(old(order_book).bids@, event.bids@),
        save_full == (full_quant(event.timestamp as int) > full_quant(old(order_book).timestamp as int)),
{
    let prev_quant = trunc_div_i64(floor_micros(order_book.timestamp), FULL_ORDER_BOOK_QUANT_MICROS);
    order_book.timestamp = event.timestamp;
    handle_delta(event.asks.as_slice(), &mut order_book.asks);
    handle_delta(event.bids.as_slice(), &mut order_book.bids);
    let cur_quant = trunc_div_i64(floor_micros(order_book.timestamp), FULL_ORDER_BOOK_QUANT_MICROS);
    cur_quant > prev_quant
}

/// Why an exchange message could not become an event.
#[derive(Clone, Debug, PartialEq, Eq)]
pub enum FeedError {
    /// No instrument has the message's symbol.
    UnknownInstrument(String),
    /// The instrument with the message's symbol has no id.
    MissingId(usize),
    /// A level is not a pair of decimal numbers.
    BadLevel,
}

/// A level given as texts, by the views of its price and size: the first two texts
/// read as decimals.
pub open spec fn text_level(item: Seq<Seq<char>>) -> Option<((int, int), (int, int))> {
    if item.len() < 2 {
        None
    } else {
        match (decimal_from_text(item[0]), decimal_from_text(item[1])) {
            (Some(p), Some(s)) => Some((p, s)),
            _ => None,
        }
    }
}

/// The views of the texts of a level.
pub open spec fn item_texts(item: Vec<String>) -> Seq<Seq<char>> {
    item@.map_values(|s: String| s@)
}

/// Whether every level of the list reads as a pair of decimals.
pub open spec fn text_levels_defined(items: Seq<Vec<String>>) -> bool {
    forall|i: int| 0 <= i < items.len() ==> #[trigger] text_level(item_texts(items[i])) is Some
}

/// The levels that a list of texts reads as, by views.
pub open spec fn text_levels(items: Seq<Vec<String>>) -> Seq<((int, int), (int, int))> {
    items.map_values(|it: Vec<String>| text_level(item_texts(it)).unwrap())
}

/// The levels by the views of their prices and sizes.
pub open spec fn level_views(v: Seq<OrderData>) -> Seq<((int, int), (int, int))> {
    v.map_values(|d: OrderData| (d.price@, d.size@))
}

/// Reads levels given as texts (price, then size) into order-book levels, in order.
/// `None` where a level has fewer than two texts or a text is not a decimal.
pub fn parse_levels(items: &Vec<Vec<String>>) -> (r: Option<Vec<OrderData>>)
    ensures
        r is None <==> !text_levels_defined(items@),
        r matches Some(v) ==> v@.len() == items@.len() && forall|i: int|
            0 <= i < items@.len() ==> Some(#[trigger] level_views(v@)[i]) == text_level(
                item_texts(items@[i]),
            ),
{
    let mut levels: Vec<OrderData> = Vec::new();
    let mut i: usize = 0;
    while i < items.len()
        invariant
            i <= items@.len(),
            levels@.len() == i,
            forall|j: int| 0 <= j < i ==> #[trigger] text_level(item_texts(items@[j])) is Some,
            forall|j: int|
                0 <= j < i ==> Some(#[trigger] level_views(levels@)[j]) == text_level(
                    item_texts(items@[j]),
                ),
        decreases items@.len() - i,
    {
        let item = &items[i];
        let ghost texts = item_texts(*item);
        assert(items@[i as int] == *item);
        if item.len() < 2 {
            assert(text_level(item_texts(items@[i as int])) is None);
            assert(!text_levels_defined(items@));
            return None;
        }
        assert(texts[0] == item@[0]@ && texts[1] == item@[1]@);
        let price = dec_parse(item[0].as_str());
        let size = dec_parse(item[1].as_str());
        let ghost old_levels = levels@;
        match (price, size) {
            (Some(p), Some(s)) => {
                levels.push(OrderData { price: p, size: s });
                assert(level_views(levels@) =~= level_views(old_levels).push((p@, s@)));
            },
            _ => {
                assert(text_level(item_texts(items@[i as int])) is None);
                assert(!text_levels_defined(items@));
                return None;
            },
        }
        assert(level_views(levels@)[i as int] == (levels@[i as int].price@, levels@[i as int].size@));
        i = i + 1;
    }
    Some(levels)
}

/// The event of an exchange message about the order book of `symbol`, of kind
/// "snapshot" (the whole book) or "delta" (the changed levels); other kinds give no
/// event.  The instrument is the first with that symbol, and it must have an id.
pub fn exchange_event(
    instruments: &[Instrument],
    symbol: &str,
    kind: &str,
    timestamp: i64,
    asks: &Vec<Vec<String>>,
    bids: &Vec<Vec<String>>,
) -> (r: Result<Option<FeedEvent>, FeedError>)
    ensures
        (forall|i: int| 0 <= i < instruments@.len() ==> #[trigger] instruments@[i].symbol@ != symbol@)
            ==> (r matches Err(FeedError::UnknownInstrument(s)) && s@ == symbol@),
        forall|k: int| #[trigger]
            first_with_symbol(instruments@, symbol@, k) ==> {
                &&& instruments@[k].id is None ==> r == Err::<Option<FeedEvent>, FeedError>(
                    FeedError::MissingId(k as usize),
                )
                &&& instruments@[k].id matches Some(id) ==> {
                    &&& kind@ == "snapshot"@ ==> if text_levels_defined(asks@) && text_levels_defined(
                        bids@,
                    ) {
                        r matches Ok(Some(FeedEvent::Full(e))) && e.instrument_id == id
                            && e.order_book.id is None && e.order_book.timestamp == timestamp
                            && level_views(e.order_book.asks@) == text_levels(asks@) && level_views(e.order_book.bids@) == text_levels(bids@)
                    } else {
                        r == Err::<Option<FeedEvent>, FeedError>(FeedError::BadLevel)
                    }
                    &&& kind@ == "delta"@ ==> if text_levels_defined(asks@) && text_levels_defined(
                        bids@,
                    ) {
                        r matches Ok(Some(FeedEvent::Delta(e))) && e.instrument_id == id
                            && e.timestamp == timestamp && level_views(e.asks@) == text_levels(asks@) && level_views(e.bids@) == text_levels(bids@)
                    } else {
                        r == Err::<Option<FeedEvent>, FeedError>(FeedError::BadLevel)
                    }
                    &&& kind@ != "snapshot"@ && kind@ != "delta"@ ==> r == Ok::<
                        Option<FeedEvent>,
                        FeedError,
                    >(None)
                }
            },
{
    let i = match symbol_index(instruments, symbol) {
        Some(k) => k,
        None => {
            return Err(FeedError::UnknownInstrument(String::from_str(symbol)));
        },
    };
    assert forall|k: int| #[trigger] first_with_symbol(instruments@, symbol@, k) implies k
        == i by {
        assert(first_with_symbol(instruments@, symbol@, i as int));
    }
    let id = match instruments[i].id {
        Some(x) => x,
        None => {
            return Err(FeedError::MissingId(i));
        },
    };
    proof {
        reveal_strlit("snapshot");
        reveal_strlit("delta");
    }
    let snapshot = String::from_str("snapshot");
    let delta = String::from_str("delta");
    let kind_text = String::from_str(kind);
    let is_snapshot = kind_text == snapshot;
    let is_delta = kind_text == delta;
    if !is_snapshot && !is_delta {
        return Ok(None);
    }
    let ask_levels = match parse_levels(asks) {
        Some(v) => v,
        None => {
            return Err(FeedError::BadLevel);
        },
    };
    let bid_levels = match parse_levels(bids) {
        Some(v) => v,
        None => {
            return Err(FeedError::BadLevel);
        },
    };
    assert(level_views(ask_levels@) =~= text_levels(asks@));
    assert(level_views(bid_levels@) =~= text_levels(bids@));
    if is_snapshot {
        assert("snapshot"@.len() == 8 && "delta"@.len() == 5);
        assert(kind@ != "delta"@);
        Ok(
            Some(
                FeedEvent::Full(
                    OrderBookEvent {
                        instrument_id: id,
                        order_book: OrderBook {
                            id: None,
                            timestamp,
                            asks: ask_levels,
                            bids: bid_levels,
                        },
                    },
                ),
            ),
        )
    } else {
        Ok(
            Some(
                FeedEvent::Delta(
                    OrderBookDeltaEvent {
                        instrument_id: id,
                        timestamp,
                        asks: ask_levels,
                        bids: bid_levels,
                    },
                ),
            ),
        )
    }
}

/// The topic of an instrument's order book on the exchange stream: "orderbook.50." and
/// its symbol.
pub open spec fn order_book_topic(symbol: Seq<char>) -> Seq<char> {
    "orderbook.50."@ + symbol
}

/// The topics to subscribe to: one per instrument, in order.
pub fn subscription_topics(instruments: &[Instrument]) -> (r: Vec<String>)
    ensures
        r@.len() == instruments@.len(),
        forall|i: int|
            0 <= i < instruments@.len() ==> (#[trigger] r@[i])@ == order_book_topic(
                instruments@[i].symbol@,
            ),
{
    let mut r: Vec<String> = Vec::new();
    let mut i: usize = 0;
    while i < instruments.len()
        invariant
            i <= instruments@.len(),
            r@.len() == i,
            forall|j: int|
                0 <= j < i ==> (#[trigger] r@[j])@ == order_book_topic(instruments@[j].symbol@),
        decreases instruments@.len() - i,
    {
        let mut topic = String::from_str("orderbook.50.");
        topic.append(instruments[i].symbol.as_str());
        r.push(topic);
        i = i + 1;
    }
    r
}

/// The law of the listeners: the delta event a listener sends for a new order book, once
/// the stored copy of the previous book takes it, leaves that copy with exactly the new
/// book's levels on each side, and with its time.  This holds where neither book repeats
/// a price on a side, the new one has no level of size zero, and the previous one has
/// both sides (else the listener sends the whole book).
pub proof fn law_listener_delta_rebuilds_book(prev: OrderBook, new: OrderBook, instrument_id: i16)
    requires
        distinct_prices(prev.asks@),
        distinct_prices(prev.bids@),
        distinct_prices(new.asks@),
        distinct_prices(new.bids@),
        forall|i: int| 0 <= i < new.asks@.len() ==> (#[trigger] new.asks@[i]).size@.0 != 0,
        forall|i: int| 0 <= i < new.bids@.len() ==> (#[trigger] new.bids@[i]).size@.0 != 0,
        !needs_full(Some(prev)),
    ensures
        forall|x: int, v: int|
            #[trigger] has_level(apply_deltas(prev.asks@, delta_spec(prev.asks@, new.asks@)), x, v)
                <==> has_level(new.asks@, x, v),
        forall|x: int, v: int|
            #[trigger] has_level(apply_deltas(prev.bids@, delta_spec(prev.bids@, new.bids@)), x, v)
                <==> has_level(new.bids@, x, v),
        distinct_prices(apply_deltas(prev.asks@, delta_spec(prev.asks@, new.asks@))),
        distinct_prices(apply_deltas(prev.bids@, delta_spec(prev.bids@, new.bids@))),
{
    law_delta_rebuilds_side(prev.asks@, new.asks@);
    law_delta_rebuilds_side(prev.bids@, new.bids@);
}

/// The cursor of the next page of the exchange's instrument list: the one a response
/// names, unless it is empty (the last page).
pub fn next_page_cursor(cursor: Option<String>) -> (r: Option<String>)
    ensures
        match cursor {
            Some(c) => if c@.len() == 0 {
                r is None
            } else {
                r matches Some(x) && x@ == c@
            },
            None => r is None,
        },
{
    match cursor {
        Some(c) => if c.as_str().unicode_len() == 0 {
            None
        } else {
            Some(c)
        },
        None => None,
    }
}

} // verus!
