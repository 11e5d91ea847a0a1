//! The data of the order books and instruments.
//!
//! Times are whole nanoseconds since the Unix epoch (UTC).
use crate::decimal::Dec;
use vstd::prelude::*;
use vstd::string::StringExecFns;

verus! {

/// A traded instrument.
#[derive(Clone, Debug)]
pub struct Instrument {
    pub id: Option<i16>,
    pub symbol: String,
    pub status: String,
    pub base_coin: String,
    pub quote_coin: String,
}

/// One price level of an order book: a price and the size offered at it.
#[derive(Clone, Copy, Debug, PartialEq)]
pub struct OrderData {
    pub price: Dec,
    pub size: Dec,
}

impl Default for OrderData {
    fn default() -> (d: OrderData)
        ensures
            d.price@ == (0int, 0int),
            d.size@ == (0int, 0int),
    {
        OrderData { price: Dec::zero(), size: Dec::zero() }
    }
}

/// A snapshot of an order book.
#[derive(Clone, Debug)]
pub struct OrderBook {
    pub id: Option<i64>,
    /// Nanoseconds since the Unix epoch.
    pub timestamp: i64,
    pub asks: Vec<OrderData>,
    pub bids: Vec<OrderData>,
}

/// Whether instrument `i` of the list is the first with the given symbol.
pub open spec fn first_with_symbol(instruments: Seq<Instrument>, symbol: Seq<char>, i: int) -> bool {
    &&& 0 <= i < instruments.len()
    &&& instruments[i].symbol@ == symbol
    &&& forall|j: int| 0 <= j < i ==> #[trigger] instruments[j].symbol@ != symbol
}

/// The index of the first instrument whose symbol is `symbol`, where there is one.
pub fn symbol_index(instruments: &[Instrument], symbol: &str) -> (r: Option<usize>)
    ensures
        match r {
            Some(k) => first_with_symbol(instruments@, symbol@, k as int),
            None => forall|i: int|
                0 <= i < instruments@.len() ==> #[trigger] instruments@[i].symbol@ != symbol@,
        },
        forall|k: int, m: int|
            #[trigger] first_with_symbol(instruments@, symbol@, k) && #[trigger] first_with_symbol(
                instruments@,
                symbol@,
                m,
            ) ==> k == m,
{
    assert forall|k: int, m: int|
        #[trigger] first_with_symbol(instruments@, symbol@, k) && #[trigger] first_with_symbol(
            instruments@,
            symbol@,
            m,
        ) implies k == m by {
        if k < m {
            assert(instruments@[k].symbol@ != symbol@);
        } else if m < k {
            assert(instruments@[m].symbol@ != symbol@);
        }
    }
    let wanted = String::from_str(symbol);
    let mut i: usize = 0;
    while i < instruments.len()
        invariant
            wanted@ == symbol@,
            i <= instruments@.len(),
            forall|j: int| 0 <= j < i ==> #[trigger] instruments@[j].symbol@ != symbol@,
        decreases instruments@.len() - i,
    {
        if instruments[i].symbol == wanted {
            return Some(i);
        }
        i = i + 1;
    }
    None
}

/// The id of the first instrument whose symbol is `ticker`; `None` where there is none,
/// or where that instrument has no id.
pub fn find_instrument_id(instruments: &[Instrument], ticker: &str) -> (r: Option<i16>)
    ensures
        (forall|i: int| 0 <= i < instruments@.len() ==> #[trigger] instruments@[i].symbol@
            != ticker@) ==> r is None,
        forall|i: int| #[trigger]
            first_with_symbol(instruments@, ticker@, i) ==> r == instruments@[i].id,
{
    match symbol_index(instruments, ticker) {
        Some(k) => instruments[k].id,
        None => None,
    }
}

/// A price level as stored: the price by its id in the price dictionary.
#[derive(Clone, Copy, Debug)]
pub struct OrderDataDelta {
    pub price_id: i32,
    pub size: Dec,
}

/// The price levels of one side of an order book at one moment.
#[derive(Clone, Debug)]
pub struct OrderDataSlice {
    /// Nanoseconds since the Unix epoch.
    pub timestamp: i64,
    pub order_data: Vec<OrderData>,
}

/// A time interval, both ends in nanoseconds since the Unix epoch.
#[derive(Clone, Copy, Debug)]
pub struct TimeDiapason {
    pub from: i64,
    pub to: i64,
}

impl TimeDiapason {
    pub fn new(from: i64, to: i64) -> (d: TimeDiapason)
        ensures
            d.from == from,
            d.to == to,
    {
        TimeDiapason { from, to }
    }
}

/// A full order book of an instrument.
#[derive(Clone, Debug)]
pub struct OrderBookEvent {
    pub instrument_id: i16,
    pub order_book: OrderBook,
}

/// The changed price levels of an instrument's order book.
#[derive(Clone, Debug)]
pub struct OrderBookDeltaEvent {
    pub instrument_id: i16,
    /// Nanoseconds since the Unix epoch.
    pub timestamp: i64,
    pub asks: Vec<OrderData>,
    pub bids: Vec<OrderData>,
}

} // verus!
