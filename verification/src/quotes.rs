//! Prices as the brokers' and exchanges' APIs give them: quotations in whole units and
//! nanos, the broker's trades, and candles from which a price series is made.
use crate::decimal::{Dec, dec_add, dec_to_i64, decimal_sum, opt_view, to_i64_spec};
use vstd::string::StringExecFns;
use crate::model::{OrderBook, OrderData};
use vstd::prelude::*;

verus! {

/// The price of a quotation: its whole units plus its nanos, as decimals.
pub open spec fn quotation_spec(units: i64, nano: i32) -> Option<(int, int)> {
    decimal_sum((units as int, 0), (nano as int, 9))
}

/// The price of a quotation: `units` plus `nano` billionths; `None` where the sum does
/// not fit in a decimal.
pub fn quotation_price(units: i64, nano: i32) -> (r: Option<Dec>)
    ensures
        opt_view(r) == quotation_spec(units, nano),
{
    dec_add(Dec::from_int(units), Dec::new(nano as i128, 9))
}

/// The levels of a broker's order book: each order that has a price becomes a level at
/// that price with the order's quantity as size; orders without a price are left out.
/// `None` where a price does not fit in a decimal.
pub open spec fn quote_levels(orders: Seq<(Option<(i64, i32)>, i64)>) -> Option<
    Seq<((int, int), (int, int))>,
>
    decreases orders.len(),
{
    if orders.len() == 0 {
        Some(Seq::empty())
    } else {
        match quote_levels(orders.drop_last()) {
            None => None,
            Some(v) => match orders.last().0 {
                None => Some(v),
                Some(q) => match quotation_spec(q.0, q.1) {
                    None => None,
                    Some(p) => Some(v.push((p, (orders.last().1 as int, 0)))),
                },
            },
        }
    }
}

/// The levels by the views of their prices and sizes.
pub open spec fn levels_view(v: Seq<OrderData>) -> Seq<((int, int), (int, int))> {
    v.map_values(|d: OrderData| (d.price@, d.size@))
}

proof fn lemma_quote_levels_none(orders: Seq<(Option<(i64, i32)>, i64)>, i: int)
    requires
        0 <= i <= orders.len(),
        quote_levels(orders.take(i)) is None,
    ensures
        quote_levels(orders) is None,
    decreases orders.len() - i,
{
    if i < orders.len() {
        assert(orders.take(i + 1).drop_last() =~= orders.take(i));
        lemma_quote_levels_none(orders, i + 1);
    } else {
        assert(orders.take(i) =~= orders);
    }
}

/// The levels of a broker's order book (see `quote_levels`): each order is its price as
/// (units, nanos), if it has one, and its quantity.
pub fn convert_orders(orders: &[(Option<(i64, i32)>, i64)]) -> (r: Option<Vec<OrderData>>)
    ensures
        match quote_levels(orders@) {
            None => r is None,
            Some(v) => (r matches Some(levels) && levels_view(levels@) == v),
        },
{
    let mut levels: Vec<OrderData> = Vec::new();
    let mut i: usize = 0;
    assert(orders@.take(0) =~= Seq::<(Option<(i64, i32)>, i64)>::empty());
    assert(levels_view(levels@) =~= Seq::<((int, int), (int, int))>::empty());
    while i < orders.len()
        invariant
            i <= orders@.len(),
            quote_levels(orders@.take(i as int)) == Some(levels_view(levels@)),
        decreases orders@.len() - i,
    {
        assert(orders@.take(i + 1).drop_last() =~= orders@.take(i as int));
        assert(orders@.take(i + 1).last() == orders@[i as int]);
        let (price, quantity) = orders[i];
        match price {
            None => {},
            Some((units, nano)) => match quotation_price(units, nano) {
                None => {
                    proof {
                        lemma_quote_levels_none(orders@, i + 1);
                    }
                    return None;
                },
                Some(p) => {
                    let ghost before = levels_view(levels@);
                    let size = Dec::from_int(quantity);
                    levels.push(OrderData { price: p, size });
                    assert(levels_view(levels@) =~= before.push((p@, size@)));
                },
            },
        }
        i = i + 1;
    }
    assert(orders@.take(orders@.len() as int) =~= orders@);
    Some(levels)
}

/// The size given to both levels of a candle's order book.
pub const CANDLE_VOLUME: i64 = 100;

/// Whether a candle counts: it has more than five values, and its sixth (the volume) is
/// not zero.
pub open spec fn candle_kept(row: Seq<Dec>) -> bool {
    row.len() > 5 && row[5]@.0 != 0
}

/// The time of a candle in nanoseconds: its first value, in whole milliseconds; `None`
/// where that is not an `i64` or the time does not fit in nanoseconds.
pub open spec fn candle_time(row: Seq<Dec>) -> Option<i64> {
    match to_i64_spec(row[0]@) {
        Some(ms) => if i64::MIN <= ms * 1_000_000 <= i64::MAX {
            Some((ms * 1_000_000) as i64)
        } else {
            None
        },
        None => None,
    }
}

/// The order books of the candles that count, in order: each at the candle's time, with
/// an ask at the candle's high (its third value) and a bid at its low (its fourth), both
/// of size 100.  `None` where a time cannot be read.
pub open spec fn candle_books(rows: Seq<Seq<Dec>>) -> Option<Seq<(i64, Dec, Dec)>>
    decreases rows.len(),
{
    if rows.len() == 0 {
        Some(Seq::empty())
    } else {
        match candle_books(rows.drop_last()) {
            None => None,
            Some(v) => if candle_kept(rows.last()) {
                match candle_time(rows.last()) {
                    None => None,
                    Some(t) => Some(v.push((t, rows.last()[2], rows.last()[3]))),
                }
            } else {
                Some(v)
            },
        }
    }
}

/// The rows of candles by their values.
pub open spec fn rows_view(rows: Seq<Vec<Dec>>) -> Seq<Seq<Dec>> {
    rows.map_values(|r: Vec<Dec>| r@)
}

proof fn lemma_candle_books_none(rows: Seq<Seq<Dec>>, i: int)
    requires
        0 <= i <= rows.len(),
        candle_books(rows.take(i)) is None,
    ensures
        candle_books(rows) is None,
    decreases rows.len() - i,
{
    if i < rows.len() {
        assert(rows.take(i + 1).drop_last() =~= rows.take(i));
        lemma_candle_books_none(rows, i + 1);
    } else {
        assert(rows.take(i) =~= rows);
    }
}

/// Whether a book is the one a candle gives.
pub open spec fn is_candle_book(book: OrderBook, c: (i64, Dec, Dec)) -> bool {
    &&& book.id is None
    &&& book.timestamp == c.0
    &&& book.asks@ == seq![OrderData { price: c.1, size: Dec::int_spec(CANDLE_VOLUME) }]
    &&& book.bids@ == seq![OrderData { price: c.2, size: Dec::int_spec(CANDLE_VOLUME) }]
}

/// The order books of a list of candles (see `candle_books`).
pub fn candles_to_order_books(rows: &[Vec<Dec>]) -> (r: Option<Vec<OrderBook>>)
    ensures
        match candle_books(rows_view(rows@)) {
            None => r is None,
            Some(v) => (r matches Some(books) && books@.len() == v.len() && forall|i: int|
                0 <= i < v.len() ==> #[trigger] is_candle_book(books@[i], v[i])),
        },
{
    let ghost rv = rows_view(rows@);
    let mut books: Vec<OrderBook> = Vec::new();
    let mut i: usize = 0;
    assert(rv.take(0) =~= Seq::<Seq<Dec>>::empty());
    while i < rows.len()
        invariant
            i <= rows@.len(),
            rv == rows_view(rows@),
            candle_books(rv.take(i as int)) matches Some(v) && books@.len() == v.len() && forall|
                m: int,
            | 0 <= m < v.len() ==> #[trigger] is_candle_book(books@[m], v[m]),
        decreases rows@.len() - i,
    {
        assert(rv.take(i + 1).drop_last() =~= rv.take(i as int));
        assert(rv.take(i + 1).last() == rows@[i as int]@);
        let row = &rows[i];
        let ghost v = candle_books(rv.take(i as int)).unwrap();
        if row.len() > 5 && !row[5].is_zero() {
            assert(candle_kept(row@));
            let ms = match dec_to_i64(row[0]) {
                Some(x) => x,
                None => {
                    proof {
                        lemma_candle_books_none(rv, i + 1);
                    }
                    return None;
                },
            };
            if ms < -9_223_372_036_854 || ms > 9_223_372_036_854 {
                assert(candle_time(row@) is None);
                proof {
                    lemma_candle_books_none(rv, i + 1);
                }
                return None;
            }
            let volume = Dec::from_int(CANDLE_VOLUME);
            let t = ms * 1_000_000;
            assert(candle_time(row@) == Some(t));
            let ghost c = (t, row@[2], row@[3]);
            assert(candle_books(rv.take(i + 1)) == Some(v.push(c)));
            let asks = vec![OrderData { price: row[2], size: volume }];
            let bids = vec![OrderData { price: row[3], size: volume }];
            assert(asks@ =~= seq![OrderData { price: row@[2], size: Dec::int_spec(CANDLE_VOLUME) }]);
            assert(bids@ =~= seq![OrderData { price: row@[3], size: Dec::int_spec(CANDLE_VOLUME) }]);
            let book = OrderBook { id: None, timestamp: t, asks, bids };
            assert(is_candle_book(book, c));
            let ghost prev = books@;
            books.push(book);
            assert forall|m: int| 0 <= m < v.push(c).len() implies #[trigger] is_candle_book(
                books@[m],
                v.push(c)[m],
            ) by {
                if m < v.len() {
                    assert(books@[m] == prev[m]);
                }
            }
        } else {
            assert(!candle_kept(row@));
            assert(candle_books(rv.take(i + 1)) == Some(v));
        }
        i = i + 1;
    }
    assert(rv.take(rows@.len() as int) =~= rv);
    Some(books)
}

/// A trade of an instrument.
#[derive(Clone, Copy, Debug)]
pub struct Trade {
    pub id: Option<i64>,
    pub instrument_id: i16,
    /// Nanoseconds since the Unix epoch.
    pub created: i64,
    pub quantity: Dec,
    pub price: Option<Dec>,
    /// 'b' for a buy, 's' for a sell.
    pub direction: Option<char>,
}

/// The number the broker's API gives a buying trade's direction.
pub const TRADE_DIRECTION_BUY: i32 = 1;

/// The number the broker's API gives a selling trade's direction.
pub const TRADE_DIRECTION_SELL: i32 = 2;

/// The direction of a trade by its number in the broker's API: 'b' for a buy, 's' for a
/// sell, none for any other number.
pub open spec fn trade_direction_of(dir: i32) -> Option<char> {
    if dir == TRADE_DIRECTION_BUY {
        Some('b')
    } else if dir == TRADE_DIRECTION_SELL {
        Some('s')
    } else {
        None
    }
}

/// Decodes a trade direction (see `trade_direction_of`).
pub fn decode_trade_direction(dir: i32) -> (r: Option<char>)
    ensures
        r == trade_direction_of(dir),
{
    if dir == TRADE_DIRECTION_BUY {
        Some('b')
    } else if dir == TRADE_DIRECTION_SELL {
        Some('s')
    } else {
        None
    }
}

/// The instrument id that the pairs of (uid, id) give a uid: that of the last pair with
/// the uid, as a map filled from the pairs in order keeps it.
pub open spec fn uid_instrument(pairs: Seq<(String, i16)>, uid: Seq<char>) -> Option<i16>
    decreases pairs.len(),
{
    if pairs.len() == 0 {
        None
    } else if pairs.last().0@ == uid {
        Some(pairs.last().1)
    } else {
        uid_instrument(pairs.drop_last(), uid)
    }
}

/// The instrument id of a uid (see `uid_instrument`).
pub fn instrument_of_uid(pairs: &[(String, i16)], uid: &str) -> (r: Option<i16>)
    ensures
        r == uid_instrument(pairs@, uid@),
{
    let wanted = String::from_str(uid);
    let mut i: usize = pairs.len();
    assert(pairs@.take(pairs@.len() as int) =~= pairs@);
    while i > 0
        invariant
            wanted@ == uid@,
            i <= pairs@.len(),
            uid_instrument(pairs@, uid@) == uid_instrument(pairs@.take(i as int), uid@),
        decreases i,
    {
        assert(pairs@.take(i as int).drop_last() =~= pairs@.take(i - 1));
        assert(pairs@.take(i as int).last() == pairs@[i - 1]);
        if pairs[i - 1].0 == wanted {
            return Some(pairs[i - 1].1);
        }
        i = i - 1;
    }
    None
}

/// What the broker's trade message gives, where its instrument is known: the
/// instrument's id, the time, the quantity, the price of its quotation (where it has
/// one) and the direction.  `None` for a trade of an unknown instrument; `Err` where the
/// quotation does not fit in a decimal.
pub fn convert_trade(
    uid_ids: &[(String, i16)],
    uid: &str,
    created: i64,
    quantity: i64,
    price: Option<(i64, i32)>,
    direction: i32,
) -> (r: Result<Option<Trade>, ()>)
    ensures
        match uid_instrument(uid_ids@, uid@) {
            None => r == Ok::<Option<Trade>, ()>(None),
            Some(id) => match price {
                Some((units, nano)) => match quotation_spec(units, nano) {
                    None => r is Err,
                    Some(p) => r matches Ok(Some(t)) && t.id is None && t.instrument_id == id
                        && t.created == created && t.quantity@ == (quantity as int, 0int) && (
                    t.price matches Some(q) && q@ == p) && t.direction == trade_direction_of(
                        direction,
                    ),
                },
                None => r matches Ok(Some(t)) && t.id is None && t.instrument_id == id && t.created
                    == created && t.quantity@ == (quantity as int, 0int) && t.price is None
                    && t.direction == trade_direction_of(direction),
            },
        },
{
    let instrument_id = match instrument_of_uid(uid_ids, uid) {
        Some(id) => id,
        None => {
            return Ok(None);
        },
    };
    let price = match price {
        Some((units, nano)) => match quotation_price(units, nano) {
            Some(p) => Some(p),
            None => {
                return Err(());
            },
        },
        None => None,
    };
    Ok(
        Some(
            Trade {
                id: None,
                instrument_id,
                created,
                quantity: Dec::from_int(quantity),
                price,
                direction: decode_trade_direction(direction),
            },
        ),
    )
}

} // verus!
