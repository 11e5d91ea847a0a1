//! Order-book deltas: applying the changed price levels to one side of an order book,
//! and computing the changes between two snapshots of a side.
//!
//! A level whose size is zero removes its price; any other level sets the size at its
//! price, or adds the level.  Prices and sizes compare numerically.
use crate::decimal::{Dec, dec_eq};
use crate::model::OrderData;
use vstd::prelude::*;

verus! {

/// The price of a level, in units of 10^-28.
pub open spec fn price_units(d: OrderData) -> int {
    d.price.units()
}

/// The size of a level, in units of 10^-28.
pub open spec fn size_units(d: OrderData) -> int {
    d.size.units()
}

/// Whether a side has a level at price `x`.
pub open spec fn has_price(book: Seq<OrderData>, x: int) -> bool {
    exists|i: int| 0 <= i < book.len() && price_units(#[trigger] book[i]) == x
}

/// Whether a side has a level at price `x` with size `v`.
pub open spec fn has_level(book: Seq<OrderData>, x: int, v: int) -> bool {
    exists|i: int| 0 <= i < book.len() && price_units(#[trigger] book[i]) == x && size_units(book[i]) == v
}

/// Whether no two levels of a side share a price.
pub open spec fn distinct_prices(book: Seq<OrderData>) -> bool {
    forall|i: int, j: int|
        0 <= i < book.len() && 0 <= j < book.len() && i != j ==> price_units(#[trigger] book[i])
            != price_units(#[trigger] book[j])
}

/// The first index at or after `from` whose price is `x`.
pub open spec fn first_price_index(book: Seq<OrderData>, x: int, from: int) -> Option<int>
    decreases book.len() - from,
{
    if from < 0 || from >= book.len() {
        None
    } else if price_units(book[from]) == x {
        Some(from)
    } else {
        first_price_index(book, x, from + 1)
    }
}

/// The levels of `book` whose price is not `x`, in order.
pub open spec fn remove_price(book: Seq<OrderData>, x: int) -> Seq<OrderData>
    decreases book.len(),
{
    if book.len() == 0 {
        book
    } else if price_units(book.last()) == x {
        remove_price(book.drop_last(), x)
    } else {
        remove_price(book.drop_last(), x).push(book.last())
    }
}

/// One delta level applied to a side: a zero size removes every level at its price;
/// another size replaces the size of the first level at its price, or is appended.
pub open spec fn apply_delta(book: Seq<OrderData>, d: OrderData) -> Seq<OrderData> {
    if d.size@.0 == 0 {
        remove_price(book, price_units(d))
    } else {
        match first_price_index(book, price_units(d), 0) {
            Some(k) => book.update(k, OrderData { price: book[k].price, size: d.size }),
            None => book.push(d),
        }
    }
}

/// The delta levels applied one after another.
pub open spec fn apply_deltas(book: Seq<OrderData>, deltas: Seq<OrderData>) -> Seq<OrderData>
    decreases deltas.len(),
{
    if deltas.len() == 0 {
        book
    } else {
        apply_delta(apply_deltas(book, deltas.drop_last()), deltas.last())
    }
}

/// Whether a level of the new snapshot goes into the delta: its price is new, or the
/// first old level at its price has another size.
pub open spec fn level_changed(prev: Seq<OrderData>, n: OrderData) -> bool {
    match first_price_index(prev, price_units(n), 0) {
        Some(k) => size_units(prev[k]) != size_units(n),
        None => true,
    }
}

/// The levels of `new` that are new or changed, in order.
pub open spec fn changed_levels(prev: Seq<OrderData>, new: Seq<OrderData>) -> Seq<OrderData>
    decreases new.len(),
{
    if new.len() == 0 {
        new
    } else if level_changed(prev, new.last()) {
        changed_levels(prev, new.drop_last()).push(new.last())
    } else {
        changed_levels(prev, new.drop_last())
    }
}

/// A zero-size level for every old level whose price the new snapshot lacks, in order.
pub open spec fn removed_levels(prev: Seq<OrderData>, new: Seq<OrderData>) -> Seq<OrderData>
    decreases prev.len(),
{
    if prev.len() == 0 {
        prev
    } else if has_price(new, price_units(prev.last())) {
        removed_levels(prev.drop_last(), new)
    } else {
        removed_levels(prev.drop_last(), new).push(
            OrderData { price: prev.last().price, size: Dec::zero_spec() },
        )
    }
}

/// The delta from one snapshot of a side to the next: the new or changed levels, then a
/// zero-size level for each vanished price.
pub open spec fn delta_spec(prev: Seq<OrderData>, new: Seq<OrderData>) -> Seq<OrderData> {
    changed_levels(prev, new) + removed_levels(prev, new)
}

proof fn lemma_first_price_index(book: Seq<OrderData>, x: int, from: int)
    requires
        0 <= from,
    ensures
        first_price_index(book, x, from) matches Some(k) ==> from <= k < book.len() && price_units(
            book[k],
        ) == x && forall|j: int| from <= j < k ==> price_units(#[trigger] book[j]) != x,
        first_price_index(book, x, from) is None ==> forall|j: int|
            from <= j < book.len() ==> price_units(#[trigger] book[j]) != x,
    decreases book.len() - from,
{
    if from < book.len() && price_units(book[from]) != x {
        lemma_first_price_index(book, x, from + 1);
        assert forall|j: int| from <= j < book.len() && first_price_index(book, x, from) is None
            implies price_units(#[trigger] book[j]) != x by {
            if j > from {
            }
        }
    }
}

/// Finds the first level at the price of `price`.
fn find_price(book: &Vec<OrderData>, price: Dec) -> (r: Option<usize>)
    ensures
        match r {
            Some(k) => k < book@.len() && first_price_index(book@, price.units(), 0) == Some(
                k as int,
            ),
            None => first_price_index(book@, price.units(), 0) is None,
        },
{
    proof {
        lemma_first_price_index(book@, price.units(), 0);
    }
    let mut i: usize = 0;
    while i < book.len()
        invariant
            i <= book@.len(),
            forall|j: int| 0 <= j < i ==> price_units(#[trigger] book@[j]) != price.units(),
        decreases book@.len() - i,
    {
        if dec_eq(&book[i].price, &price) {
            proof {
                lemma_first_price_index(book@, price.units(), 0);
            }
            return Some(i);
        }
        i = i + 1;
    }
    None
}

/// Applies one delta level to a side.
fn apply_one(delta: OrderData, book: &mut Vec<OrderData>)
    ensures
        final(book)@ == apply_delta(old(book)@, delta),
{
    if delta.size.is_zero() {
        let ghost x = price_units(delta);
        let mut kept: Vec<OrderData> = Vec::new();
        let mut j: usize = 0;
        while j < book.len()
            invariant
                j <= book@.len(),
                book@ == old(book)@,
                x == price_units(delta),
                kept@ == remove_price(book@.take(j as int), x),
            decreases book@.len() - j,
        {
            assert(book@.take(j + 1).drop_last() =~= book@.take(j as int));
            if !dec_eq(&book[j].price, &delta.price) {
                kept.push(book[j]);
            }
            j = j + 1;
        }
        assert(book@.take(book@.len() as int) =~= book@);
        *book = kept;
    } else {
        match find_price(book, delta.price) {
            Some(k) => {
                let level = OrderData { price: book[k].price, size: delta.size };
                book.set(k, level);
            },
            None => {
                book.push(delta);
            },
        }
    }
}

/// Applies the delta levels, one after another, to one side of an order book.
pub fn handle_delta(deltas: &[OrderData], order_book_data: &mut Vec<OrderData>)
    ensures
        final(order_book_data)@ == apply_deltas(old(order_book_data)@, deltas@),
{
    let ghost start = order_book_data@;
    let mut i: usize = 0;
    assert(deltas@.take(0) =~= Seq::<OrderData>::empty());
    while i < deltas.len()
        invariant
            i <= deltas@.len(),
            start == old(order_book_data)@,
            order_book_data@ == apply_deltas(start, deltas@.take(i as int)),
        decreases deltas@.len() - i,
    {
        assert(deltas@.take(i + 1).drop_last() =~= deltas@.take(i as int));
        apply_one(deltas[i], order_book_data);
        i = i + 1;
    }
    assert(deltas@.take(deltas@.len() as int) =~= deltas@);
}

/// Whether `book` has a level at the price of `price`.
fn contains_price(book: &[OrderData], price: Dec) -> (r: bool)
    ensures
        r == has_price(book@, price.units()),
{
    let mut i: usize = 0;
    while i < book.len()
        invariant
            i <= book@.len(),
            forall|j: int| 0 <= j < i ==> price_units(#[trigger] book@[j]) != price.units(),
        decreases book@.len() - i,
    {
        if dec_eq(&book[i].price, &price) {
            return true;
        }
        i = i + 1;
    }
    false
}

/// The delta from the old snapshot of a side to the new one: the levels of `new_orders`
/// whose price is new or whose size changed, in order, then a zero-size level for every
/// level of `prev_orders` whose price `new_orders` lacks, in order.
pub fn calculate_delta(prev_orders: &Vec<OrderData>, new_orders: &[OrderData]) -> (r: Vec<OrderData>)
    ensures
        r@ == delta_spec(prev_orders@, new_orders@),
{
    let mut delta: Vec<OrderData> = Vec::new();
    let mut j: usize = 0;
    while j < new_orders.len()
        invariant
            j <= new_orders@.len(),
            delta@ == changed_levels(prev_orders@, new_orders@.take(j as int)),
        decreases new_orders@.len() - j,
    {
        assert(new_orders@.take(j + 1).drop_last() =~= new_orders@.take(j as int));
        let n = new_orders[j];
        let keep = match find_price(prev_orders, n.price) {
            Some(k) => !dec_eq(&prev_orders[k].size, &n.size),
            None => true,
        };
        if keep {
            delta.push(n);
        }
        j = j + 1;
    }
    assert(new_orders@.take(new_orders@.len() as int) =~= new_orders@);
    let ghost changed = delta@;
    let mut k: usize = 0;
    assert(prev_orders@.take(0) =~= Seq::<OrderData>::empty());
    while k < prev_orders.len()
        invariant
            k <= prev_orders@.len(),
            changed == changed_levels(prev_orders@, new_orders@),
            delta@ == changed + removed_levels(prev_orders@.take(k as int), new_orders@),
        decreases prev_orders@.len() - k,
    {
        assert(prev_orders@.take(k + 1).drop_last() =~= prev_orders@.take(k as int));
        let p = prev_orders[k];
        if !contains_price(new_orders, p.price) {
            delta.push(OrderData { price: p.price, size: Dec::zero() });
            assert(delta@ =~= changed + removed_levels(prev_orders@.take(k + 1), new_orders@));
        } else {
            assert(delta@ =~= changed + removed_levels(prev_orders@.take(k + 1), new_orders@));
        }
        k = k + 1;
    }
    assert(prev_orders@.take(prev_orders@.len() as int) =~= prev_orders@);
    delta
}

/// The last delta level at price `x`, the one that decides that price.
pub open spec fn last_delta_at(deltas: Seq<OrderData>, x: int) -> Option<OrderData>
    decreases deltas.len(),
{
    if deltas.len() == 0 {
        None
    } else if price_units(deltas.last()) == x {
        Some(deltas.last())
    } else {
        last_delta_at(deltas.drop_last(), x)
    }
}

proof fn lemma_remove_price_members(book: Seq<OrderData>, x: int)
    ensures
        forall|i: int|
            0 <= i < remove_price(book, x).len() ==> exists|j: int|
                0 <= j < book.len() && #[trigger] remove_price(book, x)[i] == book[j],
        forall|i: int|
            0 <= i < remove_price(book, x).len() ==> price_units(#[trigger] remove_price(book, x)[i])
                != x,
        forall|j: int|
            0 <= j < book.len() && price_units(#[trigger] book[j]) != x ==> exists|i: int|
                0 <= i < remove_price(book, x).len() && remove_price(book, x)[i] == book[j],
    decreases book.len(),
{
    if book.len() > 0 {
        let b = book.drop_last();
        lemma_remove_price_members(b, x);
        let rb = remove_price(b, x);
        let r = remove_price(book, x);
        assert forall|j: int| 0 <= j < book.len() && price_units(#[trigger] book[j]) != x implies exists|
            i: int,
        | 0 <= i < r.len() && r[i] == book[j] by {
            if j < book.len() - 1 {
                assert(b[j] == book[j]);
                let i = choose|i: int| 0 <= i < rb.len() && rb[i] == b[j];
                assert(r[i] == book[j]);
            } else {
                assert(r[r.len() - 1] == book[j]);
            }
        }
        assert forall|i: int| 0 <= i < r.len() implies exists|j: int|
            0 <= j < book.len() && #[trigger] r[i] == book[j] by {
            if i < rb.len() {
                let j = choose|j: int| 0 <= j < b.len() && rb[i] == b[j];
                assert(book[j] == b[j]);
            } else {
                assert(r[i] == book[book.len() - 1]);
            }
        }
    }
}

proof fn lemma_remove_price_distinct(book: Seq<OrderData>, x: int)
    requires
        distinct_prices(book),
    ensures
        distinct_prices(remove_price(book, x)),
    decreases book.len(),
{
    if book.len() > 0 {
        let b = book.drop_last();
        assert(distinct_prices(b)) by {
            assert forall|i: int, j: int|
                0 <= i < b.len() && 0 <= j < b.len() && i != j implies price_units(
                    #[trigger] b[i],
                ) != price_units(#[trigger] b[j]) by {
                assert(b[i] == book[i] && b[j] == book[j]);
            }
        }
        lemma_remove_price_distinct(b, x);
        lemma_remove_price_members(b, x);
        let rb = remove_price(b, x);
        let r = remove_price(book, x);
        if price_units(book.last()) != x {
            assert forall|i: int, j: int|
                0 <= i < r.len() && 0 <= j < r.len() && i != j implies price_units(
                    #[trigger] r[i],
                ) != price_units(#[trigger] r[j]) by {
                if i < rb.len() && j < rb.len() {
                    assert(r[i] == rb[i] && r[j] == rb[j]);
                } else if i < rb.len() {
                    let k = choose|k: int| 0 <= k < b.len() && rb[i] == b[k];
                    assert(book[k] == b[k]);
                    assert(r[j] == book[book.len() - 1]);
                } else {
                    let k = choose|k: int| 0 <= k < b.len() && rb[j] == b[k];
                    assert(book[k] == b[k]);
                    assert(r[i] == book[book.len() - 1]);
                }
            }
        }
    }
}

proof fn lemma_remove_price(book: Seq<OrderData>, x: int)
    ensures
        forall|i: int|
            0 <= i < remove_price(book, x).len() ==> exists|j: int|
                0 <= j < book.len() && #[trigger] remove_price(book, x)[i] == book[j],
        forall|i: int|
            0 <= i < remove_price(book, x).len() ==> price_units(#[trigger] remove_price(book, x)[i])
                != x,
        forall|j: int|
            0 <= j < book.len() && price_units(#[trigger] book[j]) != x ==> exists|i: int|
                0 <= i < remove_price(book, x).len() && remove_price(book, x)[i] == book[j],
        distinct_prices(book) ==> distinct_prices(remove_price(book, x)),
{
    lemma_remove_price_members(book, x);
    if distinct_prices(book) {
        lemma_remove_price_distinct(book, x);
    }
}

proof fn lemma_sub_distinct(book: Seq<OrderData>)
    requires
        distinct_prices(book),
        book.len() > 0,
    ensures
        distinct_prices(book.drop_last()),
        !has_price(book.drop_last(), price_units(book.last())),
{
    let b = book.drop_last();
    assert forall|i: int, j: int|
        0 <= i < b.len() && 0 <= j < b.len() && i != j implies price_units(#[trigger] b[i])
            != price_units(#[trigger] b[j]) by {
        assert(b[i] == book[i] && b[j] == book[j]);
    }
    if has_price(b, price_units(book.last())) {
        let i = choose|i: int| 0 <= i < b.len() && price_units(#[trigger] b[i]) == price_units(book.last());
        assert(b[i] == book[i]);
        assert(price_units(book[i]) != price_units(book[book.len() - 1]));
    }
}

/// On a side without repeated prices, a delta level decides its own price: a zero size
/// removes it, another size sets it; every other price keeps its level.
pub proof fn lemma_apply_delta_levels(book: Seq<OrderData>, d: OrderData)
    requires
        distinct_prices(book),
    ensures
        distinct_prices(apply_delta(book, d)),
        forall|x: int, v: int|
            #[trigger] has_level(apply_delta(book, d), x, v) <==> if x == price_units(d) {
                d.size@.0 != 0 && v == size_units(d)
            } else {
                has_level(book, x, v)
            },
{
    let x0 = price_units(d);
    let r = apply_delta(book, d);
    if d.size@.0 == 0 {
        lemma_remove_price(book, x0);
        assert forall|x: int, v: int| #[trigger] has_level(r, x, v) <==> if x == x0 {
            d.size@.0 != 0 && v == size_units(d)
        } else {
            has_level(book, x, v)
        } by {
            if has_level(r, x, v) {
                let i = choose|i: int|
                    0 <= i < r.len() && price_units(#[trigger] r[i]) == x && size_units(r[i]) == v;
                let j = choose|j: int| 0 <= j < book.len() && #[trigger] r[i] == book[j];
                assert(x != x0);
                assert(price_units(book[j]) == x && size_units(book[j]) == v);
            }
            if x != x0 && has_level(book, x, v) {
                let j = choose|j: int|
                    0 <= j < book.len() && price_units(#[trigger] book[j]) == x && size_units(book[j]) == v;
                let i = choose|i: int| 0 <= i < r.len() && r[i] == book[j];
                assert(price_units(r[i]) == x && size_units(r[i]) == v);
            }
        }
    } else {
        lemma_first_price_index(book, x0, 0);
        match first_price_index(book, x0, 0) {
            Some(k) => {
                let e = OrderData { price: book[k].price, size: d.size };
                assert(r == book.update(k, e));
                assert forall|i: int, j: int|
                    0 <= i < r.len() && 0 <= j < r.len() && i != j implies price_units(
                        #[trigger] r[i],
                    ) != price_units(#[trigger] r[j]) by {
                    assert(price_units(r[i]) == price_units(book[i]));
                    assert(price_units(r[j]) == price_units(book[j]));
                }
                assert forall|x: int, v: int| #[trigger] has_level(r, x, v) <==> if x == x0 {
                    d.size@.0 != 0 && v == size_units(d)
                } else {
                    has_level(book, x, v)
                } by {
                    if has_level(r, x, v) {
                        let i = choose|i: int|
                            0 <= i < r.len() && price_units(#[trigger] r[i]) == x && size_units(r[i])
                                == v;
                        if i != k {
                            assert(r[i] == book[i]);
                            assert(price_units(book[i]) != price_units(book[k]));
                        }
                    }
                    if x == x0 && v == size_units(d) {
                        assert(price_units(r[k]) == x && size_units(r[k]) == v);
                    }
                    if x != x0 && has_level(book, x, v) {
                        let j = choose|j: int|
                            0 <= j < book.len() && price_units(#[trigger] book[j]) == x && size_units(
                                book[j],
                            ) == v;
                        assert(j != k);
                        assert(r[j] == book[j]);
                    }
                }
            },
            None => {
                assert(r == book.push(d));
                assert forall|i: int, j: int|
                    0 <= i < r.len() && 0 <= j < r.len() && i != j implies price_units(
                        #[trigger] r[i],
                    ) != price_units(#[trigger] r[j]) by {
                    if i < book.len() && j < book.len() {
                        assert(r[i] == book[i] && r[j] == book[j]);
                    } else if i < book.len() {
                        assert(r[i] == book[i]);
                    } else {
                        assert(r[j] == book[j]);
                    }
                }
                assert forall|x: int, v: int| #[trigger] has_level(r, x, v) <==> if x == x0 {
                    d.size@.0 != 0 && v == size_units(d)
                } else {
                    has_level(book, x, v)
                } by {
                    if has_level(r, x, v) {
                        let i = choose|i: int|
                            0 <= i < r.len() && price_units(#[trigger] r[i]) == x && size_units(r[i])
                                == v;
                        if i < book.len() {
                            assert(r[i] == book[i]);
                        }
                    }
                    if x == x0 && v == size_units(d) {
                        assert(r[book.len() as int] == d);
                    }
                    if x != x0 && has_level(book, x, v) {
                        let j = choose|j: int|
                            0 <= j < book.len() && price_units(#[trigger] book[j]) == x && size_units(
                                book[j],
                            ) == v;
                        assert(r[j] == book[j]);
                    }
                }
            },
        }
    }
}

/// On a side without repeated prices, applying delta levels one after another leaves at
/// each price what the last delta level at that price says, and the old level where no
/// delta level has that price.
pub proof fn lemma_apply_deltas_levels(book: Seq<OrderData>, deltas: Seq<OrderData>)
    requires
        distinct_prices(book),
    ensures
        distinct_prices(apply_deltas(book, deltas)),
        forall|x: int, v: int|
            #[trigger] has_level(apply_deltas(book, deltas), x, v) <==> match last_delta_at(deltas, x) {
                Some(e) => e.size@.0 != 0 && v == size_units(e),
                None => has_level(book, x, v),
            },
    decreases deltas.len(),
{
    if deltas.len() > 0 {
        let ds = deltas.drop_last();
        lemma_apply_deltas_levels(book, ds);
        lemma_apply_delta_levels(apply_deltas(book, ds), deltas.last());
    }
}

proof fn lemma_last_delta_concat(a: Seq<OrderData>, b: Seq<OrderData>, x: int)
    ensures
        last_delta_at(a + b, x) == match last_delta_at(b, x) {
            Some(e) => Some(e),
            None => last_delta_at(a, x),
        },
    decreases b.len(),
{
    if b.len() == 0 {
        assert(a + b =~= a);
    } else {
        assert((a + b).drop_last() =~= a + b.drop_last());
        assert((a + b).last() == b.last());
        lemma_last_delta_concat(a, b.drop_last(), x);
    }
}

proof fn lemma_removed_levels(prev: Seq<OrderData>, new: Seq<OrderData>, x: int)
    ensures
        has_price(new, x) ==> last_delta_at(removed_levels(prev, new), x) is None,
        !has_price(prev, x) ==> last_delta_at(removed_levels(prev, new), x) is None,
        (!has_price(new, x) && has_price(prev, x)) ==> (last_delta_at(removed_levels(prev, new), x)
            matches Some(e) && e.size@.0 == 0),
    decreases prev.len(),
{
    Dec::lemma_zero_spec();
    if prev.len() > 0 {
        let p = prev.drop_last();
        lemma_removed_levels(p, new, x);
        let r = removed_levels(p, new);
        if !has_price(new, price_units(prev.last())) {
            let e = OrderData { price: prev.last().price, size: Dec::zero_spec() };
            assert(removed_levels(prev, new) == r.push(e));
            assert(r.push(e).drop_last() =~= r);
            assert(r.push(e).last() == e);
        }
        if has_price(prev, x) && !has_price(p, x) {
            let i = choose|i: int| 0 <= i < prev.len() && price_units(#[trigger] prev[i]) == x;
            if i < p.len() {
                assert(p[i] == prev[i]);
            }
            assert(price_units(prev.last()) == x);
        }
        if has_price(p, x) {
            let i = choose|i: int| 0 <= i < p.len() && price_units(#[trigger] p[i]) == x;
            assert(prev[i] == p[i]);
        }
    }
}

proof fn lemma_changed_levels(prev: Seq<OrderData>, new: Seq<OrderData>, x: int)
    requires
        distinct_prices(new),
    ensures
        !has_price(new, x) ==> last_delta_at(changed_levels(prev, new), x) is None,
        forall|j: int|
            0 <= j < new.len() && price_units(#[trigger] new[j]) == x ==> last_delta_at(
                changed_levels(prev, new),
                x,
            ) == if level_changed(prev, new[j]) {
                Some(new[j])
            } else {
                None
            },
    decreases new.len(),
{
    if new.len() > 0 {
        let n = new.drop_last();
        lemma_sub_distinct(new);
        lemma_changed_levels(prev, n, x);
        let c = changed_levels(prev, n);
        if level_changed(prev, new.last()) {
            assert(changed_levels(prev, new) == c.push(new.last()));
            assert(c.push(new.last()).drop_last() =~= c);
            assert(c.push(new.last()).last() == new.last());
        }
        if !has_price(new, x) {
            assert(price_units(new[new.len() - 1]) != x);
            if has_price(n, x) {
                let i = choose|i: int| 0 <= i < n.len() && price_units(#[trigger] n[i]) == x;
                assert(new[i] == n[i]);
            }
        }
        assert forall|j: int|
            0 <= j < new.len() && price_units(#[trigger] new[j]) == x implies last_delta_at(
            changed_levels(prev, new),
            x,
        ) == if level_changed(prev, new[j]) {
            Some(new[j])
        } else {
            None
        } by {
            if j < new.len() - 1 {
                assert(n[j] == new[j]);
                assert(price_units(new[j]) != price_units(new[new.len() - 1]));
            } else {
                assert(!has_price(n, x));
            }
        }
    }
}

/// The law of deltas: where the old and the new snapshot of a side have no repeated
/// prices and the new one no level of size zero, applying the delta between them to the
/// old snapshot gives a side without repeated prices that has exactly the levels (price
/// and size, compared numerically) of the new snapshot.
pub proof fn law_delta_rebuilds_side(prev: Seq<OrderData>, new: Seq<OrderData>)
    requires
        distinct_prices(prev),
        distinct_prices(new),
        forall|i: int| 0 <= i < new.len() ==> (#[trigger] new[i]).size@.0 != 0,
    ensures
        distinct_prices(apply_deltas(prev, delta_spec(prev, new))),
        forall|x: int, v: int|
            #[trigger] has_level(apply_deltas(prev, delta_spec(prev, new)), x, v) <==> has_level(
                new,
                x,
                v,
            ),
{
    let ds = delta_spec(prev, new);
    lemma_apply_deltas_levels(prev, ds);
    assert forall|x: int, v: int|
        #[trigger] has_level(apply_deltas(prev, ds), x, v) <==> has_level(new, x, v) by {
        lemma_last_delta_concat(changed_levels(prev, new), removed_levels(prev, new), x);
        lemma_removed_levels(prev, new, x);
        lemma_changed_levels(prev, new, x);
        if has_price(new, x) {
            let j = choose|j: int| 0 <= j < new.len() && price_units(#[trigger] new[j]) == x;
            assert(has_level(new, x, v) <==> v == size_units(new[j])) by {
                if has_level(new, x, v) {
                    let i = choose|i: int|
                        0 <= i < new.len() && price_units(#[trigger] new[i]) == x && size_units(new[i])
                            == v;
                    assert(i == j);
                }
            }
            if !level_changed(prev, new[j]) {
                lemma_first_price_index(prev, x, 0);
                let k = first_price_index(prev, x, 0).unwrap();
                assert(has_level(prev, x, v) <==> v == size_units(prev[k])) by {
                    if has_level(prev, x, v) {
                        let i = choose|i: int|
                            0 <= i < prev.len() && price_units(#[trigger] prev[i]) == x && size_units(
                                prev[i],
                            ) == v;
                        assert(i == k);
                    }
                }
            }
        } else {
            if has_level(new, x, v) {
                let i = choose|i: int|
                    0 <= i < new.len() && price_units(#[trigger] new[i]) == x && size_units(new[i]) == v;
            }
            if has_level(prev, x, v) {
                let i = choose|i: int|
                    0 <= i < prev.len() && price_units(#[trigger] prev[i]) == x && size_units(prev[i])
                        == v;
            }
        }
    }
}

} // verus!
