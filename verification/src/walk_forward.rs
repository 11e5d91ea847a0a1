//! The bookkeeping of the walk-forward signal model, which buffers the values of both
//! legs' order books: which buffered values are the latest of each leg, when the model
//! is due for calibration, and how much of the buffer falls out of the training window;
//! and the positions in a window of recent times that a derivative is taken over.  A
//! buffer or window is given by the legs and the times (nanoseconds) of its values.
use crate::clock::trunc_div;
use crate::trading::Leg;
use vstd::prelude::*;

verus! {

/// A minute, in nanoseconds.
pub const MINUTE_NS: i128 = 60_000_000_000;

/// Whether value `k` of the buffer is the last of its leg `leg`, looking back from the
/// end but not at the first value.
pub open spec fn last_of_leg(legs: Seq<Leg>, leg: Leg, k: int) -> bool {
    &&& 1 <= k < legs.len()
    &&& legs[k] == leg
    &&& forall|m: int| k < m < legs.len() ==> #[trigger] legs[m] != leg
}

/// Whether some value after the first is of leg `leg`.
pub open spec fn has_leg(legs: Seq<Leg>, leg: Leg) -> bool {
    exists|m: int| 1 <= m < legs.len() && #[trigger] legs[m] == leg
}

/// The latest value of each leg: the indices of the last first-leg value and of the last
/// second-leg value, looking back from the end of the buffer but not at its first value;
/// `None` where a leg has no such value.
pub fn last_values(legs: &[Leg]) -> (r: Option<(usize, usize)>)
    requires
        legs@.len() > 0,
    ensures
        match r {
            Some((i, j)) => last_of_leg(legs@, Leg::First, i as int) && last_of_leg(
                legs@,
                Leg::Second,
                j as int,
            ),
            None => !has_leg(legs@, Leg::First) || !has_leg(legs@, Leg::Second),
        },
{
    let mut v1: Option<usize> = None;
    let mut v2: Option<usize> = None;
    let mut i: usize = legs.len() - 1;
    while i > 0 && (v1.is_none() || v2.is_none())
        invariant
            i < legs@.len(),
            match v1 {
                Some(a) => last_of_leg(legs@, Leg::First, a as int),
                None => forall|m: int| i < m < legs@.len() ==> #[trigger] legs@[m] != Leg::First,
            },
            match v2 {
                Some(b) => last_of_leg(legs@, Leg::Second, b as int),
                None => forall|m: int| i < m < legs@.len() ==> #[trigger] legs@[m] != Leg::Second,
            },
        decreases i,
    {
        match legs[i] {
            Leg::First => {
                if v1.is_none() {
                    v1 = Some(i);
                }
            },
            Leg::Second => {
                if v2.is_none() {
                    v2 = Some(i);
                }
            },
        }
        i = i - 1;
    }
    match (v1, v2) {
        (Some(a), Some(b)) => Some((a, b)),
        _ => None,
    }
}

/// Whether the model is due for calibration, given the times of its buffer: the buffer
/// has at least two values and spans, in whole minutes (rounded toward zero and kept as
/// a `u16`), at least one minute less than the training data; and there is no
/// calibration yet, or the last one (made at `created_on`) is more than the training
/// interval older than the last value.
pub open spec fn calibration_due_spec(
    times: Seq<i64>,
    created_on: Option<i64>,
    train_data_minutes: u16,
    train_interval_minutes: u16,
) -> bool {
    &&& times.len() >= 2
    &&& (trunc_div(times.last() - times[0], MINUTE_NS as int) as u16) >= train_data_minutes - 1
    &&& match created_on {
        None => true,
        Some(c) => times.last() - c > train_interval_minutes * MINUTE_NS,
    }
}

/// Whether the model is due for calibration (see `calibration_due_spec`).
pub fn calibration_due(
    times: &[i64],
    created_on: Option<i64>,
    train_data_minutes: u16,
    train_interval_minutes: u16,
) -> (r: bool)
    requires
        train_data_minutes >= 1,
    ensures
        r == calibration_due_spec(times@, created_on, train_data_minutes, train_interval_minutes),
{
    if times.len() < 2 {
        return false;
    }
    let last = times[times.len() - 1];
    let span: i128 = last as i128 - times[0] as i128;
    let minutes: i128 = if span >= 0 {
        span / MINUTE_NS
    } else {
        -((-span) / MINUTE_NS)
    };
    assert(minutes == trunc_div(times@.last() - times@[0], MINUTE_NS as int));
    #[verifier::truncate]
    let buf_minutes: u16 = minutes as u16;
    if buf_minutes < train_data_minutes - 1 {
        return false;
    }
    match created_on {
        None => true,
        Some(c) => last as i128 - c as i128 > train_interval_minutes as i128 * MINUTE_NS,
    }
}

/// How many times at the start of a window come before `bound`: those before the first
/// time that is not.
pub fn leading_before(times: &[i64], bound: i128) -> (r: usize)
    ensures
        r <= times@.len(),
        forall|k: int| 0 <= k < r ==> #[trigger] times@[k] < bound,
        r < times@.len() ==> times@[r as int] >= bound,
{
    let mut n: usize = 0;
    while n < times.len() && (times[n] as i128) < bound
        invariant
            n <= times@.len(),
            forall|k: int| 0 <= k < n ==> #[trigger] times@[k] < bound,
        decreases times@.len() - n,
    {
        n = n + 1;
    }
    n
}

/// The last time of a window that differs from `time`, where there is one.
pub fn last_other_time(times: &[i64], time: i64) -> (r: Option<usize>)
    ensures
        match r {
            Some(k) => k < times@.len() && times@[k as int] != time && forall|m: int|
                k < m < times@.len() ==> #[trigger] times@[m] == time,
            None => forall|m: int| 0 <= m < times@.len() ==> #[trigger] times@[m] == time,
        },
{
    let mut i: usize = times.len();
    while i > 0
        invariant
            i <= times@.len(),
            forall|m: int| i <= m < times@.len() ==> #[trigger] times@[m] == time,
        decreases i,
    {
        if times[i - 1] != time {
            return Some(i - 1);
        }
        i = i - 1;
    }
    None
}

/// How many values at the start of the buffer fall out of the training window: those
/// before the first value that is not more than `train_data_minutes` older than the last
/// value.
pub fn stale_values(times: &[i64], train_data_minutes: u16) -> (r: usize)
    requires
        times@.len() > 0,
    ensures
        r <= times@.len(),
        forall|k: int| 0 <= k < r ==> #[trigger] times@[k] < times@.last() - train_data_minutes * MINUTE_NS,
        r < times@.len() ==> times@[r as int] >= times@.last() - train_data_minutes * MINUTE_NS,
{
    leading_before(times, times[times.len() - 1] as i128 - train_data_minutes as i128 * MINUTE_NS)
}

} // verus!
