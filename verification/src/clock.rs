//! Times and integer division: nanosecond times as whole milliseconds or microseconds,
//! as `chrono` gives them, and division rounded toward zero, as `/` on integers.
use vstd::prelude::*;

verus! {

/// A time in nanoseconds as whole milliseconds, rounded down (`timestamp_millis`).
pub open spec fn millis(ns: int) -> int {
    ns / 1_000_000
}

/// The absolute value.
pub open spec fn abs(x: int) -> int {
    if x < 0 {
        -x
    } else {
        x
    }
}

/// Integer division rounded toward zero, as `/` on `i64`.
pub open spec fn trunc_div(a: int, b: int) -> int {
    if (a >= 0) == (b > 0) {
        abs(a) / abs(b)
    } else {
        -(abs(a) / abs(b))
    }
}

/// A time in nanoseconds as whole microseconds, rounded down (`timestamp_micros`).
pub open spec fn micros(ns: int) -> int {
    ns / 1_000
}

/// A time in nanoseconds as whole milliseconds, rounded down.
pub fn floor_millis(ns: i64) -> (r: i64)
    ensures
        r == millis(ns as int),
        -9_223_372_036_855 <= r <= 9_223_372_036_854,
{
    if ns >= 0 {
        let r = ns / 1_000_000;
        assert(r == millis(ns as int));
        r
    } else {
        let m: i64 = -(ns + 1);
        let q = m / 1_000_000;
        assert(-q - 1 == millis(ns as int)) by (nonlinear_arith)
            requires
                m == -(ns + 1),
                q == m / 1_000_000,
                m >= 0,
        ;
        -q - 1
    }
}

/// Division rounded toward zero.
pub fn trunc_div_i64(a: i64, b: i64) -> (r: i64)
    requires
        b != 0,
        a > i64::MIN,
        b > i64::MIN,
    ensures
        r == trunc_div(a as int, b as int),
{
    let ua: u64 = if a >= 0 {
        a as u64
    } else {
        (-a) as u64
    };
    let ub: u64 = if b >= 0 {
        b as u64
    } else {
        (-b) as u64
    };
    let q: u64 = ua / ub;
    assert(q <= ua) by (nonlinear_arith)
        requires
            ub >= 1,
            q == ua / ub,
    ;
    assert(ua == abs(a as int) && ub == abs(b as int));
    if (a >= 0) == (b > 0) {
        q as i64
    } else {
        -(q as i64)
    }
}

/// A time in nanoseconds as whole microseconds, rounded down.
pub fn floor_micros(ns: i64) -> (r: i64)
    ensures
        r == micros(ns as int),
        -9_223_372_036_854_776 <= r <= 9_223_372_036_854_775,
{
    if ns >= 0 {
        let r = ns / 1_000;
        assert(r == micros(ns as int));
        r
    } else {
        let m: i64 = -(ns + 1);
        let q = m / 1_000;
        assert(-q - 1 == micros(ns as int)) by (nonlinear_arith)
            requires
                m == -(ns + 1),
                q == m / 1_000,
                m >= 0,
        ;
        -q - 1
    }
}

} // verus!
