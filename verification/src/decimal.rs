//! Exact decimal numbers of the order books.
//!
//! A [`Dec`] holds the two plain values that make up a `rust_decimal::Decimal`: a signed
//! mantissa of at most 96 bits and a scale between 0 and 28.  Its numeric value is
//! `mantissa / 10^scale`.  Comparison is numeric (so `1.0 == 1.00`), exactly as for
//! `Decimal`.  The arithmetic is done by `rust_decimal` itself, through the trusted
//! wrappers at the end of this file.
use rust_decimal::prelude::ToPrimitive;
use rust_decimal::Decimal;
use vstd::prelude::*;
use vstd::std_specs::cmp::PartialEqSpecImpl;

verus! {

/// `rust_decimal::Decimal`, carried through the wrappers below.
#[verifier::external_type_specification]
#[verifier::external_body]
pub struct ExDecimal(Decimal);

/// Ten to the power `n`.
pub open spec fn pow10(n: nat) -> int
    decreases n,
{
    if n == 0 {
        1
    } else {
        10 * pow10((n - 1) as nat)
    }
}

/// The largest scale a decimal may have.
pub const MAX_SCALE: u32 = 28;

/// The bound that a mantissa stays strictly below, in absolute value (2^96).
pub const MANTISSA_BOUND: i128 = 0x1_0000_0000_0000_0000_0000_0000;

/// A (mantissa, scale) pair that a `Decimal` can hold.
pub open spec fn valid_repr(v: (int, int)) -> bool {
    &&& -MANTISSA_BOUND < v.0 < MANTISSA_BOUND
    &&& 0 <= v.1 <= MAX_SCALE
}

/// The numeric value of a (mantissa, scale) pair, counted in units of 10^-28.
/// Every decimal value is a whole number of such units, so two decimals are
/// numerically equal exactly when their unit counts are equal.
pub open spec fn units_of(v: (int, int)) -> int {
    v.0 * pow10((MAX_SCALE - v.1) as nat)
}

/// A `Decimal` as its mantissa and scale.
#[derive(Clone, Copy, Debug)]
pub struct Dec {
    mantissa: i128,
    scale: u32,
}

impl View for Dec {
    type V = (int, int);

    closed spec fn view(&self) -> (int, int) {
        (self.mantissa as int, self.scale as int)
    }
}

impl Dec {
    #[verifier::type_invariant]
    spec fn representable(self) -> bool {
        valid_repr(self@)
    }

    /// The numeric value in units of 10^-28.
    pub open spec fn units(self) -> int {
        units_of(self@)
    }

    /// Whether the value is zero.
    pub open spec fn is_zero_spec(self) -> bool {
        self@.0 == 0
    }

    /// Builds `mantissa / 10^scale`.
    pub fn new(mantissa: i128, scale: u32) -> (d: Dec)
        requires
            valid_repr((mantissa as int, scale as int)),
        ensures
            d@ == (mantissa as int, scale as int),
    {
        Dec { mantissa, scale }
    }

    /// Builds `mantissa / 10^scale`, or `None` where `Decimal` cannot hold it.
    pub fn try_new(mantissa: i128, scale: u32) -> (d: Option<Dec>)
        ensures
            d is Some <==> valid_repr((mantissa as int, scale as int)),
            d matches Some(x) ==> x@ == (mantissa as int, scale as int),
    {
        if -MANTISSA_BOUND < mantissa && mantissa < MANTISSA_BOUND && scale <= MAX_SCALE {
            Some(Dec { mantissa, scale })
        } else {
            None
        }
    }

    /// The whole number `n` with scale 0, as a specification value.
    pub closed spec fn int_spec(n: i64) -> Dec {
        Dec { mantissa: n as i128, scale: 0 }
    }

    /// The whole number `n`, with scale 0 (what `Decimal::from` gives for an integer).
    pub fn from_int(n: i64) -> (d: Dec)
        ensures
            d@ == (n as int, 0int),
            d == Dec::int_spec(n),
    {
        Dec { mantissa: n as i128, scale: 0 }
    }

    /// Zero with scale 0, as a specification value.
    pub closed spec fn zero_spec() -> Dec {
        Dec { mantissa: 0, scale: 0 }
    }

    /// The view of `zero_spec`.
    pub proof fn lemma_zero_spec()
        ensures
            Dec::zero_spec()@ == (0int, 0int),
    {
    }

    /// Zero with scale 0, `Decimal::ZERO`.
    pub fn zero() -> (d: Dec)
        ensures
            d@ == (0int, 0int),
            d == Dec::zero_spec(),
    {
        Dec { mantissa: 0, scale: 0 }
    }

    /// The mantissa.
    pub fn mantissa(&self) -> (m: i128)
        ensures
            m == self@.0,
    {
        self.mantissa
    }

    /// The scale.
    pub fn scale(&self) -> (s: u32)
        ensures
            s == self@.1,
    {
        self.scale
    }

    /// Whether the value is zero, as `Decimal::is_zero`.
    pub fn is_zero(&self) -> (z: bool)
        ensures
            z == self.is_zero_spec(),
            z == (self.units() == 0),
    {
        proof {
            use_type_invariant(self);
            lemma_units_zero(self@);
        }
        self.mantissa == 0
    }

    /// Whether the sign is positive (zero counts as positive), as
    /// `Decimal::is_sign_positive` on a `Decimal` made from this mantissa and scale.
    pub fn is_sign_positive(&self) -> (r: bool)
        ensures
            r == (self@.0 >= 0),
    {
        self.mantissa >= 0
    }

    /// Every decimal is representable.
    pub fn lemma_valid(&self)
        ensures
            valid_repr(self@),
    {
        proof {
            use_type_invariant(self);
        }
    }
}

/// Powers of ten are positive.
pub proof fn lemma_pow10_positive(n: nat)
    ensures
        pow10(n) > 0,
    decreases n,
{
    if n > 0 {
        lemma_pow10_positive((n - 1) as nat);
    }
}

/// A value is zero exactly when its mantissa is zero.
pub proof fn lemma_units_zero(v: (int, int))
    ensures
        (units_of(v) == 0) <==> (v.0 == 0),
{
    let p = pow10((MAX_SCALE - v.1) as nat);
    lemma_pow10_positive((MAX_SCALE - v.1) as nat);
    if v.0 != 0 {
        assert(v.0 * p != 0) by (nonlinear_arith)
            requires
                v.0 != 0,
                p > 0,
        ;
    }
}

/// Whether the first decimal is numerically below the second.
pub open spec fn dec_below(a: Dec, b: Dec) -> bool {
    a.units() < b.units()
}

/// Whether two decimals are numerically equal.
pub open spec fn dec_same(a: Dec, b: Dec) -> bool {
    a.units() == b.units()
}

/// The smaller of two decimals, the first one when they are equal (`Decimal::min`).
pub open spec fn dec_min_spec(a: Dec, b: Dec) -> Dec {
    if dec_below(b, a) {
        b
    } else {
        a
    }
}

/// `Decimal::min`: the smaller one, `a` when they are numerically equal.
pub fn dec_min(a: Dec, b: Dec) -> (r: Dec)
    ensures
        r == dec_min_spec(a, b),
{
    if dec_lt(&b, &a) {
        b
    } else {
        a
    }
}

/// A decimal result, by its mantissa and scale.
pub open spec fn opt_view(o: Option<Dec>) -> Option<(int, int)> {
    match o {
        Some(d) => Some(d@),
        None => None,
    }
}

/// What `Decimal::checked_mul` returns for `a * b`: `None` where `a * b` overflows
/// (where the `*` operator panics), else the product, rounded where it does not fit.
pub uninterp spec fn decimal_product(a: (int, int), b: (int, int)) -> Option<(int, int)>;

/// What `Decimal::checked_add` returns for `a + b`: `None` on overflow.
pub uninterp spec fn decimal_sum(a: (int, int), b: (int, int)) -> Option<(int, int)>;

/// What `Decimal::checked_sub` returns for `a - b`: `None` on overflow.
pub uninterp spec fn decimal_difference(a: (int, int), b: (int, int)) -> Option<(int, int)>;

/// What `Decimal::checked_div` returns for `a / b`: `None` on division by zero or overflow.
pub uninterp spec fn decimal_quotient(a: (int, int), b: (int, int)) -> Option<(int, int)>;

/// Wraps `<Decimal as PartialOrd>::lt`.  The contract claims that `Decimal` orders
/// numerically: `a < b` exactly when `a`'s value is below `b`'s.
#[verifier::external_body]
pub(crate) fn dec_lt(a: &Dec, b: &Dec) -> (r: bool)
    ensures
        r == dec_below(*a, *b),
{
    Decimal::from_i128_with_scale(a.mantissa, a.scale) < Decimal::from_i128_with_scale(
        b.mantissa,
        b.scale,
    )
}

/// Wraps `<Decimal as PartialEq>::eq`.  The contract claims that `Decimal` equality is
/// numeric equality: `1.0 == 1.00`.
#[verifier::external_body]
pub(crate) fn dec_eq(a: &Dec, b: &Dec) -> (r: bool)
    ensures
        r == dec_same(*a, *b),
{
    Decimal::from_i128_with_scale(a.mantissa, a.scale) == Decimal::from_i128_with_scale(
        b.mantissa,
        b.scale,
    )
}

/// Wraps `Decimal::checked_mul`.  The result is named by `decimal_product`.  Besides,
/// the contract claims two facts that `ops/mul.rs` shows: a zero factor gives zero with
/// scale 0, and a product whose mantissa fits in 96 bits, with a scale sum of at most 28,
/// is exact.
#[verifier::external_body]
pub(crate) fn dec_mul(a: Dec, b: Dec) -> (r: Option<Dec>)
    ensures
        opt_view(r) == decimal_product(a@, b@),
        (a@.0 == 0 || b@.0 == 0) ==> opt_view(r) == Some((0int, 0int)),
        (-MANTISSA_BOUND < a@.0 * b@.0 < MANTISSA_BOUND && a@.1 + b@.1 <= MAX_SCALE) ==> opt_view(
            r,
        ) == Some((a@.0 * b@.0, a@.1 + b@.1)),
{
    let x = Decimal::from_i128_with_scale(a.mantissa, a.scale);
    let y = Decimal::from_i128_with_scale(b.mantissa, b.scale);
    match x.checked_mul(y) {
        Some(p) => Some(Dec { mantissa: p.mantissa(), scale: p.scale() }),
        None => None,
    }
}

/// Wraps `Decimal::checked_add`.  The result is named by `decimal_sum`.  Besides, the
/// contract claims what `ops/add.rs` shows: a zero first operand gives the second operand
/// as it is; else a zero second operand gives the first as it is; and two operands of one
/// scale whose mantissa sum fits in 96 bits add exactly.
#[verifier::external_body]
pub(crate) fn dec_add(a: Dec, b: Dec) -> (r: Option<Dec>)
    ensures
        opt_view(r) == decimal_sum(a@, b@),
        a@.0 == 0 ==> opt_view(r) == Some(b@),
        (a@.0 != 0 && b@.0 == 0) ==> opt_view(r) == Some(a@),
        (a@.1 == b@.1 && -MANTISSA_BOUND < a@.0 + b@.0 < MANTISSA_BOUND) ==> opt_view(r) == Some(
            (a@.0 + b@.0, a@.1),
        ),
{
    let x = Decimal::from_i128_with_scale(a.mantissa, a.scale);
    let y = Decimal::from_i128_with_scale(b.mantissa, b.scale);
    match x.checked_add(y) {
        Some(p) => Some(Dec { mantissa: p.mantissa(), scale: p.scale() }),
        None => None,
    }
}

/// Wraps `Decimal::checked_sub`.  The result is named by `decimal_difference`.  Besides,
/// the contract claims what `ops/add.rs` shows: subtracting from zero gives the second
/// operand negated, with its scale; else subtracting zero gives the first operand as it
/// is; and two operands of one scale whose mantissa difference fits in 96 bits subtract
/// exactly.
#[verifier::external_body]
pub(crate) fn dec_sub(a: Dec, b: Dec) -> (r: Option<Dec>)
    ensures
        opt_view(r) == decimal_difference(a@, b@),
        a@.0 == 0 ==> opt_view(r) == Some((-b@.0, b@.1)),
        (a@.0 != 0 && b@.0 == 0) ==> opt_view(r) == Some(a@),
        (a@.1 == b@.1 && -MANTISSA_BOUND < a@.0 - b@.0 < MANTISSA_BOUND) ==> opt_view(r) == Some(
            (a@.0 - b@.0, a@.1),
        ),
{
    let x = Decimal::from_i128_with_scale(a.mantissa, a.scale);
    let y = Decimal::from_i128_with_scale(b.mantissa, b.scale);
    match x.checked_sub(y) {
        Some(p) => Some(Dec { mantissa: p.mantissa(), scale: p.scale() }),
        None => None,
    }
}

/// Wraps `Decimal::checked_div`.  The result is named by `decimal_quotient`.  Besides,
/// the contract claims what `ops/div.rs` shows: a zero divisor gives `None`, and a zero
/// dividend over a non-zero divisor gives zero with scale 0.
#[verifier::external_body]
pub(crate) fn dec_div(a: Dec, b: Dec) -> (r: Option<Dec>)
    ensures
        opt_view(r) == decimal_quotient(a@, b@),
        b@.0 == 0 ==> r is None,
        (a@.0 == 0 && b@.0 != 0) ==> opt_view(r) == Some((0int, 0int)),
{
    let x = Decimal::from_i128_with_scale(a.mantissa, a.scale);
    let y = Decimal::from_i128_with_scale(b.mantissa, b.scale);
    match x.checked_div(y) {
        Some(p) => Some(Dec { mantissa: p.mantissa(), scale: p.scale() }),
        None => None,
    }
}

/// What `<Decimal as FromStr>::from_str` reads from a text: `None` where the text is not
/// a decimal number `Decimal` can hold.
pub uninterp spec fn decimal_from_text(s: Seq<char>) -> Option<(int, int)>;

/// Wraps `<Decimal as FromStr>::from_str`.  The result is named by `decimal_from_text`;
/// nothing more is claimed of it.
#[verifier::external_body]
pub(crate) fn dec_parse(s: &str) -> (r: Option<Dec>)
    ensures
        opt_view(r) == decimal_from_text(s@),
{
    match s.parse::<Decimal>() {
        Ok(p) => Some(Dec { mantissa: p.mantissa(), scale: p.scale() }),
        Err(_) => None,
    }
}

/// The whole part of a decimal, rounded toward zero, where it fits in an `i64`: what
/// `ToPrimitive::to_i64` gives for a `Decimal`.
pub open spec fn to_i64_spec(v: (int, int)) -> Option<i64> {
    let whole = crate::clock::trunc_div(v.0, pow10(v.1 as nat));
    if i64::MIN <= whole <= i64::MAX {
        Some(whole as i64)
    } else {
        None
    }
}

/// Wraps `<Decimal as ToPrimitive>::to_i64`.  The contract claims what `decimal.rs`
/// shows: the value is truncated toward zero (`trunc`), and the result is `None` where it
/// does not fit in an `i64`.
#[verifier::external_body]
pub(crate) fn dec_to_i64(d: Dec) -> (r: Option<i64>)
    ensures
        r == to_i64_spec(d@),
{
    Decimal::from_i128_with_scale(d.mantissa, d.scale).to_i64()
}

/// `decimal_product` on results that may already have failed.
pub open spec fn product_of(a: Option<(int, int)>, b: Option<(int, int)>) -> Option<(int, int)> {
    match (a, b) {
        (Some(x), Some(y)) => decimal_product(x, y),
        _ => None,
    }
}

/// `decimal_sum` on results that may already have failed.
pub open spec fn sum_of(a: Option<(int, int)>, b: Option<(int, int)>) -> Option<(int, int)> {
    match (a, b) {
        (Some(x), Some(y)) => decimal_sum(x, y),
        _ => None,
    }
}

/// `decimal_difference` on results that may already have failed.
pub open spec fn difference_of(a: Option<(int, int)>, b: Option<(int, int)>) -> Option<(int, int)> {
    match (a, b) {
        (Some(x), Some(y)) => decimal_difference(x, y),
        _ => None,
    }
}

/// `decimal_quotient` on results that may already have failed.
pub open spec fn quotient_of(a: Option<(int, int)>, b: Option<(int, int)>) -> Option<(int, int)> {
    match (a, b) {
        (Some(x), Some(y)) => decimal_quotient(x, y),
        _ => None,
    }
}

impl PartialEq for Dec {
    fn eq(&self, other: &Dec) -> (r: bool) {
        dec_eq(self, other)
    }
}

impl PartialEqSpecImpl for Dec {
    open spec fn obeys_eq_spec() -> bool {
        true
    }

    open spec fn eq_spec(&self, other: &Dec) -> bool {
        dec_same(*self, *other)
    }
}

} // verus!
