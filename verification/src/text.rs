//! Plain-text output: numbers in decimal, joined lists, the CSV header of an instrument,
//! and the statistics tables.
use vstd::prelude::*;
use vstd::string::{StrSliceExecFns, StringExecFns};

verus! {

/// The decimal digit `d`.
pub open spec fn digit_char(d: int) -> char {
    if d == 0 {
        '0'
    } else if d == 1 {
        '1'
    } else if d == 2 {
        '2'
    } else if d == 3 {
        '3'
    } else if d == 4 {
        '4'
    } else if d == 5 {
        '5'
    } else if d == 6 {
        '6'
    } else if d == 7 {
        '7'
    } else if d == 8 {
        '8'
    } else {
        '9'
    }
}

/// A number written in decimal, as `Display` writes an unsigned integer.
pub open spec fn decimal_text(n: nat) -> Seq<char>
    decreases n,
{
    if n < 10 {
        seq![digit_char(n as int)]
    } else {
        decimal_text(n / 10) + seq![digit_char((n % 10) as int)]
    }
}

fn digit_text(d: u64) -> (r: &'static str)
    requires
        d < 10,
    ensures
        r@ == seq![digit_char(d as int)],
{
    proof {
        reveal_strlit("0");
        reveal_strlit("1");
        reveal_strlit("2");
        reveal_strlit("3");
        reveal_strlit("4");
        reveal_strlit("5");
        reveal_strlit("6");
        reveal_strlit("7");
        reveal_strlit("8");
        reveal_strlit("9");
    }
    match d {
        0 => "0",
        1 => "1",
        2 => "2",
        3 => "3",
        4 => "4",
        5 => "5",
        6 => "6",
        7 => "7",
        8 => "8",
        _ => "9",
    }
}

/// Appends `n` in decimal to `out`.
pub fn push_decimal(out: &mut String, n: u64)
    ensures
        final(out)@ == old(out)@ + decimal_text(n as nat),
    decreases n,
{
    if n < 10 {
        out.append(digit_text(n));
    } else {
        push_decimal(out, n / 10);
        out.append(digit_text(n % 10));
        assert(decimal_text(n as nat) == decimal_text((n / 10) as nat) + seq![
            digit_char((n % 10) as int),
        ]);
    }
}

/// Parts joined by a separator.
pub open spec fn join(parts: Seq<Seq<char>>, sep: Seq<char>) -> Seq<char>
    decreases parts.len(),
{
    if parts.len() == 0 {
        Seq::empty()
    } else if parts.len() == 1 {
        parts[0]
    } else {
        join(parts.drop_last(), sep) + sep + parts.last()
    }
}

/// The views of a list of strings.
pub open spec fn texts(v: Seq<String>) -> Seq<Seq<char>> {
    v.map_values(|s: String| s@)
}

/// Joins strings with a separator, as `[String]::join`.
pub fn join_strings(parts: &Vec<String>, sep: &str) -> (r: String)
    ensures
        r@ == join(texts(parts@), sep@),
{
    let mut out = String::new();
    let mut i: usize = 0;
    while i < parts.len()
        invariant
            i <= parts@.len(),
            out@ == join(texts(parts@.take(i as int)), sep@),
        decreases parts@.len() - i,
    {
        let ghost before = texts(parts@.take(i as int));
        assert(texts(parts@.take(i + 1)).drop_last() =~= before);
        assert(texts(parts@.take(i + 1)).last() == parts@[i as int]@);
        if i > 0 {
            out.append(sep);
        }
        out.append(parts[i].as_str());
        if i == 0 {
            assert(texts(parts@.take(1)) =~= seq![parts@[0]@]);
            assert(out@ =~= parts@[0]@);
        }
        i = i + 1;
    }
    assert(parts@.take(parts@.len() as int) =~= parts@);
    out
}

/// The numbers of order-book levels over which the imbalances are taken.
pub open spec fn imbalance_levels() -> Seq<usize> {
    seq![3, 5, 10, 20, 50]
}

/// The imbalance columns for the first `n` level counts.
pub open spec fn imbalance_columns(ticker: Seq<char>, n: int) -> Seq<char>
    decreases n,
{
    if n <= 0 {
        Seq::empty()
    } else {
        imbalance_columns(ticker, n - 1) + ","@ + ticker + " imbalance_"@ + decimal_text(
            imbalance_levels()[n - 1] as nat,
        )
    }
}

/// The CSV header of an instrument's order-book values.
pub open spec fn csv_header_spec(ticker: Seq<char>) -> Seq<char> {
    ticker + " time,"@ + ticker + " bid,"@ + ticker + " ask,"@ + ticker + " mid,"@ + ticker
        + " micro,"@ + ticker + " micro-mid"@ + imbalance_columns(ticker, 5)
}

/// The CSV header of an instrument's order-book values: time, bid, ask, mid, micro and
/// micro-mid, then one imbalance column for each of 3, 5, 10, 20 and 50 levels, each
/// headed by the ticker.
pub fn instrument_csv_header(ticker: &str) -> (r: String)
    ensures
        r@ == csv_header_spec(ticker@),
{
    let mut header = String::new();
    header.append(ticker);
    header.append(" time,");
    header.append(ticker);
    header.append(" bid,");
    header.append(ticker);
    header.append(" ask,");
    header.append(ticker);
    header.append(" mid,");
    header.append(ticker);
    header.append(" micro,");
    header.append(ticker);
    header.append(" micro-mid");
    let ghost start = header@;
    let levels: Vec<usize> = vec![3, 5, 10, 20, 50];
    assert(levels@ =~= imbalance_levels());
    let mut i: usize = 0;
    while i < levels.len()
        invariant
            i <= 5,
            levels@ == imbalance_levels(),
            header@ == start + imbalance_columns(ticker@, i as int),
        decreases 5 - i,
    {
        header.append(",");
        header.append(ticker);
        header.append(" imbalance_");
        push_decimal(&mut header, levels[i] as u64);
        assert(header@ =~= start + imbalance_columns(ticker@, i + 1));
        i = i + 1;
    }
    assert(header@ =~= csv_header_spec(ticker@));
    header
}

/// The fields of the CSV header of an instrument's order-book values, in order: six
/// value columns, then one imbalance column for each level count.
pub open spec fn csv_header_fields(ticker: Seq<char>) -> Seq<Seq<char>> {
    seq![
        ticker + " time"@,
        ticker + " bid"@,
        ticker + " ask"@,
        ticker + " mid"@,
        ticker + " micro"@,
        ticker + " micro-mid"@,
    ] + Seq::new(
        5,
        |j: int| ticker + " imbalance_"@ + decimal_text(imbalance_levels()[j] as nat),
    )
}

/// The value columns of the header, before the imbalance columns.
pub open spec fn csv_value_columns(ticker: Seq<char>) -> Seq<char> {
    ticker + " time,"@ + ticker + " bid,"@ + ticker + " ask,"@ + ticker + " mid,"@ + ticker
        + " micro,"@ + ticker + " micro-mid"@
}

#[verifier::spinoff_prover]
#[verifier::rlimit(40)]
proof fn lemma_csv_value_columns_join(ticker: Seq<char>)
    ensures
        join(csv_header_fields(ticker).take(6), ","@) == csv_value_columns(ticker),
{
    let f = csv_header_fields(ticker);
    reveal_strlit(" time");
    reveal_strlit(" bid");
    reveal_strlit(" ask");
    reveal_strlit(" mid");
    reveal_strlit(" micro");
    reveal_strlit(" micro-mid");
    reveal_strlit(" time,");
    reveal_strlit(" bid,");
    reveal_strlit(" ask,");
    reveal_strlit(" mid,");
    reveal_strlit(" micro,");
    reveal_strlit(",");
    assert(f.take(6).drop_last() =~= f.take(5));
    assert(f.take(5).drop_last() =~= f.take(4));
    assert(f.take(4).drop_last() =~= f.take(3));
    assert(f.take(3).drop_last() =~= f.take(2));
    assert(f.take(2).drop_last() =~= f.take(1));
    assert(join(f.take(1), ","@) == f[0]);
    assert(join(f.take(2), ","@) == f[0] + ","@ + f[1]);
    assert(join(f.take(3), ","@) == f[0] + ","@ + f[1] + ","@ + f[2]);
    assert(join(f.take(4), ","@) == f[0] + ","@ + f[1] + ","@ + f[2] + ","@ + f[3]);
    assert(join(f.take(5), ","@) == f[0] + ","@ + f[1] + ","@ + f[2] + ","@ + f[3] + ","@ + f[4]);
    assert(join(f.take(6), ","@) == f[0] + ","@ + f[1] + ","@ + f[2] + ","@ + f[3] + ","@ + f[4] + ","@
        + f[5]);
    assert(f[0] + ","@ + f[1] + ","@ + f[2] + ","@ + f[3] + ","@ + f[4] + ","@ + f[5]
        =~= csv_value_columns(ticker));
}

#[verifier::spinoff_prover]
proof fn lemma_csv_header_join(ticker: Seq<char>, n: int)
    requires
        0 <= n <= 5,
    ensures
        join(csv_header_fields(ticker).take(6 + n), ","@) == csv_value_columns(ticker)
            + imbalance_columns(ticker, n),
    decreases n,
{
    let f = csv_header_fields(ticker);
    if n == 0 {
        lemma_csv_value_columns_join(ticker);
        assert(imbalance_columns(ticker, 0) =~= Seq::<char>::empty());
        assert(csv_value_columns(ticker) + imbalance_columns(ticker, 0) =~= csv_value_columns(ticker));
    } else {
        lemma_csv_header_join(ticker, n - 1);
        reveal_strlit(",");
        assert(f.take(6 + n).drop_last() =~= f.take(6 + n - 1));
        assert(f.take(6 + n).last() == f[6 + n - 1]);
        assert(csv_value_columns(ticker) + imbalance_columns(ticker, n) =~= csv_value_columns(ticker)
            + imbalance_columns(ticker, n - 1) + ","@ + f[6 + n - 1]);
    }
}

/// The law of the instrument CSV header: it is its fields joined by commas, eleven in
/// all (six value columns and one imbalance column for each of the five level counts),
/// and each field starts with the ticker and a space.  Where the ticker has no comma, no
/// field has one, so the header splits at its commas into exactly these fields.
pub proof fn law_csv_header_fields(ticker: Seq<char>)
    ensures
        csv_header_spec(ticker) == join(csv_header_fields(ticker), ","@),
        csv_header_fields(ticker).len() == 11,
        forall|k: int|
            0 <= k < 11 ==> (#[trigger] csv_header_fields(ticker)[k]).take(ticker.len() + 1int) == ticker
                + " "@,
        !ticker.contains(',') ==> forall|k: int|
            0 <= k < 11 ==> !(#[trigger] csv_header_fields(ticker)[k]).contains(','),
{
    let f = csv_header_fields(ticker);
    lemma_csv_header_join(ticker, 5);
    assert(f.take(11) =~= f);
    assert(csv_header_spec(ticker) =~= csv_value_columns(ticker) + imbalance_columns(ticker, 5));
    reveal_strlit(" time");
    reveal_strlit(" bid");
    reveal_strlit(" ask");
    reveal_strlit(" mid");
    reveal_strlit(" micro");
    reveal_strlit(" micro-mid");
    reveal_strlit(" imbalance_");
    reveal_strlit(" ");
    assert forall|k: int| 0 <= k < 11 implies (#[trigger] f[k]).take(ticker.len() + 1int) == ticker
        + " "@ by {
        assert(f[k].take(ticker.len() + 1int) =~= ticker + " "@);
    }
    if !ticker.contains(',') {
        assert forall|k: int| 0 <= k < 11 implies !(#[trigger] f[k]).contains(',') by {
            if k >= 6 {
                lemma_decimal_text_value(imbalance_levels()[k - 6] as nat);
            }
            if f[k].contains(',') {
                let i = choose|i: int| 0 <= i < f[k].len() && f[k][i] == ',';
                if i < ticker.len() {
                    assert(ticker[i] == ',');
                    assert(ticker.contains(','));
                } else if k >= 6 && i >= ticker.len() + 11 {
                    let d = decimal_text(imbalance_levels()[k - 6] as nat);
                    assert(d[i - ticker.len() - 11] == ',');
                    assert(is_digit(d[i - ticker.len() - 11]));
                }
            }
        }
    }
}

/// A signed number written in decimal, as `Display` writes an integer.
pub open spec fn int_text(n: int) -> Seq<char> {
    if n < 0 {
        seq!['-'] + decimal_text((-n) as nat)
    } else {
        decimal_text(n as nat)
    }
}

/// Appends `n` in decimal to `out`.
pub fn push_i16(out: &mut String, n: i16)
    ensures
        final(out)@ == old(out)@ + int_text(n as int),
{
    proof {
        reveal_strlit("-");
    }
    if n < 0 {
        out.append("-");
        let m: i32 = -(n as i32);
        push_decimal(out, m as u64);
    } else {
        push_decimal(out, n as u64);
    }
}

/// Appends `n` in decimal to `out`.
pub fn push_i64(out: &mut String, n: i64)
    ensures
        final(out)@ == old(out)@ + int_text(n as int),
{
    proof {
        reveal_strlit("-");
    }
    if n < 0 {
        out.append("-");
        let m: u64 = (-(n as i128)) as u64;
        push_decimal(out, m);
    } else {
        push_decimal(out, n as u64);
    }
}

/// The characters of a string.
pub fn chars_of(s: &str) -> (r: Vec<char>)
    ensures
        r@ == s@,
{
    let n = s.unicode_len();
    let mut r: Vec<char> = Vec::new();
    let mut i: usize = 0;
    while i < n
        invariant
            n == s@.len(),
            i <= n,
            r@ == s@.take(i as int),
        decreases n - i,
    {
        r.push(s.get_char(i));
        i = i + 1;
        assert(r@ =~= s@.take(i as int));
    }
    assert(s@.take(n as int) =~= s@);
    r
}

/// Whether `s` ends with `suffix`.
pub open spec fn ends_with(s: Seq<char>, suffix: Seq<char>) -> bool {
    suffix.len() <= s.len() && s.subrange(s.len() - suffix.len(), s.len() as int) == suffix
}

/// Whether the characters end with `suffix`.
pub fn chars_end_with(s: &Vec<char>, suffix: &Vec<char>) -> (r: bool)
    ensures
        r == ends_with(s@, suffix@),
{
    if suffix.len() > s.len() {
        return false;
    }
    let n = s.len();
    let offset = n - suffix.len();
    let mut i: usize = 0;
    while i < suffix.len()
        invariant
            n == s@.len(),
            offset + suffix@.len() == n,
            i <= suffix@.len(),
            forall|j: int| 0 <= j < i ==> #[trigger] suffix@[j] == s@[offset + j],
        decreases suffix@.len() - i,
    {
        if s[offset + i] != suffix[i] {
            assert(s@.subrange(offset as int, s@.len() as int)[i as int] != suffix@[i as int]);
            return false;
        }
        i = i + 1;
    }
    assert(s@.subrange(offset as int, s@.len() as int) =~= suffix@);
    true
}

/// The part of `s` before its first '.', or all of `s` where it has none.
pub open spec fn before_dot(s: Seq<char>) -> Seq<char>
    decreases s.len(),
{
    if s.len() == 0 {
        s
    } else if s[0] == '.' {
        Seq::empty()
    } else {
        seq![s[0]] + before_dot(s.drop_first())
    }
}

/// The length of the part of `s` before its first '.'.
pub fn before_dot_len(s: &Vec<char>) -> (r: usize)
    ensures
        r <= s@.len(),
        s@.take(r as int) == before_dot(s@),
{
    let mut i: usize = 0;
    assert(s@.skip(0) =~= s@);
    assert(s@.take(0) + before_dot(s@) =~= before_dot(s@));
    while i < s.len() && s[i] != '.'
        invariant
            i <= s@.len(),
            before_dot(s@) == s@.take(i as int) + before_dot(s@.skip(i as int)),
        decreases s@.len() - i,
    {
        let ghost rest = s@.skip(i as int);
        assert(rest.drop_first() =~= s@.skip(i + 1));
        assert(s@.take(i + 1) =~= s@.take(i as int) + seq![s@[i as int]]);
        i = i + 1;
    }
    assert(before_dot(s@.skip(i as int)) =~= Seq::<char>::empty());
    assert(s@.take(i as int) + Seq::<char>::empty() =~= s@.take(i as int));
    i
}

/// Whether `c` is a decimal digit.
pub open spec fn is_digit(c: char) -> bool {
    '0' <= c && c <= '9'
}

/// The value of a string of decimal digits.
pub open spec fn digits_value(s: Seq<char>) -> int
    decreases s.len(),
{
    if s.len() == 0 {
        0
    } else {
        digits_value(s.drop_last()) * 10 + (s.last() as int - '0' as int)
    }
}

/// Whether every character of `s` is a decimal digit.
pub open spec fn all_digits(s: Seq<char>) -> bool {
    forall|i: int| 0 <= i < s.len() ==> is_digit(#[trigger] s[i])
}

/// What `str::parse` reads as an integer: an optional '+' or '-', then one or more
/// decimal digits, and nothing else.
pub open spec fn integer_text_value(s: Seq<char>) -> Option<int> {
    if s.len() > 0 && (s[0] == '+' || s[0] == '-') {
        let d = s.drop_first();
        if d.len() > 0 && all_digits(d) {
            Some(
                if s[0] == '-' {
                    -digits_value(d)
                } else {
                    digits_value(d)
                },
            )
        } else {
            None
        }
    } else if s.len() > 0 && all_digits(s) {
        Some(digits_value(s))
    } else {
        None
    }
}

/// What `str::parse::<i16>` gives: the integer, where it fits in an `i16`.
pub open spec fn parse_i16_spec(s: Seq<char>) -> Option<i16> {
    match integer_text_value(s) {
        Some(v) => if i16::MIN <= v <= i16::MAX {
            Some(v as i16)
        } else {
            None
        },
        None => None,
    }
}

proof fn lemma_digits_nonnegative(s: Seq<char>)
    requires
        all_digits(s),
    ensures
        digits_value(s) >= 0,
    decreases s.len(),
{
    if s.len() > 0 {
        assert(is_digit(s[s.len() - 1]));
        lemma_digits_nonnegative(s.drop_last());
    }
}

/// Parses the first `end` characters as an `i16`, as `str::parse::<i16>` does.
pub fn parse_i16_prefix(s: &Vec<char>, end: usize) -> (r: Option<i16>)
    requires
        end <= s@.len(),
    ensures
        r == parse_i16_spec(s@.take(end as int)),
{
    let ghost t = s@.take(end as int);
    if end == 0 {
        return None;
    }
    assert(t[0] == s@[0] && t.len() == end);
    let negative = s[0] == '-';
    let signed = negative || s[0] == '+';
    let start: usize = if signed {
        1
    } else {
        0
    };
    if start == end {
        return None;
    }
    let ghost body = s@.subrange(start as int, end as int);
    assert(signed ==> body =~= t.drop_first());
    assert(!signed ==> body =~= t);
    let cap: u32 = 100000;
    let mut acc: u32 = 0;
    let mut i: usize = start;
    while i < end
        invariant
            start <= i <= end,
            end <= s@.len(),
            body == s@.subrange(start as int, end as int),
            t == s@.take(end as int),
            t.len() == end,
            end > 0,
            signed == (t[0] == '+' || t[0] == '-'),
            signed ==> body == t.drop_first(),
            !signed ==> body == t,
            cap == 100000,
            all_digits(s@.subrange(start as int, i as int)),
            acc as int == if digits_value(s@.subrange(start as int, i as int)) < cap {
                digits_value(s@.subrange(start as int, i as int))
            } else {
                cap as int
            },
        decreases end - i,
    {
        let c = s[i];
        let ghost prefix = s@.subrange(start as int, i as int);
        let ghost next = s@.subrange(start as int, i + 1);
        assert(next.drop_last() =~= prefix);
        if !('0' <= c && c <= '9') {
            assert(!all_digits(body)) by {
                assert(body[i - start] == c);
            }
            assert(integer_text_value(t) is None);
            return None;
        }
        proof {
            lemma_digits_nonnegative(prefix);
        }
        let d: u32 = (c as u32) - ('0' as u32);
        acc = if acc >= cap {
            cap
        } else if acc * 10 + d >= cap {
            cap
        } else {
            acc * 10 + d
        };
        i = i + 1;
        assert forall|j: int| 0 <= j < next.len() implies is_digit(#[trigger] next[j]) by {
            if j < prefix.len() {
                assert(next[j] == prefix[j]);
            }
        }
    }
    assert(body =~= s@.subrange(start as int, end as int));
    if negative {
        if acc <= 32768 {
            let v: i32 = -(acc as i32);
            Some(v as i16)
        } else {
            None
        }
    } else {
        if acc <= 32767 {
            Some(acc as i16)
        } else {
            None
        }
    }
}

proof fn lemma_digit_char(d: int)
    requires
        0 <= d < 10,
    ensures
        is_digit(digit_char(d)),
        digit_char(d) as int - '0' as int == d,
{
    assert('0' as int == 48 && '1' as int == 49 && '2' as int == 50 && '3' as int == 51 && '4' as int
        == 52 && '5' as int == 53 && '6' as int == 54 && '7' as int == 55 && '8' as int == 56
        && '9' as int == 57);
}

/// The digits of a number in decimal read back as that number.
pub proof fn lemma_decimal_text_value(n: nat)
    ensures
        decimal_text(n).len() > 0,
        all_digits(decimal_text(n)),
        digits_value(decimal_text(n)) == n,
    decreases n,
{
    let t = decimal_text(n);
    if n < 10 {
        lemma_digit_char(n as int);
        assert(t.drop_last() =~= Seq::<char>::empty());
        assert(is_digit(t[0]));
        assert(digits_value(t) == digits_value(Seq::<char>::empty()) * 10 + (t.last() as int - '0' as int));
    } else {
        lemma_digit_char((n % 10) as int);
        lemma_decimal_text_value(n / 10);
        let d = digit_char((n % 10) as int);
        assert(t.drop_last() =~= decimal_text(n / 10));
        assert(t.last() == d);
        assert(is_digit(d));
        assert(digits_value(t) == digits_value(decimal_text(n / 10)) * 10 + (d as int - '0' as int));
        assert((n / 10) * 10 + n % 10 == n) by (nonlinear_arith);
        assert forall|i: int| 0 <= i < t.len() implies is_digit(#[trigger] t[i]) by {
            if i < t.len() - 1 {
                assert(t[i] == decimal_text(n / 10)[i]);
            }
        }
    }
}

/// A number written in decimal reads back, as `str::parse` reads it, as that number.
pub proof fn lemma_int_text_value(n: int)
    ensures
        integer_text_value(int_text(n)) == Some(n),
        all_digits(int_text(n).drop_first()),
        int_text(n).len() > 0,
{
    if n < 0 {
        lemma_decimal_text_value((-n) as nat);
        assert(int_text(n).drop_first() =~= decimal_text((-n) as nat));
    } else {
        lemma_decimal_text_value(n as nat);
        let t = decimal_text(n as nat);
        assert(is_digit(t[0]));
        assert forall|i: int| 0 <= i < t.drop_first().len() implies is_digit(
            #[trigger] t.drop_first()[i],
        ) by {
            assert(t.drop_first()[i] == t[i + 1]);
        }
    }
}

/// The part before the first '.' of a text that starts with a part without '.'.
pub proof fn lemma_before_dot_concat(a: Seq<char>, b: Seq<char>)
    requires
        forall|i: int| 0 <= i < a.len() ==> a[i] != '.',
    ensures
        before_dot(a + b) == a + before_dot(b),
    decreases a.len(),
{
    if a.len() == 0 {
        assert(a + b =~= b);
        assert(a + before_dot(b) =~= before_dot(b));
    } else {
        assert((a + b).drop_first() =~= a.drop_first() + b);
        assert((a + b)[0] == a[0]);
        lemma_before_dot_concat(a.drop_first(), b);
        assert(a =~= seq![a[0]] + a.drop_first());
        assert(seq![a[0]] + (a.drop_first() + before_dot(b)) =~= a + before_dot(b));
    }
}

} // verus!
