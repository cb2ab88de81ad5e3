//! Reading ISO 8601 duration text (`[+-]PnDTnHnMnS`) back into a duration.

use vstd::prelude::*;

use crate::decimal::{
    all_digits, digit_value, is_digit, lemma_pow10_add, lemma_pow10_pos, lemma_value_bound, pow10, value_of,
};
use crate::duration::{max_secs, Duration};
use crate::text::chars_of;

verus! {

pub open spec fn is_sign(c: char) -> bool {
    c == '+' || c == '-'
}

/// The index where the run of digits that starts at `i` ends.
pub open spec fn digits_end(s: Seq<char>, i: int) -> int
    decreases s.len() - i,
{
    if 0 <= i < s.len() && is_digit(s[i]) {
        digits_end(s, i + 1)
    } else {
        i
    }
}

/// Whether `s[i]` exists and is `c`.
pub open spec fn char_at(s: Seq<char>, i: int, c: char) -> bool {
    0 <= i < s.len() && s[i] == c
}

/// A signed integer that starts at `i`, with at least one digit: its value and the
/// index after it.
pub open spec fn number_at(s: Seq<char>, i: int) -> Option<(int, int)> {
    let st = if 0 <= i < s.len() && is_sign(s[i]) {
        i + 1
    } else {
        i
    };
    let e = digits_end(s, st);
    let mag = value_of(s.subrange(st, e));
    if e == st {
        None
    } else {
        Some((if char_at(s, i, '-') { -mag } else { mag }, e))
    }
}

/// A field `<number><c>` that starts at `i`: its value and the index after it.
pub open spec fn field_at(s: Seq<char>, i: int, c: char) -> Option<(int, int)> {
    match number_at(s, i) {
        Some((v, e)) => if char_at(s, e, c) {
            Some((v, e + 1))
        } else {
            None
        },
        None => None,
    }
}

/// A seconds field `<number>[(.|,)<1 to 9 digits>]S` that starts at `i`: its value
/// in nanoseconds and the index after it. The fraction always adds to the value.
pub open spec fn seconds_at(s: Seq<char>, i: int) -> Option<(int, int)> {
    match number_at(s, i) {
        Some((v, e)) => if char_at(s, e, 'S') {
            Some((v * 1_000_000_000, e + 1))
        } else if char_at(s, e, '.') || char_at(s, e, ',') {
            let fe = digits_end(s, e + 1);
            let k = fe - (e + 1);
            if 1 <= k <= 9 && char_at(s, fe, 'S') {
                Some(
                    (
                        v * 1_000_000_000 + value_of(s.subrange(e + 1, fe)) * pow10(
                            (9 - k) as nat,
                        ),
                        fe + 1,
                    ),
                )
            } else {
                None
            }
        } else {
            None
        },
        None => None,
    }
}

/// An optional field: its value if it is there, and the index after it.
pub open spec fn opt_field(f: Option<(int, int)>, i: int) -> (Option<int>, int) {
    match f {
        Some((v, e)) => (Some(v), e),
        None => (None, i),
    }
}

pub open spec fn or_zero(v: Option<int>) -> int {
    match v {
        Some(x) => x,
        None => 0,
    }
}

/// The nanoseconds that the text `s` writes, when it is a duration in the grammar
/// `[+-]P[<n>D][T[<n>H][<n>M][<n>[(.|,)<digits>]S]]`, where a time block
/// with no field needs a day field before it. The leading sign is read and ignored.
pub open spec fn total_of(s: Seq<char>) -> Option<int> {
    let p = if 0 < s.len() && is_sign(s[0]) {
        1int
    } else {
        0int
    };
    if !char_at(s, p, 'P') {
        None
    } else {
        let (days, i1) = opt_field(field_at(s, p + 1, 'D'), p + 1);
        if i1 == s.len() {
            Some(or_zero(days) * 86_400_000_000_000)
        } else if s[i1] != 'T' {
            None
        } else {
            let (hours, i2) = opt_field(field_at(s, i1 + 1, 'H'), i1 + 1);
            let (mins, i3) = opt_field(field_at(s, i2, 'M'), i2);
            let (secs, i4) = opt_field(seconds_at(s, i3), i3);
            if i4 != s.len() {
                None
            } else if days is None && hours is None && mins is None && secs is None {
                None
            } else {
                Some(
                    or_zero(days) * 86_400_000_000_000 + or_zero(hours) * 3_600_000_000_000
                        + or_zero(mins) * 60_000_000_000 + or_zero(secs),
                )
            }
        }
    }
}

/// Whether `t` nanoseconds can be held by a duration.
pub open spec fn in_range(t: int) -> bool {
    0 <= t < (max_secs() + 1) * 1_000_000_000
}

/// The duration that the text `s` writes, or `None` when it is not duration text or
/// its total is negative or too large.
pub open spec fn parse_iso(s: Seq<char>) -> Option<Duration> {
    match total_of(s) {
        Some(t) => if in_range(t) {
            Some(Duration::of_nanos(t))
        } else {
            None
        },
        None => None,
    }
}

fn is_digit_char(c: char) -> (r: bool)
    ensures
        r == is_digit(c),
{
    '0' <= c && c <= '9'
}

/// The end of the run of digits that starts at `i`.
fn scan_digits(s: &Vec<char>, i: usize) -> (e: usize)
    requires
        i <= s.len(),
    ensures
        e as int == digits_end(s@, i as int),
        i <= e <= s.len(),
{
    let mut j: usize = i;
    while j < s.len() && is_digit_char(s[j])
        invariant
            i <= j <= s.len(),
            digits_end(s@, j as int) == digits_end(s@, i as int),
        decreases s.len() - j,
    {
        j = j + 1;
    }
    j
}

/// The value of at most nine digits `s[a..b]`.
fn digits_value(s: &Vec<char>, a: usize, b: usize) -> (r: u64)
    requires
        a <= b <= s.len(),
        b - a <= 9,
        forall|k: int| a <= k < b ==> is_digit(#[trigger] s@[k]),
    ensures
        r == value_of(s@.subrange(a as int, b as int)),
        r < pow10((b - a) as nat),
{
    let mut j: usize = a;
    let mut acc: u64 = 0;
    proof {
        assert(s@.subrange(a as int, a as int) =~= Seq::<char>::empty());
        reveal_with_fuel(pow10, 1);
    }
    while j < b
        invariant
            a <= j <= b <= s.len(),
            b - a <= 9,
            forall|k: int| a <= k < b ==> is_digit(#[trigger] s@[k]),
            acc == value_of(s@.subrange(a as int, j as int)),
            acc < pow10((j - a) as nat),
        decreases b - j,
    {
        let d: u64 = (s[j] as u32 - 48) as u64;
        let ghost next = s@.subrange(a as int, j + 1);
        proof {
            assert(next.drop_last() =~= s@.subrange(a as int, j as int));
            assert(is_digit(s@[j as int]));
            assert(all_digits(next));
            lemma_value_bound(next);
            let w = (j + 1 - a) as nat;
            lemma_pow10_add(w, (9 - w) as nat);
            lemma_pow10_pos((9 - w) as nat);
            reveal_with_fuel(pow10, 10);
            assert(pow10(w) <= 1_000_000_000) by (nonlinear_arith)
                requires
                    pow10(w) * pow10((9 - w) as nat) == 1_000_000_000,
                    pow10((9 - w) as nat) >= 1,
                    pow10(w) >= 0,
            ;
            assert(pow10(w) >= 0) by {
                lemma_pow10_pos(w);
            }
        }
        acc = acc * 10 + d;
        j = j + 1;
    }
    acc
}

proof fn lemma_digits_end(s: Seq<char>, i: int)
    requires
        0 <= i <= s.len(),
    ensures
        i <= digits_end(s, i) <= s.len(),
        forall|k: int| i <= k < digits_end(s, i) ==> is_digit(#[trigger] s[k]),
    decreases s.len() - i,
{
    if i < s.len() && is_digit(s[i]) {
        lemma_digits_end(s, i + 1);
    }
}

fn pow10_small(n: usize) -> (r: u64)
    requires
        n <= 9,
    ensures
        r == pow10(n as nat),
        1 <= r <= 1_000_000_000,
{
    proof {
        reveal_with_fuel(pow10, 10);
    }
    if n == 0 {
        1
    } else if n == 1 {
        10
    } else if n == 2 {
        100
    } else if n == 3 {
        1000
    } else if n == 4 {
        10_000
    } else if n == 5 {
        100_000
    } else if n == 6 {
        1_000_000
    } else if n == 7 {
        10_000_000
    } else if n == 8 {
        100_000_000
    } else {
        1_000_000_000
    }
}

/// `m` with the sign that `neg` gives.
pub open spec fn signed(neg: bool, m: int) -> int {
    if neg {
        -m
    } else {
        m
    }
}

/// A number as the scanner records it: its sign, and where its digits start and end.
/// An absent field is recorded with no digits, and is worth zero.
pub type Span = (bool, usize, usize);

pub open spec fn span_ok(s: Seq<char>, f: Span) -> bool {
    f.1 <= f.2 <= s.len() && forall|k: int| f.1 <= k < f.2 ==> is_digit(#[trigger] s[k])
}

pub open spec fn span_value(s: Seq<char>, f: Span) -> int {
    signed(f.0, value_of(s.subrange(f.1 as int, f.2 as int)))
}

/// A signed number at `i`, as `number_at` reads it.
fn scan_number(s: &Vec<char>, i: usize) -> (r: Option<Span>)
    requires
        i <= s.len(),
    ensures
        match number_at(s@, i as int) {
            Some((v, e)) => r matches Some(f) && span_ok(s@, f) && f.2 == e && span_value(s@, f)
                == v,
            None => r is None,
        },
{
    let st: usize = if i < s.len() && (s[i] == '+' || s[i] == '-') {
        i + 1
    } else {
        i
    };
    let e = scan_digits(s, st);
    proof {
        lemma_digits_end(s@, st as int);
    }
    if e == st {
        return None;
    }
    let neg = i < s.len() && s[i] == '-';
    Some((neg, st, e))
}

fn has_char(s: &Vec<char>, i: usize, c: char) -> (r: bool)
    ensures
        r == char_at(s@, i as int, c),
{
    i < s.len() && s[i] == c
}

/// The record of an absent field.
fn no_span(i: usize) -> (f: Span)
    ensures
        f.1 == f.2 == i,
{
    (false, i, i)
}

/// An optional field `<number><c>` at `i`, as `opt_field(field_at(..))` reads it: the
/// number, whether the field is there, and the index after it.
fn scan_field(s: &Vec<char>, i: usize, c: char) -> (r: (Span, bool, usize))
    requires
        i <= s.len(),
    ensures
        opt_field(field_at(s@, i as int, c), i as int) == (if r.1 {
            Some(span_value(s@, r.0))
        } else {
            None::<int>
        }, r.2 as int),
        span_ok(s@, r.0),
        !r.1 ==> r.0.1 == r.0.2,
        r.2 <= s.len(),
{
    match scan_number(s, i) {
        Some(f) => {
            if has_char(s, f.2, c) {
                (f, true, f.2 + 1)
            } else {
                (no_span(i), false, i)
            }
        },
        None => (no_span(i), false, i),
    }
}

/// An optional seconds field at `i`, as `opt_field(seconds_at(..))` reads it: the
/// whole seconds, the fraction in nanoseconds, whether the field is there, and the
/// index after it.
fn scan_seconds(s: &Vec<char>, i: usize) -> (r: (Span, u64, bool, usize))
    requires
        i <= s.len(),
    ensures
        opt_field(seconds_at(s@, i as int), i as int) == (if r.2 {
            Some(span_value(s@, r.0) * 1_000_000_000 + r.1)
        } else {
            None::<int>
        }, r.3 as int),
        span_ok(s@, r.0),
        !r.2 ==> r.0.1 == r.0.2 && r.1 == 0,
        r.1 < 1_000_000_000,
        r.3 <= s.len(),
{
    match scan_number(s, i) {
        Some(f) => {
            let e = f.2;
            if has_char(s, e, 'S') {
                (f, 0, true, e + 1)
            } else if has_char(s, e, '.') || has_char(s, e, ',') {
                let fe = scan_digits(s, e + 1);
                proof {
                    lemma_digits_end(s@, e + 1);
                }
                let k = fe - (e + 1);
                if 1 <= k && k <= 9 && has_char(s, fe, 'S') {
                    let frac = digits_value(s, e + 1, fe);
                    proof {
                        // At most nine digits: the fraction fits below one second.
                        lemma_pow10_add(k as nat, (9 - k) as nat);
                        reveal_with_fuel(pow10, 10);
                    }
                    let scale = pow10_small(9 - k);
                    proof {
                        lemma_pow10_pos((9 - k) as nat);
                        assert(frac * scale < 1_000_000_000) by (nonlinear_arith)
                            requires
                                frac < pow10(k as nat),
                                scale == pow10((9 - k) as nat),
                                pow10(k as nat) * pow10((9 - k) as nat) == 1_000_000_000,
                                scale >= 1,
                        ;
                    }
                    (f, frac * scale, true, fe + 1)
                } else {
                    (no_span(i), 0, false, i)
                }
            } else {
                (no_span(i), 0, false, i)
            }
        },
        None => (no_span(i), 0, false, i),
    }
}

/// The value of the first `j` of `n` digit places, where the number's digits fill
/// the last places and zeros the ones before.
pub open spec fn prefix_value(s: Seq<char>, f: Span, n: int, j: int) -> int {
    let lead = n - (f.2 - f.1);
    if j <= lead {
        0
    } else {
        value_of(s.subrange(f.1 as int, f.1 + (j - lead)))
    }
}

/// The digit in place `j` of `n`, as `prefix_value` aligns the number.
pub open spec fn place_digit(s: Seq<char>, f: Span, n: int, j: int) -> int {
    let lead = n - (f.2 - f.1);
    if j < lead {
        0
    } else {
        digit_value(s[f.1 + (j - lead)])
    }
}

proof fn lemma_prefix_step(s: Seq<char>, f: Span, n: int, j: int)
    requires
        span_ok(s, f),
        f.2 - f.1 <= n,
        0 <= j < n,
    ensures
        prefix_value(s, f, n, j + 1) == 10 * prefix_value(s, f, n, j) + place_digit(s, f, n, j),
        0 <= place_digit(s, f, n, j) <= 9,
{
    let lead = n - (f.2 - f.1);
    if j >= lead {
        let a = f.1 as int;
        let k = j - lead;
        let sub = s.subrange(a, a + k + 1);
        assert(sub.drop_last() =~= s.subrange(a, a + k));
        assert(sub.last() == s[a + k]);
        assert(is_digit(s[a + k]));
        assert(value_of(sub) == value_of(s.subrange(a, a + k)) * 10 + digit_value(s[a + k]));
        if k == 0 {
            assert(s.subrange(a, a) =~= Seq::<char>::empty());
            assert(value_of(s.subrange(a, a)) == 0);
        }
    }
}

proof fn lemma_prefix_full(s: Seq<char>, f: Span, n: int)
    requires
        span_ok(s, f),
        f.2 - f.1 <= n,
    ensures
        signed(f.0, prefix_value(s, f, n, n)) == span_value(s, f),
{
    if f.2 == f.1 {
        assert(s.subrange(f.1 as int, f.2 as int) =~= Seq::<char>::empty());
    }
}

/// The digit in place `j` of `n`, read from the text.
fn place_digit_exec(s: &Vec<char>, f: Span, n: usize, j: usize) -> (r: i128)
    requires
        span_ok(s@, f),
        f.2 - f.1 <= n,
        j < n,
    ensures
        r == place_digit(s@, f, n as int, j as int),
{
    let lead = n - (f.2 - f.1);
    if j < lead {
        0
    } else {
        proof {
            assert(is_digit(s@[f.1 + (j - lead)]));
        }
        (s[f.1 + (j - lead)] as u32 - 48) as i128
    }
}

/// Past this magnitude a running sum can no longer come back into range.
pub open spec fn escape_bound() -> int {
    18_446_744_073_709_551_617_000_000_000
}

/// Weighted sum of the first `j` places of the four whole-number fields.
pub open spec fn partial_sum(
    s: Seq<char>,
    fs: (Span, Span, Span, Span),
    n: int,
    j: int,
) -> int {
    signed(fs.0.0, 86_400_000_000_000) * prefix_value(s, fs.0, n, j) + signed(
        fs.1.0,
        3_600_000_000_000,
    ) * prefix_value(s, fs.1, n, j) + signed(fs.2.0, 60_000_000_000) * prefix_value(
        s,
        fs.2,
        n,
        j,
    ) + signed(fs.3.0, 1_000_000_000) * prefix_value(s, fs.3, n, j)
}

proof fn lemma_place_term(w: int, c: int, d: int)
    requires
        w == c || w == -c,
        c >= 0,
        0 <= d <= 9,
    ensures
        -9 * c <= w * d <= 9 * c,
{
    assert(-9 * c <= w * d <= 9 * c) by (nonlinear_arith)
        requires
            w == c || w == -c,
            c >= 0,
            0 <= d <= 9,
    ;
}

proof fn lemma_escape(x: int, e: int)
    requires
        x > escape_bound() || x < -escape_bound(),
        -810_549_000_000_000 <= e <= 810_549_000_000_000,
    ensures
        10 * x + e > escape_bound() || 10 * x + e < -escape_bound(),
{
}

pub open spec fn spans_ok(s: Seq<char>, fs: (Span, Span, Span, Span), n: int) -> bool {
    &&& span_ok(s, fs.0) && fs.0.2 - fs.0.1 <= n
    &&& span_ok(s, fs.1) && fs.1.2 - fs.1.1 <= n
    &&& span_ok(s, fs.2) && fs.2.2 - fs.2.1 <= n
    &&& span_ok(s, fs.3) && fs.3.2 - fs.3.1 <= n
}

/// Weighted sum of the digits in place `j` of the four whole-number fields.
pub open spec fn place_sum(s: Seq<char>, fs: (Span, Span, Span, Span), n: int, j: int) -> int {
    signed(fs.0.0, 86_400_000_000_000) * place_digit(s, fs.0, n, j) + signed(
        fs.1.0,
        3_600_000_000_000,
    ) * place_digit(s, fs.1, n, j) + signed(fs.2.0, 60_000_000_000) * place_digit(
        s,
        fs.2,
        n,
        j,
    ) + signed(fs.3.0, 1_000_000_000) * place_digit(s, fs.3, n, j)
}

proof fn lemma_sum_step(s: Seq<char>, fs: (Span, Span, Span, Span), n: int, j: int)
    requires
        spans_ok(s, fs, n),
        0 <= j < n,
    ensures
        partial_sum(s, fs, n, j + 1) == 10 * partial_sum(s, fs, n, j) + place_sum(s, fs, n, j),
        -810_549_000_000_000 <= place_sum(s, fs, n, j) <= 810_549_000_000_000,
{
    lemma_prefix_step(s, fs.0, n, j);
    lemma_prefix_step(s, fs.1, n, j);
    lemma_prefix_step(s, fs.2, n, j);
    lemma_prefix_step(s, fs.3, n, j);
    let (p0, p1, p2, p3) = (
        prefix_value(s, fs.0, n, j),
        prefix_value(s, fs.1, n, j),
        prefix_value(s, fs.2, n, j),
        prefix_value(s, fs.3, n, j),
    );
    let (d0, d1, d2, d3) = (
        place_digit(s, fs.0, n, j),
        place_digit(s, fs.1, n, j),
        place_digit(s, fs.2, n, j),
        place_digit(s, fs.3, n, j),
    );
    let (w0, w1, w2, w3) = (
        signed(fs.0.0, 86_400_000_000_000),
        signed(fs.1.0, 3_600_000_000_000),
        signed(fs.2.0, 60_000_000_000),
        signed(fs.3.0, 1_000_000_000),
    );
    lemma_place_term(w0, 86_400_000_000_000, d0);
    lemma_place_term(w1, 3_600_000_000_000, d1);
    lemma_place_term(w2, 60_000_000_000, d2);
    lemma_place_term(w3, 1_000_000_000, d3);
    assert(w0 * (10 * p0 + d0) + w1 * (10 * p1 + d1) + w2 * (10 * p2 + d2) + w3 * (10 * p3 + d3)
        == 10 * (w0 * p0 + w1 * p1 + w2 * p2 + w3 * p3) + (w0 * d0 + w1 * d1 + w2 * d2 + w3
        * d3)) by (nonlinear_arith);
}

proof fn lemma_sum_full(s: Seq<char>, fs: (Span, Span, Span, Span), n: int)
    requires
        spans_ok(s, fs, n),
    ensures
        partial_sum(s, fs, n, n) == span_value(s, fs.0) * 86_400_000_000_000 + span_value(s, fs.1)
            * 3_600_000_000_000 + span_value(s, fs.2) * 60_000_000_000 + span_value(s, fs.3)
            * 1_000_000_000,
{
    lemma_prefix_full(s, fs.0, n);
    lemma_prefix_full(s, fs.1, n);
    lemma_prefix_full(s, fs.2, n);
    lemma_prefix_full(s, fs.3, n);
    let (p0, p1, p2, p3) = (
        prefix_value(s, fs.0, n, n),
        prefix_value(s, fs.1, n, n),
        prefix_value(s, fs.2, n, n),
        prefix_value(s, fs.3, n, n),
    );
    assert(signed(fs.0.0, 86_400_000_000_000) * p0 == signed(fs.0.0, p0) * 86_400_000_000_000) by (nonlinear_arith);
    assert(signed(fs.1.0, 3_600_000_000_000) * p1 == signed(fs.1.0, p1) * 3_600_000_000_000) by (nonlinear_arith);
    assert(signed(fs.2.0, 60_000_000_000) * p2 == signed(fs.2.0, p2) * 60_000_000_000) by (nonlinear_arith);
    assert(signed(fs.3.0, 1_000_000_000) * p3 == signed(fs.3.0, p3) * 1_000_000_000) by (nonlinear_arith);
}

/// Once a running sum is past `escape_bound`, every later place keeps it past.
proof fn lemma_escape_rest(s: Seq<char>, fs: (Span, Span, Span, Span), n: int, j: int)
    requires
        spans_ok(s, fs, n),
        0 <= j <= n,
        partial_sum(s, fs, n, j) > escape_bound() || partial_sum(s, fs, n, j) < -escape_bound(),
    ensures
        partial_sum(s, fs, n, n) > escape_bound() || partial_sum(s, fs, n, n) < -escape_bound(),
    decreases n - j,
{
    if j < n {
        lemma_sum_step(s, fs, n, j);
        lemma_escape(partial_sum(s, fs, n, j), place_sum(s, fs, n, j));
        lemma_escape_rest(s, fs, n, j + 1);
    }
}

/// The nanoseconds that the four whole-number fields and the fraction add up to, when
/// that total can be held by a duration; `None` only when it cannot.
fn combine(s: &Vec<char>, fs: (Span, Span, Span, Span), frac: u64) -> (r: Option<i128>)
    requires
        span_ok(s@, fs.0),
        span_ok(s@, fs.1),
        span_ok(s@, fs.2),
        span_ok(s@, fs.3),
        frac < 1_000_000_000,
    ensures
        ({
            let t = span_value(s@, fs.0) * 86_400_000_000_000 + span_value(s@, fs.1)
                * 3_600_000_000_000 + span_value(s@, fs.2) * 60_000_000_000 + span_value(
                s@,
                fs.3,
            ) * 1_000_000_000 + frac;
            &&& r matches Some(x) ==> x == t
            &&& r is None ==> !in_range(t)
        }),
{
    let l0 = fs.0.2 - fs.0.1;
    let l1 = fs.1.2 - fs.1.1;
    let l2 = fs.2.2 - fs.2.1;
    let l3 = fs.3.2 - fs.3.1;
    let mut n: usize = l0;
    if l1 > n {
        n = l1;
    }
    if l2 > n {
        n = l2;
    }
    if l3 > n {
        n = l3;
    }
    let w0: i128 = if fs.0.0 { -86_400_000_000_000 } else { 86_400_000_000_000 };
    let w1: i128 = if fs.1.0 { -3_600_000_000_000 } else { 3_600_000_000_000 };
    let w2: i128 = if fs.2.0 { -60_000_000_000 } else { 60_000_000_000 };
    let w3: i128 = if fs.3.0 { -1_000_000_000 } else { 1_000_000_000 };
    let bound: i128 = 18_446_744_073_709_551_617_000_000_000;
    assert(spans_ok(s@, fs, n as int));
    let mut acc: i128 = 0;
    let mut j: usize = 0;
    while j < n
        invariant
            spans_ok(s@, fs, n as int),
            l0 == fs.0.2 - fs.0.1 <= n,
            l1 == fs.1.2 - fs.1.1 <= n,
            l2 == fs.2.2 - fs.2.1 <= n,
            l3 == fs.3.2 - fs.3.1 <= n,
            w0 == signed(fs.0.0, 86_400_000_000_000),
            w1 == signed(fs.1.0, 3_600_000_000_000),
            w2 == signed(fs.2.0, 60_000_000_000),
            w3 == signed(fs.3.0, 1_000_000_000),
            bound == escape_bound(),
            j <= n,
            acc == partial_sum(s@, fs, n as int, j as int),
            -bound <= acc <= bound,
        decreases n - j,
    {
        let d0 = place_digit_exec(s, fs.0, n, j);
        let d1 = place_digit_exec(s, fs.1, n, j);
        let d2 = place_digit_exec(s, fs.2, n, j);
        let d3 = place_digit_exec(s, fs.3, n, j);
        proof {
            lemma_sum_step(s@, fs, n as int, j as int);
            lemma_place_term(w0 as int, 86_400_000_000_000, d0 as int);
            lemma_place_term(w1 as int, 3_600_000_000_000, d1 as int);
            lemma_place_term(w2 as int, 60_000_000_000, d2 as int);
            lemma_place_term(w3 as int, 1_000_000_000, d3 as int);
        }
        let e: i128 = w0 * d0 + w1 * d1 + w2 * d2 + w3 * d3;
        let next: i128 = 10 * acc + e;
        assert(next == partial_sum(s@, fs, n as int, j + 1));
        if next > bound || next < -bound {
            proof {
                lemma_escape_rest(s@, fs, n as int, j + 1);
                lemma_sum_full(s@, fs, n as int);
            }
            return None;
        }
        acc = next;
        j = j + 1;
    }
    proof {
        lemma_sum_full(s@, fs, n as int);
    }
    Some(acc + frac as i128)
}

/// The nanoseconds that `s` writes, as `total_of` reads it, when they can be held
/// by a duration; `None` when `total_of` gives nothing or a total out of range.
fn scan_total(s: &Vec<char>) -> (r: Option<i128>)
    ensures
        match total_of(s@) {
            Some(t) => (r matches Some(x) && x == t) || (r is None && !in_range(t)),
            None => r is None,
        },
{
    let p: usize = if 0 < s.len() && (s[0] == '+' || s[0] == '-') {
        1
    } else {
        0
    };
    if !has_char(s, p, 'P') {
        return None;
    }
    let (days, has_days, i1) = scan_field(s, p + 1, 'D');
    if i1 == s.len() {
        return combine(s, (days, no_span(0), no_span(0), no_span(0)), 0);
    }
    if s[i1] != 'T' {
        return None;
    }
    let (hours, has_hours, i2) = scan_field(s, i1 + 1, 'H');
    let (mins, has_mins, i3) = scan_field(s, i2, 'M');
    let (secs, frac, has_secs, i4) = scan_seconds(s, i3);
    if i4 != s.len() {
        return None;
    }
    if !has_days && !has_hours && !has_mins && !has_secs {
        return None;
    }
    combine(s, (days, hours, mins, secs), frac)
}

/// Parses ISO 8601 duration text such as `P11DT13H46M40S` or `PT10.1S`. Returns
/// `None` when the text does not follow the grammar of `total_of`, or when the
/// total is negative or too large for a duration; a single field may be as large
/// as it likes.
pub fn from_iso8601(text: &str) -> (r: Option<Duration>)
    ensures
        r == parse_iso(text@),
        r matches Some(d) ==> d.wf(),
{
    let s = chars_of(text);
    match scan_total(&s) {
        Some(t) => {
            if 0 <= t && t < 18_446_744_073_709_551_616_000_000_000 {
                let secs = (t / 1_000_000_000) as u64;
                let nanos = (t % 1_000_000_000) as u32;
                Some(Duration { secs, nanos })
            } else {
                None
            }
        },
        None => None,
    }
}

} // verus!
