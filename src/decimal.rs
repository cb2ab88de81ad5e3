//! Decimal digit strings: how numbers are written and read back.

use vstd::prelude::*;

verus! {

pub open spec fn is_digit(c: char) -> bool {
    '0' <= c && c <= '9'
}

pub open spec fn digit_value(c: char) -> int {
    c as int - '0' as int
}

pub open spec fn digit_char(d: int) -> char {
    (d + '0' as int) as char
}

pub open spec fn all_digits(s: Seq<char>) -> bool {
    forall|i: int| 0 <= i < s.len() ==> is_digit(#[trigger] s[i])
}

pub open spec fn pow10(k: nat) -> int
    decreases k,
{
    if k == 0 {
        1
    } else {
        10 * pow10((k - 1) as nat)
    }
}

/// The shortest decimal writing of `n`, without leading zeros.
pub open spec fn decimal(n: nat) -> Seq<char>
    decreases n,
{
    if n < 10 {
        seq![digit_char(n as int)]
    } else {
        decimal(n / 10).push(digit_char((n % 10) as int))
    }
}

/// The last `w` decimal digits of `n`, with leading zeros.
pub open spec fn padded(n: nat, w: nat) -> Seq<char>
    decreases w,
{
    if w == 0 {
        Seq::empty()
    } else {
        padded(n / 10, (w - 1) as nat).push(digit_char((n % 10) as int))
    }
}

/// The digits after the decimal point of `n / 10^w`: `padded(n, w)` without its
/// trailing zeros.
pub open spec fn fraction(n: nat, w: nat) -> Seq<char>
    decreases w,
{
    if w > 0 && n % 10 == 0 {
        fraction(n / 10, (w - 1) as nat)
    } else {
        padded(n, w)
    }
}

/// The number that a string of digits writes.
pub open spec fn value_of(s: Seq<char>) -> int
    decreases s.len(),
{
    if s.len() == 0 {
        0
    } else {
        value_of(s.drop_last()) * 10 + digit_value(s.last())
    }
}

pub proof fn lemma_pow10_pos(k: nat)
    ensures
        pow10(k) >= 1,
    decreases k,
{
    if k > 0 {
        lemma_pow10_pos((k - 1) as nat);
    }
}

pub proof fn lemma_pow10_add(a: nat, b: nat)
    ensures
        pow10(a) * pow10(b) == pow10(a + b),
    decreases a,
{
    if a > 0 {
        lemma_pow10_add((a - 1) as nat, b);
        assert(pow10(a) * pow10(b) == 10 * (pow10((a - 1) as nat) * pow10(b))) by (nonlinear_arith)
            requires
                pow10(a) == 10 * pow10((a - 1) as nat),
        ;
    }
}

/// A string of `k` digits writes a number below `10^k`.
pub proof fn lemma_value_bound(s: Seq<char>)
    requires
        all_digits(s),
    ensures
        0 <= value_of(s) < pow10(s.len()),
    decreases s.len(),
{
    if s.len() > 0 {
        let t = s.drop_last();
        assert(all_digits(t)) by {
            assert forall|i: int| 0 <= i < t.len() implies is_digit(#[trigger] t[i]) by {
                assert(t[i] == s[i]);
            }
        }
        lemma_value_bound(t);
        assert(is_digit(s[s.len() - 1]));
        let v = value_of(t);
        let p = pow10(t.len());
        let d = digit_value(s.last());
        assert(v * 10 + d < 10 * p) by (nonlinear_arith)
            requires
                0 <= v < p,
                0 <= d < 10,
        ;
    }
}

pub proof fn lemma_decimal(n: nat)
    ensures
        decimal(n).len() >= 1,
        all_digits(decimal(n)),
        value_of(decimal(n)) == n,
    decreases n,
{
    if n >= 10 {
        lemma_decimal(n / 10);
        let p = decimal(n / 10);
        assert(decimal(n).drop_last() =~= p);
        assert(decimal(n).last() == digit_char((n % 10) as int));
        assert(digit_value(digit_char((n % 10) as int)) == n % 10);
    } else {
        assert(decimal(n).last() == digit_char(n as int));
        assert(seq![digit_char(n as int)].drop_last() =~= Seq::<char>::empty());
        assert(value_of(Seq::<char>::empty()) == 0);
        assert(digit_value(digit_char(n as int)) == n);
    }
}

pub proof fn lemma_padded(n: nat, w: nat)
    ensures
        padded(n, w).len() == w,
        all_digits(padded(n, w)),
        value_of(padded(n, w)) == (n as int) % pow10(w),
    decreases w,
{
    if w > 0 {
        lemma_padded(n / 10, (w - 1) as nat);
        let p = padded(n / 10, (w - 1) as nat);
        assert(padded(n, w).drop_last() =~= p);
        let q = pow10((w - 1) as nat);
        lemma_pow10_pos((w - 1) as nat);
        vstd::arithmetic::div_mod::lemma_breakdown(n as int, 10, q);
    } else {
        assert(n % 1 == 0) by (nonlinear_arith);
    }
}

pub proof fn lemma_fraction(n: nat, w: nat)
    requires
        0 < n < pow10(w),
    ensures
        1 <= fraction(n, w).len() <= w,
        all_digits(fraction(n, w)),
        value_of(fraction(n, w)) * pow10((w - fraction(n, w).len()) as nat) == n,
    decreases w,
{
    if w > 0 && n % 10 == 0 {
        let q = pow10((w - 1) as nat);
        assert(0 < n / 10 < q) by (nonlinear_arith)
            requires
                0 < n < 10 * q,
                n % 10 == 0,
        ;
        lemma_fraction(n / 10, (w - 1) as nat);
        let f = fraction(n / 10, (w - 1) as nat);
        let k = (w - 1 - f.len()) as nat;
        assert(pow10((w - f.len()) as nat) == 10 * pow10(k));
        assert(value_of(f) * (10 * pow10(k)) == (value_of(f) * pow10(k)) * 10) by (nonlinear_arith);
    } else {
        lemma_padded(n, w);
        if w == 0 {
            assert(false);
        }
        assert((n as int) % pow10(w) == n) by (nonlinear_arith)
            requires
                0 < n < pow10(w),
        ;
    }
}

/// Appends the decimal writing of `n`.
pub fn push_decimal(out: &mut Vec<char>, n: u64)
    ensures
        final(out)@ == old(out)@ + decimal(n as nat),
    decreases n,
{
    if n >= 10 {
        push_decimal(out, n / 10);
    }
    let c = (48u8 + (n % 10) as u8) as char;
    out.push(c);
    proof {
        assert(old(out)@ + decimal(n as nat) =~= final(out)@);
    }
}

/// Appends the last `w` decimal digits of `n`, with leading zeros.
pub fn push_padded(out: &mut Vec<char>, n: u32, w: u32)
    ensures
        final(out)@ == old(out)@ + padded(n as nat, w as nat),
    decreases w,
{
    if w > 0 {
        push_padded(out, n / 10, w - 1);
        let c = (48u8 + (n % 10) as u8) as char;
        out.push(c);
        proof {
            assert(old(out)@ + padded(n as nat, w as nat) =~= final(out)@);
        }
    } else {
        proof {
            assert(old(out)@ + padded(n as nat, w as nat) =~= final(out)@);
        }
    }
}

/// Appends the digits after the decimal point of `n / 10^w`, without trailing zeros.
pub fn push_fraction(out: &mut Vec<char>, n: u32, w: u32)
    ensures
        final(out)@ == old(out)@ + fraction(n as nat, w as nat),
{
    let mut k: u32 = n;
    let mut v: u32 = w;
    while v > 0 && k % 10 == 0
        invariant
            fraction(k as nat, v as nat) == fraction(n as nat, w as nat),
        decreases v,
    {
        k = k / 10;
        v = v - 1;
    }
    push_padded(out, k, v);
}

} // verus!
