//! Laws that relate the formatter and the parser.

use vstd::prelude::*;

use crate::decimal::{decimal, fraction, is_digit, lemma_decimal, lemma_fraction, pow10, value_of};
use crate::duration::Duration;
use crate::signed::fits_time_delta;
use crate::format::{days_of, hours_of, iso_text, minutes_of, part, seconds_of, secs_part, time_part};
use crate::parse::{
    char_at, digits_end, field_at, in_range, is_sign, number_at, opt_field, or_zero, parse_iso,
    seconds_at, total_of,
};

verus! {

/// `decimal(x)` stands at `i` in `s`, and a character that is no digit follows it.
pub open spec fn decimal_at(s: Seq<char>, i: int, x: nat) -> bool {
    0 <= i && i + decimal(x).len() < s.len() && s.subrange(i, i + decimal(x).len()) == decimal(x)
        && !is_digit(s[i + decimal(x).len()])
}

proof fn lemma_digits_end_at(s: Seq<char>, i: int, e: int)
    requires
        0 <= i <= e <= s.len(),
        forall|k: int| i <= k < e ==> is_digit(#[trigger] s[k]),
        e == s.len() || !is_digit(s[e]),
    ensures
        digits_end(s, i) == e,
    decreases e - i,
{
    if i < e {
        lemma_digits_end_at(s, i + 1, e);
    }
}

proof fn lemma_number_at(s: Seq<char>, i: int, x: nat)
    requires
        decimal_at(s, i, x),
    ensures
        number_at(s, i) == Some((x as int, i + decimal(x).len())),
{
    let n = decimal(x).len() as int;
    lemma_decimal(x);
    assert(is_digit(s[i])) by {
        assert(s[i] == s.subrange(i, i + n)[0]);
    }
    assert forall|k: int| i <= k < i + n implies is_digit(#[trigger] s[k]) by {
        assert(s[k] == s.subrange(i, i + n)[k - i]);
    }
    lemma_digits_end_at(s, i, i + n);
}

/// No number starts at `i`: the text ends there or holds a `T`.
proof fn lemma_no_number(s: Seq<char>, i: int)
    requires
        0 <= i,
        i == s.len() || char_at(s, i, 'T'),
    ensures
        number_at(s, i) is None,
        field_at(s, i, 'D') is None,
        field_at(s, i, 'H') is None,
        field_at(s, i, 'M') is None,
        seconds_at(s, i) is None,
{
    assert(digits_end(s, i) == i);
}

proof fn lemma_split_secs(secs: int)
    requires
        secs >= 0,
    ensures
        secs == (secs / 86400) * 86400 + ((secs % 86400) / 3600) * 3600 + ((secs % 3600) / 60)
            * 60 + secs % 60,
{
    assert(secs % 86400 == ((secs % 86400) / 3600) * 3600 + (secs % 86400) % 3600);
    vstd::arithmetic::div_mod::lemma_mod_mod(secs, 3600, 24);
    assert((secs % 86400) % 3600 == secs % 3600);
    vstd::arithmetic::div_mod::lemma_mod_mod(secs, 60, 60);
    assert(secs % 3600 == ((secs % 3600) / 60) * 60 + (secs % 3600) % 60);
    assert((secs % 3600) % 60 == secs % 60);
}

/// What stands at `j`: the end of the text, or a number followed by a character
/// other than `c`.
pub open spec fn no_field_at(s: Seq<char>, j: int, y: nat, c: char) -> bool {
    j == s.len() || char_at(s, j, 'T') || (decimal_at(s, j, y) && s[j + decimal(y).len()] != c)
}

proof fn lemma_part_start(s: Seq<char>, i: int, x: nat, c: char)
    requires
        0 <= i,
        x != 0,
        i + part(x, c).len() <= s.len(),
        s.subrange(i, i + part(x, c).len()) == part(x, c),
        !is_digit(c),
    ensures
        decimal_at(s, i, x),
        s[i + decimal(x).len()] == c,
{
    let n = decimal(x).len() as int;
    assert(s.subrange(i, i + n) =~= decimal(x));
    assert(s[i + n] == part(x, c)[n]);
}

proof fn lemma_secs_start(s: Seq<char>, i: int, sc: nat, ns: nat)
    requires
        0 <= i,
        secs_part(sc, ns).len() != 0,
        i + secs_part(sc, ns).len() <= s.len(),
        s.subrange(i, i + secs_part(sc, ns).len()) == secs_part(sc, ns),
    ensures
        decimal_at(s, i, sc),
        s[i + decimal(sc).len()] == 'S' || s[i + decimal(sc).len()] == '.',
{
    lemma_decimal(sc);
    let n = decimal(sc).len() as int;
    assert(s.subrange(i, i + n) =~= decimal(sc));
    assert(s[i + n] == secs_part(sc, ns)[n]);
}

/// An hour, minute or day field as `part` writes it, read back.
proof fn lemma_part_field(s: Seq<char>, i: int, x: nat, c: char, y: nat)
    requires
        0 <= i,
        i + part(x, c).len() <= s.len(),
        s.subrange(i, i + part(x, c).len()) == part(x, c),
        !is_digit(c),
        x == 0 ==> no_field_at(s, i, y, c),
    ensures
        opt_field(field_at(s, i, c), i) == (if x != 0 {
            Some(x as int)
        } else {
            None::<int>
        }, i + part(x, c).len()),
{
    if x != 0 {
        lemma_decimal(x);
        let n = decimal(x).len() as int;
        assert(s.subrange(i, i + n) =~= decimal(x));
        assert(s[i + n] == part(x, c)[n]);
        lemma_number_at(s, i, x);
    } else if i == s.len() || char_at(s, i, 'T') {
        lemma_no_number(s, i);
    } else {
        lemma_number_at(s, i, y);
    }
}

/// The seconds field as `secs_part` writes it, read back.
proof fn lemma_secs_field(s: Seq<char>, i: int, sc: nat, ns: nat)
    requires
        0 <= i,
        i + secs_part(sc, ns).len() == s.len(),
        s.subrange(i, s.len() as int) == secs_part(sc, ns),
        ns < 1_000_000_000,
    ensures
        opt_field(seconds_at(s, i), i) == (if secs_part(sc, ns).len() != 0 {
            Some((sc * 1_000_000_000 + ns) as int)
        } else {
            None::<int>
        }, s.len() as int),
{
    let sp = secs_part(sc, ns);
    if sp.len() == 0 {
        lemma_no_number(s, i);
    } else {
        lemma_decimal(sc);
        let n = decimal(sc).len() as int;
        assert(s.subrange(i, i + n) =~= decimal(sc));
        assert(s[i + n] == sp[n]);
        lemma_number_at(s, i, sc);
        let e: int = i + n;
        if ns != 0 {
            assert(s[e] == '.');
            let f = fraction(ns, 9);
            assert(pow10(9) == 1_000_000_000) by {
                reveal_with_fuel(pow10, 10);
            }
            lemma_fraction(ns, 9);
            let fe: int = e + 1 + f.len();
            assert(s.subrange(e + 1, fe) =~= f) by {
                assert forall|k: int| 0 <= k < f.len() implies s.subrange(e + 1, fe)[k] == f[k] by {
                    assert(s[e + 1 + k] == sp[n + 1 + k]);
                }
            }
            assert forall|k: int| e + 1 <= k < fe implies is_digit(#[trigger] s[k]) by {
                assert(s[k] == s.subrange(e + 1, fe)[k - (e + 1)]);
            }
            assert(s[fe] == sp[fe - i]);
            lemma_digits_end_at(s, e + 1, fe);
        }
    }
}

proof fn lemma_round_trip_zero(d: Duration)
    requires
        d.secs == 0 && d.nanos == 0,
    ensures
        parse_iso(iso_text(d)) == Some(d),
{
    let s = iso_text(d);
    assert(s =~= seq!['P', 'T', '0', 'S']);
    lemma_no_number(s, 1);
    assert(s.subrange(2, 3) =~= decimal(0));
    lemma_number_at(s, 2, 0);
    assert(value_of(decimal(0)) == 0) by {
        lemma_decimal(0);
    }
    assert(total_of(s) == Some(0int));
    assert(Duration::of_nanos(0) == d);
}

/// The fields that the formatter writes add up to the duration.
proof fn lemma_sum(d: Duration)
    requires
        d.wf(),
    ensures
        ({
            let t = days_of(d) * 86_400_000_000_000 + hours_of(d) * 3_600_000_000_000
                + minutes_of(d) * 60_000_000_000 + (seconds_of(d) * 1_000_000_000 + d.nanos);
            &&& t == d.total_nanos()
            &&& in_range(t)
            &&& Duration::of_nanos(t) == d
        }),
{
    lemma_split_secs(d.secs as int);
    let t = d.total_nanos();
    assert(t / 1_000_000_000 == d.secs && t % 1_000_000_000 == d.nanos) by {
        vstd::arithmetic::div_mod::lemma_fundamental_div_mod_converse(
            t,
            1_000_000_000,
            d.secs as int,
            d.nanos as int,
        );
    }
}

proof fn lemma_time_fields(d: Duration, s: Seq<char>, i1: int)
    requires
        d.wf(),
        time_part(d).len() != 0,
        0 <= i1,
        i1 + time_part(d).len() == s.len(),
        s.subrange(i1, s.len() as int) == time_part(d),
    ensures
        ({
            let (hv, i2) = opt_field(field_at(s, i1 + 1, 'H'), i1 + 1);
            let (mv, i3) = opt_field(field_at(s, i2, 'M'), i2);
            let (sv, i4) = opt_field(seconds_at(s, i3), i3);
            &&& i4 == s.len()
            &&& or_zero(hv) == hours_of(d)
            &&& or_zero(mv) == minutes_of(d)
            &&& or_zero(sv) == seconds_of(d) * 1_000_000_000 + d.nanos
            &&& (hv is Some || mv is Some || sv is Some)
        }),
{
    let h = hours_of(d);
    let m = minutes_of(d);
    let sc = seconds_of(d);
    let ns = d.nanos as nat;
    let hp = part(h, 'H');
    let mp = part(m, 'M');
    let sp = secs_part(sc, ns);
    let tp = time_part(d);
    assert(tp == seq!['T'] + hp + mp + sp);
    let i2: int = i1 + 1 + hp.len();
    let i3: int = i2 + mp.len();
    assert(s.subrange(i3, s.len() as int) =~= sp) by {
        assert forall|k: int| 0 <= k < sp.len() implies s.subrange(i3, s.len() as int)[k] == sp[k] by {
            assert(s[i3 + k] == tp[i3 + k - i1]);
        }
    }
    lemma_secs_field(s, i3, sc, ns);
    assert(s.subrange(i2, i3) =~= mp) by {
        assert forall|k: int| 0 <= k < mp.len() implies s.subrange(i2, i3)[k] == mp[k] by {
            assert(s[i2 + k] == tp[i2 + k - i1]);
        }
    }
    if sp.len() != 0 {
        lemma_secs_start(s, i3, sc, ns);
    }
    lemma_part_field(s, i2, m, 'M', sc);
    assert(s.subrange(i1 + 1, i2) =~= hp) by {
        assert forall|k: int| 0 <= k < hp.len() implies s.subrange(i1 + 1, i2)[k] == hp[k] by {
            assert(s[i1 + 1 + k] == tp[1 + k]);
        }
    }
    if m != 0 {
        lemma_part_start(s, i2, m, 'M');
        lemma_part_field(s, i1 + 1, h, 'H', m);
    } else {
        lemma_part_field(s, i1 + 1, h, 'H', sc);
    }
}

/// Reading back what the formatter writes gives the same duration: the text of
/// `to_iso8601(d)` parses, with `from_iso8601`, to `d` itself, for every duration,
/// fractional seconds included.
pub proof fn lemma_round_trip(d: Duration)
    requires
        d.wf(),
    ensures
        parse_iso(iso_text(d)) == Some(d),
{
    let s = iso_text(d);
    if d.secs == 0 && d.nanos == 0 {
        lemma_round_trip_zero(d);
    } else {
        let days = days_of(d);
        let dp = part(days, 'D');
        let tp = time_part(d);
        lemma_sum(d);
        assert(s == seq!['P'] + dp + tp);
        let i1: int = 1int + dp.len();
        assert(s.subrange(1, i1) =~= dp);
        if days == 0 && tp.len() != 0 {
            assert(char_at(s, 1, 'T'));
        }
        lemma_part_field(s, 1, days, 'D', 0);
        if tp.len() != 0 {
            assert(s.subrange(i1, s.len() as int) =~= tp);
            lemma_time_fields(d, s, i1);
        }
    }
}

/// Text that does not open with the designator `P`, after at most one sign, is not
/// duration text: it parses to nothing.
pub proof fn lemma_missing_designator(s: Seq<char>)
    requires
        !char_at(s, 0, 'P'),
        !(0 < s.len() && is_sign(s[0]) && char_at(s, 1, 'P')),
    ensures
        parse_iso(s) is None,
{
}

/// A duration that fits a `TimeDelta`, written as text and read back, is the same
/// duration and still fits: a non-negative `TimeDelta` of at most `i64::MAX`
/// milliseconds keeps its span through text.
pub proof fn lemma_time_delta_round_trip(d: Duration)
    requires
        d.wf(),
        fits_time_delta(d),
    ensures
        parse_iso(iso_text(d)) matches Some(x) && x.total_nanos() == d.total_nanos()
            && fits_time_delta(x),
{
    lemma_round_trip(d);
}

} // verus!
