//! Writing a duration as ISO 8601 duration text (`PnDTnHnMnS`).

use vstd::prelude::*;

use crate::decimal::{decimal, fraction, push_decimal, push_fraction};
use crate::duration::Duration;
use crate::text::string_of;

verus! {

/// `n` followed by the designator `c`, or nothing when `n` is zero.
pub open spec fn part(n: nat, c: char) -> Seq<char> {
    if n == 0 {
        Seq::empty()
    } else {
        decimal(n).push(c)
    }
}

/// The seconds field: whole seconds, then the fraction when there is one, then `S`;
/// nothing when both are zero.
pub open spec fn secs_part(s: nat, nanos: nat) -> Seq<char> {
    if s == 0 && nanos == 0 {
        Seq::empty()
    } else if nanos == 0 {
        decimal(s).push('S')
    } else {
        (decimal(s).push('.') + fraction(nanos, 9)).push('S')
    }
}

pub open spec fn days_of(d: Duration) -> nat {
    (d.secs / 86400) as nat
}

pub open spec fn hours_of(d: Duration) -> nat {
    ((d.secs % 86400) / 3600) as nat
}

pub open spec fn minutes_of(d: Duration) -> nat {
    ((d.secs % 3600) / 60) as nat
}

pub open spec fn seconds_of(d: Duration) -> nat {
    (d.secs % 60) as nat
}

/// The time block: `T` and the hour, minute and second fields, or nothing when all
/// of them are zero.
pub open spec fn time_part(d: Duration) -> Seq<char> {
    if hours_of(d) == 0 && minutes_of(d) == 0 && seconds_of(d) == 0 && d.nanos == 0 {
        Seq::empty()
    } else {
        seq!['T'] + part(hours_of(d), 'H') + part(minutes_of(d), 'M') + secs_part(
            seconds_of(d),
            d.nanos as nat,
        )
    }
}

/// The minimal ISO 8601 text of a duration, with days as the largest unit.
pub open spec fn iso_text(d: Duration) -> Seq<char> {
    if d.secs == 0 && d.nanos == 0 {
        seq!['P', 'T', '0', 'S']
    } else {
        seq!['P'] + part(days_of(d), 'D') + time_part(d)
    }
}

fn push_part(out: &mut Vec<char>, n: u64, c: char)
    ensures
        final(out)@ == old(out)@ + part(n as nat, c),
{
    if n != 0 {
        push_decimal(out, n);
        out.push(c);
        proof {
            assert(final(out)@ =~= old(out)@ + part(n as nat, c));
        }
    } else {
        proof {
            assert(final(out)@ =~= old(out)@ + part(n as nat, c));
        }
    }
}

/// Formats `d` as ISO 8601 duration text: `PT0S` for zero, otherwise the non-zero
/// day, hour, minute and second fields, the seconds with their fraction.
pub fn to_iso8601(d: &Duration) -> (r: String)
    requires
        d.wf(),
    ensures
        r@ == iso_text(*d),
{
    let mut out: Vec<char> = Vec::new();
    if d.secs == 0 && d.nanos == 0 {
        out.push('P');
        out.push('T');
        out.push('0');
        out.push('S');
        proof {
            assert(out@ =~= iso_text(*d));
        }
        return string_of(&out);
    }
    out.push('P');
    push_part(&mut out, d.secs / 86400, 'D');
    let h: u64 = (d.secs % 86400) / 3600;
    let m: u64 = (d.secs % 3600) / 60;
    let s: u64 = d.secs % 60;
    let ghost head = out@;
    if h != 0 || m != 0 || s != 0 || d.nanos != 0 {
        out.push('T');
        push_part(&mut out, h, 'H');
        push_part(&mut out, m, 'M');
        if s != 0 || d.nanos != 0 {
            push_decimal(&mut out, s);
            if d.nanos != 0 {
                out.push('.');
                push_fraction(&mut out, d.nanos, 9);
            }
            out.push('S');
        }
    }
    proof {
        assert(out@ =~= head + time_part(*d));
        assert(out@ =~= iso_text(*d));
    }
    string_of(&out)
}

} // verus!
