//! A non-negative span of time with nanosecond resolution, and its constructors.

use vstd::prelude::*;

verus! {

/// Nanoseconds in one second.
pub const NANOS_PER_SEC: u32 = 1_000_000_000;

/// Largest number of whole seconds a duration can hold.
pub open spec fn max_secs() -> int {
    u64::MAX as int
}

/// A non-negative span of time: whole seconds plus a nanosecond part below one second.
/// Every constructor gives a value that satisfies `wf`; the functions that read a
/// duration ask for it.
#[derive(Clone, Copy, Debug, PartialEq, Eq, Structural)]
pub struct Duration {
    pub secs: u64,
    pub nanos: u32,
}

impl Duration {
    /// The nanosecond part is below one second.
    pub open spec fn wf(self) -> bool {
        self.nanos < NANOS_PER_SEC
    }

    /// The whole span in nanoseconds.
    pub open spec fn total_nanos(self) -> int {
        self.secs * 1_000_000_000 + self.nanos
    }

    /// The duration that spans `t` nanoseconds.
    pub open spec fn of_nanos(t: int) -> Duration
        recommends
            0 <= t < (max_secs() + 1) * 1_000_000_000,
    {
        Duration { secs: (t / 1_000_000_000) as u64, nanos: (t % 1_000_000_000) as u32 }
    }

    /// A duration of `secs` seconds and `nanos` nanoseconds; `None` when `nanos`
    /// is not below one second.
    pub fn new(secs: u64, nanos: u32) -> (r: Option<Duration>)
        ensures
            nanos < NANOS_PER_SEC <==> r.is_some(),
            r matches Some(d) ==> d.wf() && d.secs == secs && d.nanos == nanos,
    {
        if nanos < NANOS_PER_SEC {
            Some(Duration { secs, nanos })
        } else {
            None
        }
    }

    /// A duration of whole seconds.
    pub fn from_secs(secs: u64) -> (r: Duration)
        ensures
            r.wf(),
            r.secs == secs,
            r.nanos == 0,
    {
        Duration { secs, nanos: 0 }
    }

    /// The zero duration.
    pub fn zero() -> (r: Duration)
        ensures
            r.wf(),
            r.total_nanos() == 0,
    {
        Duration { secs: 0, nanos: 0 }
    }

    /// The whole seconds of the duration.
    pub fn as_secs(&self) -> (r: u64)
        ensures
            r == self.secs,
    {
        self.secs
    }

    /// The part of the duration below one second, in nanoseconds.
    pub fn subsec_nanos(&self) -> (r: u32)
        ensures
            r == self.nanos,
    {
        self.nanos
    }
}

/// Whole seconds of `h` hours, `m` minutes and `s` seconds.
pub open spec fn hms_secs(h: int, m: int, s: int) -> int {
    h * 3600 + m * 60 + s
}

/// Whether `h:m:s` is a valid clock reading whose total fits in a duration.
pub open spec fn hms_ok(h: int, m: int, s: int) -> bool {
    m < 60 && s < 60 && hms_secs(h, m, s) <= max_secs()
}

/// `h*3600 + m*60 + s` seconds plus `sub * scale` nanoseconds, where `sub < bound`;
/// `None` when a component is out of range or the total does not fit.
fn hms_scaled(h: u64, m: u64, s: u64, sub: u32, bound: u32, scale: u32) -> (r: Option<Duration>)
    requires
        (bound as int) * (scale as int) == 1_000_000_000,
    ensures
        r.is_some() <==> (hms_ok(h as int, m as int, s as int) && sub < bound),
        r matches Some(d) ==> d.wf() && d.secs == hms_secs(h as int, m as int, s as int) && d.nanos
            == (sub as int) * (scale as int),
{
    if m >= 60 || s >= 60 || sub >= bound {
        return None;
    }
    if h > (u64::MAX - m * 60 - s) / 3600 {
        return None;
    }
    let secs: u64 = h * 3600 + m * 60 + s;
    assert((sub as int) * (scale as int) < 1_000_000_000) by (nonlinear_arith)
        requires
            sub < bound,
            (bound as int) * (scale as int) == 1_000_000_000,
    ;
    Some(Duration { secs, nanos: sub * scale })
}

/// `h` hours, `m` minutes and `s` seconds; `None` unless `m` and `s` are below 60
/// and the total fits.
pub fn from_hms_opt(h: u64, m: u64, s: u64) -> (r: Option<Duration>)
    ensures
        r.is_some() <==> hms_ok(h as int, m as int, s as int),
        r matches Some(d) ==> d.wf() && d.total_nanos() == hms_secs(h as int, m as int, s as int)
            * 1_000_000_000,
{
    hms_scaled(h, m, s, 0, 1, NANOS_PER_SEC)
}

/// `h` hours, `m` minutes and `s` seconds; the caller guarantees that `m` and `s`
/// are below 60 and that the total fits.
pub fn from_hms(h: u64, m: u64, s: u64) -> (r: Duration)
    requires
        hms_ok(h as int, m as int, s as int),
    ensures
        r.wf(),
        r.total_nanos() == hms_secs(h as int, m as int, s as int) * 1_000_000_000,
{
    from_hms_opt(h, m, s).unwrap()
}

/// Like [`from_hms_opt`], plus `ms` milliseconds, which must be below 1000.
pub fn from_hms_milli_opt(h: u64, m: u64, s: u64, ms: u32) -> (r: Option<Duration>)
    ensures
        r.is_some() <==> (hms_ok(h as int, m as int, s as int) && ms < 1000),
        r matches Some(d) ==> d.wf() && d.total_nanos() == hms_secs(h as int, m as int, s as int)
            * 1_000_000_000 + ms * 1_000_000,
{
    hms_scaled(h, m, s, ms, 1000, 1_000_000)
}

/// Like [`from_hms`], plus `ms` milliseconds, which the caller keeps below 1000.
pub fn from_hms_milli(h: u64, m: u64, s: u64, ms: u32) -> (r: Duration)
    requires
        hms_ok(h as int, m as int, s as int),
        ms < 1000,
    ensures
        r.wf(),
        r.total_nanos() == hms_secs(h as int, m as int, s as int) * 1_000_000_000 + ms
            * 1_000_000,
{
    from_hms_milli_opt(h, m, s, ms).unwrap()
}

/// Like [`from_hms_opt`], plus `us` microseconds, which must be below 1_000_000.
pub fn from_hms_micro_opt(h: u64, m: u64, s: u64, us: u32) -> (r: Option<Duration>)
    ensures
        r.is_some() <==> (hms_ok(h as int, m as int, s as int) && us < 1_000_000),
        r matches Some(d) ==> d.wf() && d.total_nanos() == hms_secs(h as int, m as int, s as int)
            * 1_000_000_000 + us * 1000,
{
    hms_scaled(h, m, s, us, 1_000_000, 1000)
}

/// Like [`from_hms`], plus `us` microseconds, which the caller keeps below 1_000_000.
pub fn from_hms_micro(h: u64, m: u64, s: u64, us: u32) -> (r: Duration)
    requires
        hms_ok(h as int, m as int, s as int),
        us < 1_000_000,
    ensures
        r.wf(),
        r.total_nanos() == hms_secs(h as int, m as int, s as int) * 1_000_000_000 + us * 1000,
{
    from_hms_micro_opt(h, m, s, us).unwrap()
}

/// Like [`from_hms_opt`], plus `ns` nanoseconds, which must be below 1_000_000_000.
pub fn from_hms_nano_opt(h: u64, m: u64, s: u64, ns: u32) -> (r: Option<Duration>)
    ensures
        r.is_some() <==> (hms_ok(h as int, m as int, s as int) && ns < NANOS_PER_SEC),
        r matches Some(d) ==> d.wf() && d.total_nanos() == hms_secs(h as int, m as int, s as int)
            * 1_000_000_000 + ns,
{
    hms_scaled(h, m, s, ns, NANOS_PER_SEC, 1)
}

/// Like [`from_hms`], plus `ns` nanoseconds, which the caller keeps below 1_000_000_000.
pub fn from_hms_nano(h: u64, m: u64, s: u64, ns: u32) -> (r: Duration)
    requires
        hms_ok(h as int, m as int, s as int),
        ns < NANOS_PER_SEC,
    ensures
        r.wf(),
        r.total_nanos() == hms_secs(h as int, m as int, s as int) * 1_000_000_000 + ns,
{
    from_hms_nano_opt(h, m, s, ns).unwrap()
}

} // verus!
