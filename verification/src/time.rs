//! Points in time (UTC) and whole-day differences between them.
use std::time::{Duration, SystemTime};
use vstd::prelude::*;

verus! {

/// A UTC instant: whole seconds since the Unix epoch plus the sub-second part.
#[derive(Clone, Copy, Debug, PartialEq, Eq, Structural)]
pub struct Timestamp {
    pub secs: i64,
    pub nanos: u32,
}

/// Integer division rounding toward zero (Rust's `/` on signed integers).
pub open spec fn trunc_div(a: int, b: int) -> int {
    if a >= 0 {
        a / b
    } else {
        -((-a) / b)
    }
}

impl Timestamp {
    /// The sub-second part is below one second.
    pub open spec fn wf(&self) -> bool {
        self.nanos < 1_000_000_000
    }

    /// Nanoseconds since the Unix epoch.
    pub open spec fn total_nanos(&self) -> int {
        self.secs * 1_000_000_000 + self.nanos
    }

    /// `self` is no later than `other`.
    pub open spec fn spec_not_after(&self, other: Timestamp) -> bool {
        self.secs < other.secs || (self.secs == other.secs && self.nanos <= other.nanos)
    }

    /// Whole days from `earlier` to `self`, rounded toward zero (chrono's `num_days`).
    pub open spec fn spec_days_since(&self, earlier: Timestamp) -> int {
        trunc_div(trunc_div(self.total_nanos() - earlier.total_nanos(), 1_000_000_000), 86400)
    }

    /// Whether `self` is no later than `other`.
    pub fn not_after(&self, other: &Timestamp) -> (r: bool)
        ensures
            r == self.spec_not_after(*other),
    {
        self.secs < other.secs || (self.secs == other.secs && self.nanos <= other.nanos)
    }

    /// The later of two instants.
    pub fn later_of(a: Timestamp, b: Timestamp) -> (r: Timestamp)
        ensures
            r == (if a.spec_not_after(b) { b } else { a }),
    {
        if a.not_after(&b) {
            b
        } else {
            a
        }
    }

    /// Whole days elapsed from `earlier` to `self` (negative when `earlier` is later),
    /// rounded toward zero.
    pub fn days_since(&self, earlier: &Timestamp) -> (r: i64)
        requires
            self.wf(),
            earlier.wf(),
        ensures
            r == self.spec_days_since(*earlier),
    {
        let mut secs: i128 = self.secs as i128 - earlier.secs as i128;
        let mut nanos: i128 = self.nanos as i128 - earlier.nanos as i128;
        if nanos < 0 {
            secs = secs - 1;
            nanos = nanos + 1_000_000_000;
        }
        proof {
            lemma_whole_seconds(self.total_nanos() - earlier.total_nanos(), secs as int, nanos as int);
        }
        let whole: i128 = if secs < 0 && nanos > 0 {
            secs + 1
        } else {
            secs
        };
        let days: i128 = if whole >= 0 {
            let w: u128 = whole as u128;
            (w / 86400) as i128
        } else {
            let w: u128 = (-whole) as u128;
            -((w / 86400) as i128)
        };
        days as i64
    }
}

/// Splitting a nanosecond count into whole seconds and a remainder in `[0, 1e9)`
/// gives the truncated whole-second count the way chrono's `num_seconds` does.
proof fn lemma_whole_seconds(total: int, secs: int, nanos: int)
    requires
        total == secs * 1_000_000_000 + nanos,
        0 <= nanos < 1_000_000_000,
    ensures
        trunc_div(total, 1_000_000_000) == (if secs < 0 && nanos > 0 { secs + 1 } else { secs }),
{
    if secs >= 0 {
        assert(total / 1_000_000_000 == secs) by (nonlinear_arith)
            requires
                total == secs * 1_000_000_000 + nanos,
                0 <= nanos < 1_000_000_000,
                secs >= 0,
        ;
    } else if nanos > 0 {
        assert((-total) / 1_000_000_000 == -(secs + 1)) by (nonlinear_arith)
            requires
                -total == (-(secs + 1)) * 1_000_000_000 + (1_000_000_000 - nanos),
                0 < 1_000_000_000 - nanos < 1_000_000_000,
                secs < 0,
        ;
    } else {
        assert((-total) / 1_000_000_000 == -secs) by (nonlinear_arith)
            requires
                -total == (-secs) * 1_000_000_000,
                secs < 0,
        ;
    }
}

/// The system clock as std declares it; opaque here.
#[verifier::external_type_specification]
#[verifier::external_body]
pub struct ExSystemTime(std::time::SystemTime);

/// std `SystemTime::now`: the system clock's current reading. Nothing is stated
/// of which instant it is.
#[verifier::external_body]
fn system_now() -> SystemTime {
    SystemTime::now()
}

/// std `SystemTime::duration_since`, measured from `UNIX_EPOCH`: the time elapsed
/// since the epoch, `None` where the reading lies before the epoch (the call's
/// error). Nothing is stated of the elapsed time itself.
#[verifier::external_body]
fn since_epoch(t: &SystemTime) -> Option<Duration> {
    t.duration_since(std::time::UNIX_EPOCH).ok()
}

/// std `Duration::as_secs`: the whole seconds of `d`. Nothing is stated of the
/// value, since `Duration` is opaque here.
#[verifier::external_body]
fn whole_secs(d: &Duration) -> u64 {
    d.as_secs()
}

/// std `Duration::subsec_nanos`: the sub-second part of `d` in nanoseconds, which
/// std documents to be below one billion.
#[verifier::external_body]
fn sub_second_nanos(d: &Duration) -> (r: u32)
    ensures
        r < 1_000_000_000,
{
    d.subsec_nanos()
}

/// The current time from the system clock, as seconds and nanoseconds since the
/// Unix epoch. `None` when the clock reads before the epoch or when the seconds do
/// not fit in 64 signed bits.
pub(crate) fn now() -> (t: Option<Timestamp>)
    ensures
        t matches Some(x) ==> x.secs >= 0 && x.wf(),
{
    let reading = system_now();
    match since_epoch(&reading) {
        Some(d) => {
            let secs: u64 = whole_secs(&d);
            if secs <= i64::MAX as u64 {
                Some(Timestamp { secs: secs as i64, nanos: sub_second_nanos(&d) })
            } else {
                None
            }
        },
        None => None,
    }
}

/// A clock reading, if any, is well-formed.
pub open spec fn reading_ok(t: Option<Timestamp>) -> bool {
    t matches Some(x) ==> x.wf()
}

/// The epoch: seconds and sub-second part zero.
pub open spec fn epoch() -> Timestamp {
    Timestamp { secs: 0, nanos: 0 }
}

/// The instant stamped on new records: the current time, or the epoch when the
/// clock gives none.
pub fn stamp_now() -> (t: Timestamp)
    ensures
        t.wf(),
        t.secs >= 0,
{
    match now() {
        Some(x) => x,
        None => Timestamp { secs: 0, nanos: 0 },
    }
}

} // verus!
