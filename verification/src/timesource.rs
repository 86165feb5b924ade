//! Clock and local-offset sources.
//!
//! Every function that depends on "now" or on the machine's UTC offset takes a
//! `TimeSource` value, so the rest of the library is deterministic in its
//! inputs. `DefaultTimeSource` reads the real clock through the `time` crate;
//! `FixedTimeSource` holds one fixed instant.

use vstd::prelude::*;

use crate::entry::Time;

verus! {

/// Supplies the current instant and the local UTC offset in minutes.
///
/// Implementations promise only that what they hand out is well-formed; no
/// contract here pins the actual wall-clock value.
pub trait TimeSource {
    /// The local UTC offset, in minutes east of UTC.
    fn local_offset(&self) -> (off: i16)
        ensures
            -1559 <= off <= 1559,
    ;

    /// The current instant, at minute granularity.
    fn now(&self) -> (t: Time)
        ensures
            t.wf(),
    ;
}

/// Relies on `time::OffsetDateTime::now_local`: the current local date and
/// time, decomposed into year, month, day, hour, minute and the offset's
/// whole minutes. The `time` crate documents that `month` is in `1..=12`,
/// `day` in `1..=31`, `hour` below 24, `minute` below 60, the year within
/// `-9999..=9999`, and the offset within one `UtcOffset` (at most ±25:59:59,
/// so at most 1559 whole minutes). `None` when the local offset cannot be
/// determined.
#[verifier::external_body]
fn now_local_parts() -> (r: Option<(i32, u8, u8, u8, u8, i16)>)
    ensures
        r is Some ==> {
            let (y, mo, d, h, mi, off) = r->Some_0;
            &&& -9999 <= y <= 9999
            &&& 1 <= mo <= 12
            &&& 1 <= d <= 31
            &&& h < 24
            &&& mi < 60
            &&& -1559 <= off <= 1559
        },
{
    match time::OffsetDateTime::now_local() {
        Ok(t) => Some((
            t.year(),
            u8::from(t.month()),
            t.day(),
            t.hour(),
            t.minute(),
            t.offset().whole_minutes(),
        )),
        Err(_) => None,
    }
}

/// Relies on `time::UtcOffset::current_local_offset`: the local offset's
/// whole minutes, within ±25:59 per the `UtcOffset` type; `None` when the
/// offset cannot be determined.
#[verifier::external_body]
fn current_local_offset_minutes() -> (r: Option<i16>)
    ensures
        r is Some ==> -1559 <= r->Some_0 <= 1559,
{
    match time::UtcOffset::current_local_offset() {
        Ok(off) => Some(off.whole_minutes()),
        Err(_) => None,
    }
}

/// The time source backed by the machine's clock and time zone.
pub struct DefaultTimeSource;

/// The instant reported when the machine's clock is unreadable or outside
/// the representable range: 2000-01-01 00:00 UTC.
fn fallback_time() -> (t: Time)
    ensures
        t.wf(),
        !t.implied,
{
    Time { year: 2000, month: 1, day: 1, hour: 0, minute: 0, offset: 0, implied: false }
}

impl TimeSource for DefaultTimeSource {
    fn local_offset(&self) -> (off: i16)
        ensures
            -1559 <= off <= 1559,
    {
        match current_local_offset_minutes() {
            Some(off) => off,
            None => 0,
        }
    }

    fn now(&self) -> (t: Time)
        ensures
            t.wf(),
    {
        match now_local_parts() {
            Some((y, mo, d, h, mi, off)) => {
                if 1 <= y && y <= 9999 {
                    match Time::from_parts(y as u16, mo, d, h, mi, off, false) {
                        Some(t) => t,
                        None => fallback_time(),
                    }
                } else {
                    fallback_time()
                }
            },
            None => fallback_time(),
        }
    }
}

/// A time source that always reports one fixed instant and its offset.
pub struct FixedTimeSource {
    t: Time,
}

impl FixedTimeSource {
    #[verifier::type_invariant]
    spec fn inv(self) -> bool {
        self.t.wf()
    }

    /// A source that reports `t` as the current instant.
    pub fn new(t: Time) -> (r: FixedTimeSource)
        requires
            t.wf(),
        ensures
            r.spec_now() == t,
    {
        FixedTimeSource { t }
    }

    /// The instant this source reports.
    pub closed spec fn spec_now(self) -> Time {
        self.t
    }
}

impl TimeSource for FixedTimeSource {
    fn local_offset(&self) -> (off: i16)
        ensures
            -1559 <= off <= 1559,
            -1559 <= self.spec_now().offset <= 1559 ==> off == self.spec_now().offset,
    {
        proof {
            use_type_invariant(self);
        }
        if -1559 <= self.t.offset && self.t.offset <= 1559 {
            self.t.offset
        } else {
            0
        }
    }

    fn now(&self) -> (t: Time)
        ensures
            t.wf(),
            t == self.spec_now(),
    {
        proof {
            use_type_invariant(self);
        }
        self.t
    }
}

} // verus!
