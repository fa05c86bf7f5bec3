//! Time windows: a start and a length in seconds or milliseconds, turned
//! into the inclusive pair of instants a query filters by.
use vstd::prelude::*;
use crate::kinds::TimeWindowUnit;
use crate::model::{ChainError, Timestamp};

verus! {

/// Whether `chrono::DateTime::<Utc>::from_timestamp` makes an instant of
/// these parts: the day lies between 1 January of year -262143 and
/// 31 December of year 262142 of the proleptic Gregorian calendar, and the
/// nanosecond part is below one billion, or below two billion in the last
/// second of a minute (a leap second).
pub open spec fn utc_representable(secs: i64, nanos: u32) -> bool {
    &&& -8_334_601_228_800 <= secs <= 8_210_266_876_799
    &&& (nanos < 1_000_000_000 || (nanos < 2_000_000_000 && secs % 60 == 59))
}

/// Calls `chrono::DateTime::<Utc>::from_timestamp` and reads the instant
/// back as whole seconds and nanoseconds. The contract claims what chrono's
/// source shows: an instant is made exactly when the day fits chrono's
/// calendar range (years -262143 to 262142) and the nanosecond part is
/// below one billion (two billion in a leap second), and a made instant
/// gives its parts back unchanged, as chrono documents.
#[verifier::external_body]
fn utc_instant(secs: i64, nanos: u32) -> (r: Option<Timestamp>)
    ensures
        r is Some <==> utc_representable(secs, nanos),
        r matches Some(t) ==> t.secs == secs && t.nanos == nanos,
{
    match chrono::DateTime::<chrono::Utc>::from_timestamp(secs, nanos) {
        Some(dt) => Some(Timestamp { secs: dt.timestamp(), nanos: dt.timestamp_subsec_nanos() }),
        None => None,
    }
}

/// A window of time starting at `start` and lasting `delta`, both in `unit`.
#[derive(Debug, Clone, Copy, PartialEq, Eq, Structural)]
pub struct ThoughtTimeWindow {
    /// Start, since the Unix epoch.
    pub start: i64,
    /// Length.
    pub delta: u64,
    /// Unit of `start` and `delta`.
    pub unit: TimeWindowUnit,
}

/// The seconds and nanoseconds of the first and last instant of a window,
/// or `None` when its end overflows. The end is inclusive: the last
/// nanosecond of the last second or millisecond. The length is a
/// non-negative number, added to the start without wrapping.
pub open spec fn window_parts(w: ThoughtTimeWindow) -> Option<((i64, u32), (i64, u32))> {
    let end = w.start + w.delta;
    if end > i64::MAX {
        None
    } else {
        match w.unit {
            TimeWindowUnit::Seconds => Some(((w.start, 0u32), (end as i64, 999_999_999u32))),
            TimeWindowUnit::Milliseconds => Some((
                ((w.start / 1000) as i64, ((w.start % 1000) * 1_000_000) as u32),
                ((end / 1000) as i64, ((end % 1000) * 1_000_000 + 999_999) as u32),
            )),
        }
    }
}

/// The parts of a window's ends: the start is never after the end, and the
/// nanosecond parts are below one billion.
proof fn lemma_window_parts_ordered(w: ThoughtTimeWindow)
    ensures
        window_parts(w) matches Some((s, u)) ==> {
            &&& s.1 < 1_000_000_000 && u.1 < 1_000_000_000
            &&& s.0 < u.0 || (s.0 == u.0 && s.1 <= u.1)
        },
{
    let end = w.start + w.delta;
    if end <= i64::MAX {
        match w.unit {
            TimeWindowUnit::Seconds => {},
            TimeWindowUnit::Milliseconds => {
                let a = w.start as int;
                let b = end as int;
                assert(a <= b);
                assert(0 <= a % 1000 < 1000 && 0 <= b % 1000 < 1000) by (nonlinear_arith);
                assert(a == 1000 * (a / 1000) + a % 1000 && b == 1000 * (b / 1000) + b % 1000) by (nonlinear_arith);
                assert(a / 1000 <= b / 1000) by (nonlinear_arith)
                    requires a <= b, a == 1000 * (a / 1000) + a % 1000, b == 1000 * (b / 1000) + b % 1000,
                        0 <= a % 1000 < 1000, 0 <= b % 1000 < 1000;
                assert(a / 1000 == b / 1000 ==> a % 1000 <= b % 1000);
                assert((a % 1000) * 1_000_000 < 1_000_000_000) by (nonlinear_arith) requires 0 <= a % 1000 < 1000;
                assert((b % 1000) * 1_000_000 + 999_999 < 1_000_000_000) by (nonlinear_arith) requires 0 <= b % 1000 < 1000;
                assert(a % 1000 <= b % 1000 ==> (a % 1000) * 1_000_000 <= (b % 1000) * 1_000_000 + 999_999) by (nonlinear_arith);
                assert(i64::MIN / 1000 <= a / 1000 <= i64::MAX / 1000) by (nonlinear_arith)
                    requires i64::MIN <= a <= i64::MAX, a == 1000 * (a / 1000) + a % 1000, 0 <= a % 1000 < 1000;
                assert(i64::MIN / 1000 <= b / 1000 <= i64::MAX / 1000) by (nonlinear_arith)
                    requires i64::MIN <= b <= i64::MAX, b == 1000 * (b / 1000) + b % 1000, 0 <= b % 1000 < 1000;
            },
        }
    }
}

/// The first and last instant of a window, when both can be made.
pub open spec fn window_bounds(w: ThoughtTimeWindow) -> Option<(Timestamp, Timestamp)> {
    match window_parts(w) {
        Some((s, u)) => if utc_representable(s.0, s.1) && utc_representable(u.0, u.1) {
            Some((Timestamp { secs: s.0, nanos: s.1 }, Timestamp { secs: u.0, nanos: u.1 }))
        } else {
            None
        },
        None => None,
    }
}

/// The refusal message for a window whose end overflows.
pub open spec fn overflow_message(unit: TimeWindowUnit) -> Seq<char> {
    match unit {
        TimeWindowUnit::Seconds => "second-based time window overflows i64"@,
        TimeWindowUnit::Milliseconds => "millisecond-based time window overflows i64"@,
    }
}

impl ThoughtTimeWindow {
    /// The first and last instant of the window. A window whose end
    /// overflows, or whose instants chrono cannot represent, is refused.
    pub fn to_bounds(self) -> (r: Result<(Timestamp, Timestamp), ChainError>)
        ensures
            r is Ok <==> window_bounds(self) is Some,
            r matches Ok(b) ==> window_bounds(self) == Some(b),
            window_parts(self) is None ==> (r matches Err(ChainError::InvalidInput(m)) && m@ == overflow_message(self.unit)),
            r matches Ok((a, b)) ==> crate::model::ts_le(a, b),
            window_parts(self) matches Some((s, u)) ==> {
                &&& r is Ok <==> (utc_representable(s.0, s.1) && utc_representable(u.0, u.1))
                &&& r matches Ok((a, b)) ==> a == (Timestamp { secs: s.0, nanos: s.1 }) && b == (Timestamp { secs: u.0, nanos: u.1 })
                &&& r matches Err(e) ==> (e matches ChainError::InvalidInput(m) && m@
                    == "time window falls outside the supported UTC timestamp range"@)
            },
    {
        proof {
            lemma_window_parts_ordered(self);
        }
        let wide = (self.start as i128) + (self.delta as i128);
        let end: i64 = if wide <= (i64::MAX as i128) {
            wide as i64
        } else {
            return Err(ChainError::InvalidInput(
                match self.unit {
                    TimeWindowUnit::Seconds => String::from_str("second-based time window overflows i64"),
                    TimeWindowUnit::Milliseconds => String::from_str("millisecond-based time window overflows i64"),
                },
            ));
        };
        let (ss, sn, us, un) = match self.unit {
            TimeWindowUnit::Seconds => (self.start, 0u32, end, 999_999_999u32),
            TimeWindowUnit::Milliseconds => {
                let ss = self.start.checked_div_euclid(1000).unwrap();
                let sr = self.start.checked_rem_euclid(1000).unwrap();
                let us = end.checked_div_euclid(1000).unwrap();
                let ur = end.checked_rem_euclid(1000).unwrap();
                ((ss, (sr as u32) * 1_000_000, us, (ur as u32) * 1_000_000 + 999_999))
            },
        };
        let range_error = "time window falls outside the supported UTC timestamp range";
        let a = match utc_instant(ss, sn) {
            Some(t) => t,
            None => {
                return Err(ChainError::InvalidInput(String::from_str(range_error)));
            },
        };
        let b = match utc_instant(us, un) {
            Some(t) => t,
            None => {
                return Err(ChainError::InvalidInput(String::from_str(range_error)));
            },
        };
        Ok((a, b))
    }
}

} // verus!
