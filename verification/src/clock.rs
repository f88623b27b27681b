//! Instants in UTC, held as plain integers, and the `chrono` calls that produce or render them.
use vstd::prelude::*;

use chrono::{DateTime, Days, Utc};

verus! {

/// An instant in UTC: whole seconds since the Unix epoch and the nanoseconds within that
/// second, as `chrono::DateTime<Utc>` reports them through `timestamp()` and
/// `timestamp_subsec_nanos()`.
#[derive(Clone, Copy, Debug, PartialEq, Eq, Structural)]
pub struct Timestamp {
    pub secs: i64,
    pub nanos: u32,
}

/// Seconds in one day: what `checked_add_days(Days::new(1))` adds to an instant in UTC.
pub const SECONDS_PER_DAY: i64 = 86400;

impl Timestamp {
    /// `self` lies strictly before `other` (the order of `DateTime<Utc>`).
    pub open spec fn before(self, other: Timestamp) -> bool {
        self.secs < other.secs || (self.secs == other.secs && self.nanos < other.nanos)
    }

    /// Whether `self` lies strictly before `other`.
    pub fn is_before(&self, other: &Timestamp) -> (r: bool)
        ensures
            r == self.before(*other),
    {
        self.secs < other.secs || (self.secs == other.secs && self.nanos < other.nanos)
    }

    /// Instants that `chrono` can hold and render: from the epoch on, well inside the range of
    /// `NaiveDate`, with a sub-second part below one second.
    pub open spec fn well_inside_range(self) -> bool {
        0 <= self.secs <= 1_000_000_000_000 && self.nanos < 1_000_000_000
    }
}

/// The instant `Utc::now()` reports.
/// Claimed: the seconds are not negative and the nanoseconds stay below one second, since
/// `Utc::now` builds its result from `SystemTime::now().duration_since(UNIX_EPOCH)`.
/// Which instant comes back depends on the clock and is not stated.
#[verifier::external_body]
pub(crate) fn utc_now() -> (t: Timestamp)
    ensures
        t.secs >= 0,
        t.nanos < 1_000_000_000,
{
    let now = Utc::now();
    Timestamp { secs: now.timestamp(), nanos: now.timestamp_subsec_nanos() }
}

/// `DateTime::<Utc>::checked_add_days(Days::new(1))` on the instant `t`.
/// Claimed: a result is exactly one day (86400 seconds) later with the same nanoseconds, and
/// there is one whenever `t` lies well inside `chrono`'s range.
#[verifier::external_body]
pub(crate) fn add_one_day(t: Timestamp) -> (r: Option<Timestamp>)
    ensures
        r matches Some(u) ==> u.secs == t.secs + SECONDS_PER_DAY && u.nanos == t.nanos,
        t.well_inside_range() ==> r is Some,
{
    match DateTime::<Utc>::from_timestamp(t.secs, t.nanos) {
        Some(dt) => match dt.checked_add_days(Days::new(1)) {
            Some(later) => Some(
                Timestamp { secs: later.timestamp(), nanos: later.timestamp_subsec_nanos() },
            ),
            None => None,
        },
        None => None,
    }
}

/// The instant that `DateTime::parse_from_rfc3339(text)` yields, taken to UTC, as
/// (seconds, nanoseconds); `None` where `chrono` rejects the text.
pub uninterp spec fn rfc3339_instant(text: Seq<char>) -> Option<(i64, u32)>;

/// `DateTime::parse_from_rfc3339(text)` followed by `to_utc()`.
/// Claimed: the result is the instant `rfc3339_instant` names for the text.
#[verifier::external_body]
pub(crate) fn parse_rfc3339(text: &str) -> (r: Option<Timestamp>)
    ensures
        match r {
            Some(t) => rfc3339_instant(text@) == Some((t.secs, t.nanos)),
            None => rfc3339_instant(text@) is None,
        },
{
    match DateTime::parse_from_rfc3339(text) {
        Ok(dt) => {
            let utc = dt.to_utc();
            Some(Timestamp { secs: utc.timestamp(), nanos: utc.timestamp_subsec_nanos() })
        },
        Err(_) => None,
    }
}

/// The text that `Display` gives a `DateTime<Utc>` built from (seconds, nanoseconds), such as
/// `2024-05-01 12:00:00.500 UTC`; `None` where `DateTime::from_timestamp` builds none.
pub uninterp spec fn utc_display(secs: i64, nanos: u32) -> Option<Seq<char>>;

/// Renders an instant with `Display` of `DateTime<Utc>`.
/// Claimed: the text is the one `utc_display` names, and there is one whenever the instant lies
/// well inside `chrono`'s range.
#[verifier::external_body]
pub(crate) fn format_utc(t: Timestamp) -> (r: Option<String>)
    ensures
        match r {
            Some(s) => utc_display(t.secs, t.nanos) == Some(s@),
            None => utc_display(t.secs, t.nanos) is None,
        },
        t.well_inside_range() ==> r is Some,
{
    match DateTime::<Utc>::from_timestamp(t.secs, t.nanos) {
        Some(dt) => Some(dt.to_string()),
        None => None,
    }
}

} // verus!
