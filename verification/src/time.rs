//! Points in time.
use vstd::prelude::*;

use crate::text;

verus! {

/// Seconds since 1970 in UTC, and the nanoseconds on top of them.
#[derive(Debug, Clone, Copy, PartialEq, Eq, Structural)]
pub struct Timestamp {
    pub secs: i64,
    pub nanos: u32,
}

impl Timestamp {
    /// `self` is later than `other`.
    pub open spec fn is_after(self, other: Timestamp) -> bool {
        self.secs > other.secs || (self.secs == other.secs && self.nanos > other.nanos)
    }

    pub fn after(self, other: Timestamp) -> (r: bool)
        ensures
            r == self.is_after(other),
    {
        self.secs > other.secs || (self.secs == other.secs && self.nanos > other.nanos)
    }
}

/// `Utc::now` reads the clock: any time may come back.
#[verifier::external_body]
pub(crate) fn now() -> Timestamp {
    let t = chrono::Utc::now();
    Timestamp { secs: t.timestamp(), nanos: t.timestamp_subsec_nanos() }
}

#[verifier::external_type_specification]
#[verifier::external_body]
pub struct ExInstant(std::time::Instant);

/// `Instant::now` reads the clock: any instant may come back.
#[verifier::external_body]
pub(crate) fn started() -> std::time::Instant {
    std::time::Instant::now()
}

/// `Instant::elapsed`, in milliseconds: any duration may come back.
#[verifier::external_body]
pub(crate) fn elapsed_ms(start: &std::time::Instant) -> u64 {
    start.elapsed().as_millis() as u64
}

/// The text that `DateTime::format` gives a time by a pattern; none for a time
/// that `DateTime` cannot hold.
pub uninterp spec fn formatted(secs: i64, nanos: u32, pattern: Seq<char>) -> Option<Seq<char>>;

/// `DateTime::from_timestamp` and `DateTime::format`: the text of a time by a pattern of
/// conversion specifiers. A pattern must be one that `format` takes.
#[verifier::external_body]
fn format_time(secs: i64, nanos: u32, pattern: &str) -> (r: Option<String>)
    requires
        pattern@ == "%Y%m%d-%H%M%S"@,
    ensures
        text::opt_view(r) == formatted(secs, nanos, pattern@),
{
    chrono::DateTime::from_timestamp(secs, nanos).map(|t| t.format(pattern).to_string())
}

/// The second of a time, as it stands in file names.
pub fn file_stamp(t: Timestamp) -> (r: Option<String>)
    ensures
        text::opt_view(r) == formatted(t.secs, t.nanos, "%Y%m%d-%H%M%S"@),
{
    format_time(t.secs, t.nanos, "%Y%m%d-%H%M%S")
}

/// Of two different times exactly one is after the other.
pub proof fn law_times_are_in_order(a: Timestamp, b: Timestamp)
    ensures
        a.nanos < 1_000_000_000 && b.nanos < 1_000_000_000 ==> (a.is_after(b) <==> a.secs
            * 1_000_000_000 + a.nanos > b.secs * 1_000_000_000 + b.nanos),
        a != b ==> (a.is_after(b) <==> !b.is_after(a)),
        !a.is_after(a),
        a.secs > b.secs ==> a.is_after(b),
        a.secs == b.secs && a.nanos > b.nanos ==> a.is_after(b),
{
}

} // verus!
