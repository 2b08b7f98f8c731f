//! Calendar arithmetic and the written form of instants.

use crate::event::Timestamp;
use vstd::prelude::*;

verus! {

/// What `chrono::DateTime::checked_add_signed` makes of an instant and a
/// number of milliseconds: another instant, or nothing where the calendar
/// does not reach.
pub uninterp spec fn chrono_add(secs: i64, nanos: u32, millis: i64) -> Option<(i64, u32)>;

/// What `chrono::DateTime::format` writes for an instant: nothing where the
/// calendar does not reach.
pub uninterp spec fn chrono_format(secs: i64, nanos: u32, pattern: Seq<char>) -> Option<Seq<char>>;

/// The nanoseconds since the epoch.
pub open spec fn total_nanos(secs: i64, nanos: u32) -> int {
    secs * 1_000_000_000 + nanos
}

/// Whether the instant is no leap second and lies well within the calendar,
/// which spans some 262,000 years either way.
pub open spec fn in_calendar(secs: i64, nanos: u32) -> bool {
    -8_000_000_000_000 <= secs <= 8_000_000_000_000 && nanos < 1_000_000_000
}

/// Adds milliseconds to an instant with `chrono`'s
/// `DateTime::checked_add_signed`.  The sum is a function of the arguments
/// alone.  Outside leap seconds it is the instant that many milliseconds
/// away, and there is one while it stays well within the calendar.
#[verifier::external_body]
fn add_millis(secs: i64, nanos: u32, millis: i64) -> (sum: Option<(i64, u32)>)
    ensures
        sum == chrono_add(secs, nanos, millis),
        sum is Some && nanos < 1_000_000_000 ==> sum->Some_0.1 < 1_000_000_000 && total_nanos(
            sum->Some_0.0,
            sum->Some_0.1,
        ) == total_nanos(secs, nanos) + millis * 1_000_000,
        in_calendar(secs, nanos) && -100_000_000_000_000 <= millis <= 100_000_000_000_000
            ==> sum is Some,
{
    let start = chrono::DateTime::from_timestamp(secs, nanos)?;
    let sum = start.checked_add_signed(chrono::TimeDelta::try_milliseconds(millis)?)?;
    Some((sum.timestamp(), sum.timestamp_subsec_nanos()))
}

/// Whether the pattern is one of those that instants are written with, both
/// of which `chrono` accepts.
pub open spec fn known_pattern(pattern: Seq<char>) -> bool {
    pattern == "%Y-%m-%d %H:%M:%S"@ || pattern == "%Y-%m-%dT%H:%M:%S%.3fZ"@
}

/// Writes an instant with `chrono`'s `DateTime::format`.  The text is a
/// function of the instant and the pattern alone.
#[verifier::external_body]
fn format_utc(secs: i64, nanos: u32, pattern: &str) -> (text: Option<String>)
    requires
        known_pattern(pattern@),
    ensures
        match text {
            Some(text) => chrono_format(secs, nanos, pattern@) == Some(text@),
            None => chrono_format(secs, nanos, pattern@) is None,
        },
{
    let time = chrono::DateTime::from_timestamp(secs, nanos)?;
    Some(time.format(pattern).to_string())
}

impl Timestamp {
    /// The instant `millis` milliseconds later, or earlier where negative;
    /// nothing where the calendar does not reach.
    pub open spec fn shifted(self, millis: i64) -> Option<Timestamp> {
        match chrono_add(self.secs, self.nanos, millis) {
            Some(sum) => Some(Timestamp { secs: sum.0, nanos: sum.1 }),
            None => None,
        }
    }

    /// The instant `millis` milliseconds later, or earlier where negative;
    /// nothing where the calendar does not reach.
    pub fn shift(self, millis: i64) -> (sum: Option<Timestamp>)
        ensures
            sum == self.shifted(millis),
            sum is Some && self.nanos < 1_000_000_000 ==> sum->Some_0.nanos < 1_000_000_000
                && total_nanos(sum->Some_0.secs, sum->Some_0.nanos) == total_nanos(
                self.secs,
                self.nanos,
            ) + millis * 1_000_000,
            in_calendar(self.secs, self.nanos) && -100_000_000_000_000 <= millis
                <= 100_000_000_000_000 ==> sum is Some,
    {
        match add_millis(self.secs, self.nanos, millis) {
            Some((secs, nanos)) => Some(Timestamp { secs, nanos }),
            None => None,
        }
    }

    /// The instant as date and time of day to the second; empty where the
    /// calendar does not reach.
    pub open spec fn date_and_second(self) -> Seq<char> {
        match chrono_format(self.secs, self.nanos, "%Y-%m-%d %H:%M:%S"@) {
            Some(text) => text,
            None => Seq::empty(),
        }
    }

    /// The instant with date and milliseconds; empty where the calendar does
    /// not reach.
    pub open spec fn date_and_time(self) -> Seq<char> {
        match chrono_format(self.secs, self.nanos, "%Y-%m-%dT%H:%M:%S%.3fZ"@) {
            Some(text) => text,
            None => Seq::empty(),
        }
    }

    /// The instant as date and time of day to the second.
    pub fn to_second_text(self) -> (text: String)
        ensures
            text@ == self.date_and_second(),
    {
        match format_utc(self.secs, self.nanos, "%Y-%m-%d %H:%M:%S") {
            Some(text) => text,
            None => String::new(),
        }
    }

    /// The instant with date and milliseconds.
    pub fn to_milli_text(self) -> (text: String)
        ensures
            text@ == self.date_and_time(),
    {
        match format_utc(self.secs, self.nanos, "%Y-%m-%dT%H:%M:%S%.3fZ") {
            Some(text) => text,
            None => String::new(),
        }
    }
}

/// Times are written by date and second, and by date and millisecond where the
/// instant matters.
pub proof fn law_times_are_written_by_their_pattern(time: Timestamp)
    ensures
        chrono_format(time.secs, time.nanos, "%Y-%m-%d %H:%M:%S"@) matches Some(text)
            ==> time.date_and_second() == text,
        chrono_format(time.secs, time.nanos, "%Y-%m-%dT%H:%M:%S%.3fZ"@) matches Some(text)
            ==> time.date_and_time() == text,
{
}

} // verus!
