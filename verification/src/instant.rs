//! Instants on the UTC time line, counted in whole seconds from the Unix epoch,
//! together with the calendar readings that the analyses need.

use chrono::{DateTime, Datelike, Timelike};
use vstd::prelude::*;

verus! {

/// The first second that the calendar can represent: midnight of 1 January of year -262143.
pub const MIN_TIMESTAMP: i64 = -8_334_601_228_800;

/// The last second that the calendar can represent: the end of 31 December of year 262142.
pub const MAX_TIMESTAMP: i64 = 8_210_266_876_799;

/// Whether `secs` seconds from the epoch fall inside the calendar's range.
pub open spec fn representable(secs: int) -> bool {
    MIN_TIMESTAMP <= secs <= MAX_TIMESTAMP
}

/// The hour of the day, 0 to 23, of the instant `secs` seconds from the epoch.
pub open spec fn hour_of(secs: int) -> int {
    (secs % 86_400) / 3_600
}

/// The number of whole days between the epoch and the day that holds `secs`.
pub open spec fn day_number(secs: int) -> int {
    secs / 86_400
}

/// The position in the week, Monday being 0, of the day that holds `secs`.
/// Day 0 of the Unix era is a Thursday.
pub open spec fn weekday_index(secs: int) -> int {
    (day_number(secs) + 3) % 7
}

/// The day of the week of the instant `secs` seconds from the epoch.
pub open spec fn weekday_of(secs: int) -> Weekday {
    let index = weekday_index(secs);
    if index == 0 {
        Weekday::Mon
    } else if index == 1 {
        Weekday::Tue
    } else if index == 2 {
        Weekday::Wed
    } else if index == 3 {
        Weekday::Thu
    } else if index == 4 {
        Weekday::Fri
    } else if index == 5 {
        Weekday::Sat
    } else {
        Weekday::Sun
    }
}

/// Whether the instant `secs` seconds from the epoch falls on a Saturday or a Sunday.
pub open spec fn is_weekend_at(secs: int) -> bool {
    weekday_index(secs) >= 5
}

/// The year and month of an instant, written as the calendar writes them
/// (`2024-03`). It stands for what chrono's formatter produces for the pattern
/// `%Y-%m`; the calendar arithmetic behind it is chrono's and is not restated here.
pub uninterp spec fn month_key_of(secs: int) -> Seq<char>;

/// A day of the week.
#[derive(Clone, Copy, Debug, PartialEq, Eq, Structural)]
pub enum Weekday {
    Mon,
    Tue,
    Wed,
    Thu,
    Fri,
    Sat,
    Sun,
}

impl Weekday {
    /// Whether the day is a Saturday or a Sunday.
    pub open spec fn weekend(self) -> bool {
        self == Weekday::Sat || self == Weekday::Sun
    }

    /// Whether the day is a Saturday or a Sunday.
    pub fn is_weekend(&self) -> (weekend: bool)
        ensures
            weekend == self.weekend(),
    {
        match self {
            Weekday::Sat => true,
            Weekday::Sun => true,
            _ => false,
        }
    }
}

/// A point on the UTC time line with a resolution of one second.
///
/// Every value lies inside the calendar's range, so its hour, weekday and
/// month can always be read.
#[derive(Clone, Copy, Debug)]
pub struct Instant {
    secs: i64,
}

impl View for Instant {
    type V = int;

    closed spec fn view(&self) -> int {
        self.secs as int
    }
}

/// `chrono::DateTime::from_timestamp` with zero nanoseconds: it answers `Some`
/// exactly for the seconds whose day lies in a year from -262143 to 262142,
/// which is the range between `MIN_TIMESTAMP` and `MAX_TIMESTAMP`.
#[verifier::external_body]
fn calendar_accepts(secs: i64) -> (accepted: bool)
    ensures
        accepted == representable(secs as int),
{
    DateTime::from_timestamp(secs, 0).is_some()
}

/// `chrono::Timelike::hour` on the UTC date-time made from `secs`: the seconds
/// since midnight (the Euclidean remainder by 86400) divided by 3600.
#[verifier::external_body]
fn calendar_hour(secs: i64) -> (hour: u32)
    requires
        representable(secs as int),
    ensures
        hour == hour_of(secs as int),
{
    DateTime::from_timestamp(secs, 0).unwrap().hour()
}

/// `chrono::Datelike::weekday` on the UTC date-time made from `secs`: the day
/// of the week in the proleptic Gregorian calendar, in which the epoch's day is
/// a Thursday and the days of the week follow each other without a gap.
#[verifier::external_body]
fn calendar_weekday(secs: i64) -> (day: Weekday)
    requires
        representable(secs as int),
    ensures
        day == weekday_of(secs as int),
{
    match DateTime::from_timestamp(secs, 0).unwrap().weekday() {
        chrono::Weekday::Mon => Weekday::Mon,
        chrono::Weekday::Tue => Weekday::Tue,
        chrono::Weekday::Wed => Weekday::Wed,
        chrono::Weekday::Thu => Weekday::Thu,
        chrono::Weekday::Fri => Weekday::Fri,
        chrono::Weekday::Sat => Weekday::Sat,
        chrono::Weekday::Sun => Weekday::Sun,
    }
}

/// `chrono::DateTime::format` with the pattern `%Y-%m`, rendered to a string.
/// The text depends on the instant alone; the contract gives it its name.
#[verifier::external_body]
fn calendar_month_key(secs: i64) -> (key: String)
    requires
        representable(secs as int),
    ensures
        key@ == month_key_of(secs as int),
{
    DateTime::from_timestamp(secs, 0).unwrap().format("%Y-%m").to_string()
}

impl Instant {
    #[verifier::type_invariant]
    spec fn in_range(self) -> bool {
        representable(self.secs as int)
    }

    /// The instant `secs` seconds after the epoch (before it, if negative), or
    /// `None` when that lies outside the calendar's range.
    pub fn from_timestamp(secs: i64) -> (instant: Option<Instant>)
        ensures
            representable(secs as int) ==> instant.is_some() && instant.unwrap()@ == secs,
            !representable(secs as int) ==> instant.is_none(),
    {
        if calendar_accepts(secs) {
            Some(Instant { secs })
        } else {
            None
        }
    }

    /// The Unix epoch, 1970-01-01 00:00:00 UTC.
    pub fn epoch() -> (instant: Instant)
        ensures
            instant@ == 0,
    {
        Instant { secs: 0 }
    }

    /// The instant `secs` seconds from the epoch, or the epoch itself when
    /// `secs` lies outside the calendar's range.
    pub fn from_timestamp_or_epoch(secs: i64) -> (instant: Instant)
        ensures
            instant@ == (if representable(secs as int) { secs as int } else { 0 }),
    {
        match Instant::from_timestamp(secs) {
            Some(instant) => instant,
            None => Instant::epoch(),
        }
    }

    /// The seconds between the epoch and this instant.
    pub fn timestamp(&self) -> (secs: i64)
        ensures
            secs == self@,
            representable(secs as int),
    {
        proof {
            use_type_invariant(self);
        }
        self.secs
    }

    /// The hour of the day, from 0 to 23.
    pub fn hour(&self) -> (hour: u32)
        ensures
            hour == hour_of(self@),
            hour < 24,
    {
        proof {
            use_type_invariant(self);
        }
        calendar_hour(self.secs)
    }

    /// The day of the week.
    pub fn weekday(&self) -> (day: Weekday)
        ensures
            day == weekday_of(self@),
    {
        proof {
            use_type_invariant(self);
        }
        calendar_weekday(self.secs)
    }

    /// Whether the instant falls on a Saturday or a Sunday.
    pub fn is_weekend(&self) -> (weekend: bool)
        ensures
            weekend == is_weekend_at(self@),
    {
        self.weekday().is_weekend()
    }

    /// The year and month of the instant, as in `2024-03`.
    pub fn month_key(&self) -> (key: String)
        ensures
            key@ == month_key_of(self@),
    {
        proof {
            use_type_invariant(self);
        }
        calendar_month_key(self.secs)
    }

    /// Whether this instant comes strictly before `other`.
    pub fn is_before(&self, other: &Instant) -> (before: bool)
        ensures
            before == (self@ < other@),
    {
        self.secs < other.secs
    }

    /// Two instants with the same distance from the epoch are the same instant.
    pub proof fn lemma_view_determines(a: Instant, b: Instant)
        requires
            a@ == b@,
        ensures
            a == b,
    {
    }
}

} // verus!
