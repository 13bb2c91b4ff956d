use vstd::prelude::*;

verus! {

/// Seconds in one day.
pub const SECONDS_PER_DAY: i64 = 86_400;

/// The earliest instant that has a calendar date: midnight of January 1, 262144 BCE.
pub const MIN_SECONDS: i64 = -8_334_601_228_800;

/// The latest instant that has a calendar date: the last second of December 31, 262142 CE.
pub const MAX_SECONDS: i64 = 8_210_266_876_799;

/// Whether `secs` seconds after the Unix epoch fall on a representable calendar date.
pub open spec fn valid_seconds(secs: int) -> bool {
    MIN_SECONDS <= secs <= MAX_SECONDS
}

/// The UTC calendar day of an instant, counted in days since January 1, 1970.
pub open spec fn utc_day(secs: int) -> int {
    secs / (SECONDS_PER_DAY as int)
}

/// A calendar date, held as the number of days since January 1, 1970.
#[derive(Clone, Copy, Debug, PartialEq, Eq, Structural)]
pub struct Date {
    pub epoch_day: i32,
}

impl View for Date {
    type V = int;

    open spec fn view(&self) -> int {
        self.epoch_day as int
    }
}

impl Date {
    /// The date that lies `epoch_day` days after January 1, 1970.
    pub fn from_epoch_days(epoch_day: i32) -> (d: Date)
        ensures
            d@ == epoch_day,
    {
        Date { epoch_day }
    }

    /// Whether this date lies strictly after `other`.
    pub fn is_after(&self, other: &Date) -> (b: bool)
        ensures
            b == (self@ > other@),
    {
        self.epoch_day > other.epoch_day
    }
}

/// An instant in UTC, held as whole seconds since the Unix epoch. Every value
/// lies between `MIN_SECONDS` and `MAX_SECONDS`, so it has a calendar date.
#[derive(Clone, Copy, Debug, PartialEq, Eq)]
pub struct Timestamp {
    secs: i64,
}

impl View for Timestamp {
    type V = int;

    closed spec fn view(&self) -> int {
        self.secs as int
    }
}

impl Timestamp {
    #[verifier::type_invariant]
    spec fn in_range(self) -> bool {
        valid_seconds(self.secs as int)
    }

    /// The instant `secs` seconds after the Unix epoch, if it has a calendar date.
    pub fn from_secs(secs: i64) -> (t: Option<Timestamp>)
        ensures
            t is Some <==> valid_seconds(secs as int),
            t matches Some(ts) ==> ts@ == secs,
    {
        if MIN_SECONDS <= secs && secs <= MAX_SECONDS {
            Some(Timestamp { secs })
        } else {
            None
        }
    }

    /// Seconds since the Unix epoch.
    pub fn secs(&self) -> (s: i64)
        ensures
            s == self@,
            valid_seconds(self@),
    {
        proof {
            use_type_invariant(self);
        }
        self.secs
    }

    /// The UTC calendar date on which this instant falls.
    pub fn date(&self) -> (d: Date)
        ensures
            d@ == utc_day(self@),
    {
        proof {
            use_type_invariant(self);
            lemma_utc_day_bounds(self.secs as int);
        }
        match epoch_day_of(self.secs) {
            Some(day) => Date { epoch_day: day },
            None => vstd::pervasive::unreached(),
        }
    }
}

/// The day of every valid instant fits in 32 bits.
pub proof fn lemma_utc_day_bounds(secs: int)
    requires
        valid_seconds(secs),
    ensures
        -96_465_292 <= utc_day(secs) <= 95_026_236,
{
}

/// The date that chrono's `DateTime::<Utc>::date_naive` gives for an instant.
/// `DateTime::from_timestamp` turns the seconds into the instant, and
/// `NaiveDate::to_epoch_days` turns the date into its day number. Not proved:
/// that for every instant between `MIN_SECONDS` and `MAX_SECONDS` there is a
/// date, and that its day number is the number of whole days from the epoch to
/// the instant, rounded down.
#[verifier::external_body]
fn epoch_day_of(secs: i64) -> (day: Option<i32>)
    ensures
        valid_seconds(secs as int) ==> day == Some(utc_day(secs as int) as i32),
{
    match chrono::DateTime::from_timestamp(secs, 0) {
        Some(instant) => Some(instant.date_naive().to_epoch_days()),
        None => None,
    }
}

} // verus!
