//! The proleptic Gregorian calendar, as far as a day-by-day cursor needs it.

use vstd::prelude::*;

verus! {

/// Whether `year` is a leap year: divisible by 4, and not by 100 unless by 400.
pub open spec fn leap_year(year: int) -> bool {
    year % 4 == 0 && (year % 100 != 0 || year % 400 == 0)
}

/// The number of days of `month` (1 to 12) in `year`; 31 for any other number.
pub open spec fn month_length(month: int, year: int) -> int {
    if month == 4 || month == 6 || month == 9 || month == 11 {
        30
    } else if month == 2 {
        if leap_year(year) { 29 } else { 28 }
    } else {
        31
    }
}

/// Whether (`year`, `month`, `day`) names a day of the calendar.
pub open spec fn valid_date(year: int, month: int, day: int) -> bool {
    1 <= month <= 12 && 1 <= day <= month_length(month, year)
}

/// Whether `year` is a leap year.
pub fn is_leap_year(year: i32) -> (r: bool)
    ensures
        r == leap_year(year as int),
{
    year % 4 == 0 && (year % 100 != 0 || year % 400 == 0)
}

/// The number of days of `month` in `year`.
pub fn days_in_month(month: u32, year: i32) -> (r: u32)
    ensures
        r == month_length(month as int, year as int),
{
    if month == 4 || month == 6 || month == 9 || month == 11 {
        30
    } else if month == 2 {
        if is_leap_year(year) { 29 } else { 28 }
    } else {
        31
    }
}

/// The day that follows (`year`, `month`, `day`), as (year, month, day): the
/// day number grows until the month is over, the month until the year is.
pub open spec fn day_after(year: int, month: int, day: int) -> (int, int, int) {
    if day >= month_length(month, year) {
        if month >= 12 {
            (year + 1, 1, 1)
        } else {
            (year, month + 1, 1)
        }
    } else {
        (year, month, day + 1)
    }
}

/// Whether the date `a` lies strictly before the date `b`.
pub open spec fn date_lt(a: (int, int, int), b: (int, int, int)) -> bool {
    a.0 < b.0 || (a.0 == b.0 && (a.1 < b.1 || (a.1 == b.1 && a.2 < b.2)))
}

/// The day after a day of the calendar is a day of the calendar, it is later,
/// and no day of the calendar lies between the two.
pub proof fn lemma_day_after_is_successor(year: int, month: int, day: int)
    requires
        valid_date(year, month, day),
    ensures
        valid_date(
            day_after(year, month, day).0,
            day_after(year, month, day).1,
            day_after(year, month, day).2,
        ),
        date_lt((year, month, day), day_after(year, month, day)),
        forall|y: int, m: int, d: int|
            #[trigger] valid_date(y, m, d) && date_lt((year, month, day), (y, m, d)) ==> !date_lt(
                (y, m, d),
                day_after(year, month, day),
            ),
{
}

/// A calendar instant at a resolution of one second: the mathematical value
/// that a [`Timestamp`] stands for.
pub struct Instant {
    pub year: int,
    pub month: int,
    pub day: int,
    pub hour: int,
    pub minute: int,
    pub second: int,
}

impl Instant {
    /// The date is a day of the calendar and the time a second of the day.
    pub open spec fn valid(self) -> bool {
        &&& valid_date(self.year, self.month, self.day)
        &&& 0 <= self.hour < 24
        &&& 0 <= self.minute < 60
        &&& 0 <= self.second < 60
    }

    /// Strictly earlier: year first, then month, day, hour, minute, second.
    pub open spec fn lt(self, other: Instant) -> bool {
        ||| self.year < other.year
        ||| self.year == other.year && self.month < other.month
        ||| self.year == other.year && self.month == other.month && self.day < other.day
        ||| self.year == other.year && self.month == other.month && self.day == other.day
            && self.hour < other.hour
        ||| self.year == other.year && self.month == other.month && self.day == other.day
            && self.hour == other.hour && self.minute < other.minute
        ||| self.year == other.year && self.month == other.month && self.day == other.day
            && self.hour == other.hour && self.minute == other.minute && self.second
            < other.second
    }

    /// Earlier or the same instant.
    pub open spec fn le(self, other: Instant) -> bool {
        self == other || self.lt(other)
    }
}

/// A local calendar timestamp: year, month (1 to 12), day of the month,
/// hour, minute and second. A timestamp always names an instant of the
/// calendar. Timestamps are ordered field by field in that order, which is
/// the order of time on a calendar without clock changes.
#[derive(Clone, Copy, Debug, PartialEq, Eq, PartialOrd, Ord, Hash, Structural)]
pub struct Timestamp {
    pub(crate) year: i32,
    pub(crate) month: u32,
    pub(crate) day: u32,
    pub(crate) hour: u32,
    pub(crate) minute: u32,
    pub(crate) second: u32,
}

impl View for Timestamp {
    type V = Instant;

    closed spec fn view(&self) -> Instant {
        Instant {
            year: self.year as int,
            month: self.month as int,
            day: self.day as int,
            hour: self.hour as int,
            minute: self.minute as int,
            second: self.second as int,
        }
    }
}

impl Timestamp {
    /// Every timestamp names an instant of the calendar.
    #[verifier::type_invariant]
    pub open spec fn names_an_instant(self) -> bool {
        self@.valid()
    }

    /// The timestamp of the given fields, if they name an instant of the
    /// calendar.
    pub fn new(year: i32, month: u32, day: u32, hour: u32, minute: u32, second: u32) -> (r: Option<
        Timestamp,
    >)
        ensures
            r is Some <==> (Instant {
                year: year as int,
                month: month as int,
                day: day as int,
                hour: hour as int,
                minute: minute as int,
                second: second as int,
            }).valid(),
            r matches Some(t) ==> t@ == (Instant {
                year: year as int,
                month: month as int,
                day: day as int,
                hour: hour as int,
                minute: minute as int,
                second: second as int,
            }),
    {
        if 1 <= month && month <= 12 && 1 <= day && day <= days_in_month(month, year) && hour < 24
            && minute < 60 && second < 60 {
            Some(Timestamp { year, month, day, hour, minute, second })
        } else {
            None
        }
    }

    /// The year.
    pub fn year(&self) -> (r: i32)
        ensures
            r == self@.year,
    {
        self.year
    }

    /// The month of the year, from 1.
    pub fn month(&self) -> (r: u32)
        ensures
            r == self@.month,
            1 <= r <= 12,
    {
        proof {
            use_type_invariant(self);
        }
        self.month
    }

    /// The day of the month, from 1.
    pub fn day(&self) -> (r: u32)
        ensures
            r == self@.day,
            1 <= r <= 31,
    {
        proof {
            use_type_invariant(self);
        }
        self.day
    }

    /// The hour of the day, from 0.
    pub fn hour(&self) -> (r: u32)
        ensures
            r == self@.hour,
            r < 24,
    {
        proof {
            use_type_invariant(self);
        }
        self.hour
    }

    /// The minute of the hour, from 0.
    pub fn minute(&self) -> (r: u32)
        ensures
            r == self@.minute,
            r < 60,
    {
        proof {
            use_type_invariant(self);
        }
        self.minute
    }

    /// The second of the minute, from 0.
    pub fn second(&self) -> (r: u32)
        ensures
            r == self@.second,
            r < 60,
    {
        proof {
            use_type_invariant(self);
        }
        self.second
    }

    /// Whether `self` is strictly earlier than `other`.
    pub fn is_before(&self, other: &Timestamp) -> (r: bool)
        ensures
            r == self@.lt(other@),
    {
        if self.year != other.year {
            self.year < other.year
        } else if self.month != other.month {
            self.month < other.month
        } else if self.day != other.day {
            self.day < other.day
        } else if self.hour != other.hour {
            self.hour < other.hour
        } else if self.minute != other.minute {
            self.minute < other.minute
        } else {
            self.second < other.second
        }
    }
}

/// The order of instants is a strict total order.
pub proof fn lemma_instant_order(a: Instant, b: Instant, c: Instant)
    ensures
        !a.lt(a),
        a.lt(b) && b.lt(c) ==> a.lt(c),
        a.lt(b) || a == b || b.lt(a),
        !(a.lt(b) && b.lt(a)),
{
}

} // verus!
