//! The running month, as the time of day places it.

use crate::decimal::{integer_text, two_digits, write_integer, write_two_digits};
use chrono::Datelike;
use vstd::prelude::*;
use vstd::string::*;

verus! {

/// The first second that the calendar covers.
pub const FIRST_SECOND: i64 = -8334601228800;

/// The last second that the calendar covers.
pub const LAST_SECOND: i64 = 8210266876799;

/// A day of the Gregorian calendar, continued to all years.
#[derive(Clone, Copy, PartialEq, Eq, Structural, Debug)]
pub struct CivilDate {
    pub year: i32,
    pub month: u32,
    pub day: u32,
}

pub open spec fn is_leap(year: int) -> bool {
    year % 4 == 0 && (year % 100 != 0 || year % 400 == 0)
}

pub open spec fn month_length(year: int, month: int) -> int {
    if month == 2 {
        if is_leap(year) {
            29
        } else {
            28
        }
    } else if month == 4 || month == 6 || month == 9 || month == 11 {
        30
    } else {
        31
    }
}

/// The days of a year that come before a month.
pub open spec fn days_before_month(year: int, month: int) -> int
    decreases month,
{
    if month <= 1 {
        0
    } else {
        days_before_month(year, month - 1) + month_length(year, month - 1)
    }
}

/// The days from 1 January 1970 to 1 January of a year.
pub open spec fn days_before_year(year: int) -> int {
    let past = year - 1;
    365 * past + past / 4 - past / 100 + past / 400 - 719162
}

impl CivilDate {
    pub open spec fn valid(self) -> bool {
        &&& 1 <= self.month <= 12
        &&& 1 <= self.day <= month_length(self.year as int, self.month as int)
    }

    /// The days from 1 January 1970 to this day.
    pub open spec fn days(self) -> int {
        days_before_year(self.year as int) + days_before_month(
            self.year as int,
            self.month as int,
        ) + self.day - 1
    }

    /// The day holds the second.
    pub open spec fn holds(self, second: int) -> bool {
        self.valid() && self.days() * 86400 <= second < (self.days() + 1) * 86400
    }
}

/// The day that a second, counted from the start of 1970 in UTC, belongs to.
pub open spec fn date_of(second: int) -> CivilDate {
    choose|date: CivilDate| date.holds(second)
}

/// `chrono::Utc::now`, as its `timestamp`: the seconds since the start of 1970. The clock may
/// stand anywhere from there to the end of the calendar; one before or after makes it panic.
#[verifier::external_body]
pub(crate) fn utc_now() -> (now: i64)
    ensures
        0 <= now <= LAST_SECOND,
{
    chrono::Utc::now().timestamp()
}

/// A second that the clock may show.
pub closed spec fn clock_may_show(now: int) -> bool {
    exists|read: i64| now == read && #[trigger] call_ensures(utc_now, (), read)
}

/// The second that the clock shows.
pub(crate) fn read_clock() -> (now: i64)
    ensures
        0 <= now <= LAST_SECOND,
        clock_may_show(now as int),
{
    let clock = utc_now;
    let now: i64 = clock();
    assert(call_ensures(utc_now, (), now));
    now
}

/// `chrono::DateTime::from_timestamp` finds the day in UTC that a second belongs to, in the
/// Gregorian calendar continued to all years, and nothing for a second outside the years
/// -262143 to 262142.
#[verifier::external_body]
fn civil_date(second: i64) -> (date: Option<CivilDate>)
    ensures
        match date {
            Some(d) => {
                &&& FIRST_SECOND <= second <= LAST_SECOND
                &&& d.holds(second as int)
                &&& -262143 <= d.year <= 262142
            },
            None => second < FIRST_SECOND || LAST_SECOND < second,
        },
{
    let time = chrono::DateTime::from_timestamp(second, 0)?;
    Some(CivilDate { year: time.year(), month: time.month(), day: time.day() })
}

/// `chrono::NaiveDate::from_ymd_opt` finds every day of the years that the calendar covers, and
/// `and_hms_opt`, `and_utc` and `timestamp` give the second in UTC of a time of that day.
#[verifier::external_body]
fn second_at(date: CivilDate, hour: u32, minute: u32, second: u32) -> (at: Option<i64>)
    requires
        date.valid(),
        -262143 <= date.year <= 262142,
        hour < 24,
        minute < 60,
        second < 60,
    ensures
        at is Some,
        at->0 == date.days() * 86400 + hour * 3600 + minute * 60 + second,
{
    let day = chrono::NaiveDate::from_ymd_opt(date.year, date.month, date.day)?;
    Some(day.and_hms_opt(hour, minute, second)?.and_utc().timestamp())
}

proof fn lemma_months_ordered(year: int, a: int, b: int)
    requires
        1 <= a < b,
    ensures
        days_before_month(year, a) + month_length(year, a) <= days_before_month(year, b),
    decreases b,
{
    if a + 1 < b {
        lemma_months_ordered(year, a, b - 1);
    }
}

proof fn lemma_year_length(year: int)
    ensures
        days_before_year(year + 1) == days_before_year(year) + 365 + (if is_leap(year) {
            1int
        } else {
            0int
        }),
{
}

proof fn lemma_years_ordered(a: int, b: int)
    requires
        a < b,
    ensures
        days_before_year(a) + 365 + (if is_leap(a) {
            1int
        } else {
            0int
        }) <= days_before_year(b),
    decreases b - a,
{
    lemma_year_length(b - 1);
    if a + 1 < b {
        lemma_years_ordered(a, b - 1);
    }
}

/// The day of the year lies within the year.
proof fn lemma_within_year(date: CivilDate)
    requires
        date.valid(),
    ensures
        days_before_year(date.year as int) <= date.days(),
        date.days() < days_before_year(date.year as int) + 365 + (if is_leap(date.year as int) {
            1int
        } else {
            0int
        }),
{
    let y = date.year as int;
    reveal_with_fuel(days_before_month, 13);
}

/// Two days with the same count are the same day.
pub proof fn lemma_day_count_unique(a: CivilDate, b: CivilDate)
    requires
        a.valid(),
        b.valid(),
        a.days() == b.days(),
    ensures
        a == b,
{
    lemma_within_year(a);
    lemma_within_year(b);
    if a.year < b.year {
        lemma_years_ordered(a.year as int, b.year as int);
    } else if b.year < a.year {
        lemma_years_ordered(b.year as int, a.year as int);
    } else if a.month < b.month {
        lemma_months_ordered(a.year as int, a.month as int, b.month as int);
    } else if b.month < a.month {
        lemma_months_ordered(a.year as int, b.month as int, a.month as int);
    }
}

/// A second belongs to one day only.
pub proof fn lemma_date_unique(second: int, date: CivilDate)
    requires
        date.holds(second),
    ensures
        date_of(second) == date,
{
    let other = date_of(second);
    assert(other.days() == date.days());
    lemma_day_count_unique(other, date);
}

/// The days and seconds that a month's usage is asked for.
#[derive(Debug, PartialEq)]
pub struct UsageWindow {
    pub start_date: String,
    pub end_date: String,
    pub start_time: i64,
    pub end_time: i64,
}

/// The mathematical counterpart of [`UsageWindow`].
#[verifier::ext_equal]
pub struct UsageWindowView {
    pub start_date: Seq<char>,
    pub end_date: Seq<char>,
    pub start_time: int,
    pub end_time: int,
}

impl View for UsageWindow {
    type V = UsageWindowView;

    open spec fn view(&self) -> UsageWindowView {
        UsageWindowView {
            start_date: self.start_date@,
            end_date: self.end_date@,
            start_time: self.start_time as int,
            end_time: self.end_time as int,
        }
    }
}

/// A date as year, month and day with dashes between them.
pub open spec fn date_text(year: int, month: nat, day: nat) -> Seq<char> {
    integer_text(year) + "-"@ + two_digits(month) + "-"@ + two_digits(day)
}

/// From the start of the month that `now` belongs to, up to `now`.
pub open spec fn window_at(now: int) -> UsageWindowView {
    let date = date_of(now);
    UsageWindowView {
        start_date: date_text(date.year as int, date.month as nat, 1),
        end_date: date_text(date.year as int, date.month as nat, date.day as nat),
        start_time: (CivilDate { day: 1, ..date }).days() * 86400,
        end_time: now,
    }
}

fn write_date(year: i32, month: u32, day: u32) -> (text: String)
    ensures
        text@ == date_text(year as int, month as nat, day as nat),
{
    let mut text = write_integer(year as i64);
    text.append("-");
    text.append(write_two_digits(month).as_str());
    text.append("-");
    text.append(write_two_digits(day).as_str());
    text
}

/// The window of the month that the second `now` belongs to; nothing where the calendar does
/// not cover it.
pub fn usage_window(now: i64) -> (window: Option<UsageWindow>)
    ensures
        window is Some <==> FIRST_SECOND <= now <= LAST_SECOND,
        window matches Some(w) ==> w@ == window_at(now as int),
{
    match civil_date(now) {
        Some(date) => {
            proof {
                lemma_date_unique(now as int, date);
            }
            let first = CivilDate { year: date.year, month: date.month, day: 1 };
            match second_at(first, 0, 0, 0) {
                Some(start_time) => Some(
                    UsageWindow {
                        start_date: write_date(date.year, date.month, 1),
                        end_date: write_date(date.year, date.month, date.day),
                        start_time,
                        end_time: now,
                    },
                ),
                None => None,
            }
        },
        None => None,
    }
}

/// Days are counted from 1 January 1970, and each day counts one more than the day before it,
/// over the ends of months and years.
pub proof fn days_follow_one_another(date: CivilDate)
    requires
        date.valid(),
    ensures
        (CivilDate { year: 1970, month: 1, day: 1 }).days() == 0,
        date.day < month_length(date.year as int, date.month as int) ==> ({
            let next = CivilDate { day: (date.day + 1) as u32, ..date };
            next.valid() && next.days() == date.days() + 1
        }),
        date.day == month_length(date.year as int, date.month as int) && date.month < 12 ==> ({
            let next = CivilDate { month: (date.month + 1) as u32, day: 1, ..date };
            next.valid() && next.days() == date.days() + 1
        }),
        date.day == 31 && date.month == 12 && date.year < i32::MAX ==> ({
            let next = CivilDate { year: (date.year + 1) as i32, month: 1, day: 1 };
            next.valid() && next.days() == date.days() + 1
        }),
{
    reveal_with_fuel(days_before_month, 13);
    lemma_year_length(date.year as int);
}

/// The lengths of the months, and of the year that they make up.
pub proof fn months_have_their_lengths(year: int)
    ensures
        forall|month: int|
            month == 1 || month == 3 || month == 5 || month == 7 || month == 8 || month == 10
                || month == 12 ==> #[trigger] month_length(year, month) == 31,
        forall|month: int|
            month == 4 || month == 6 || month == 9 || month == 11 ==> #[trigger] month_length(
                year,
                month,
            ) == 30,
        month_length(year, 2) == (if year % 400 == 0 || year % 4 == 0 && year % 100 != 0 {
            29int
        } else {
            28int
        }),
        days_before_year(year + 1) - days_before_year(year) == 337 + month_length(year, 2),
{
    lemma_year_length(year);
}

/// The window of a month runs from its first day at midnight to `now`, and names the days from
/// the first of the month to today.
pub proof fn windows_run_from_the_first_to_now(now: int, today: CivilDate)
    requires
        today.holds(now),
    ensures
        ({
            let window = window_at(now);
            let first = CivilDate { day: 1, ..today };
            let month = integer_text(today.year as int) + "-"@ + two_digits(today.month as nat)
                + "-"@;
            &&& window.start_time == first.days() * 86400
            &&& window.end_time == now
            &&& window.start_date == month + two_digits(1)
            &&& window.end_date == month + two_digits(today.day as nat)
        }),
{
    lemma_date_unique(now, today);
}

} // verus!
