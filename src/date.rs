//! Calendar dates, validity, day shifts and next occurrences.

use chrono::Datelike;
use vstd::prelude::*;

verus! {

/// Year used for a birthday whose year was not given; a leap year, so that
/// a birthday on 29 February is accepted without a year.
pub const PLACEHOLDER_YEAR: i32 = 2024;

/// Earliest year that chrono's `NaiveDate` represents.
pub const MIN_YEAR: i32 = -262143;

/// Latest year that chrono's `NaiveDate` represents.
pub const MAX_YEAR: i32 = 262142;

/// A calendar date of the proleptic Gregorian calendar.
#[derive(Clone, Copy, Debug, PartialEq, Eq, Structural)]
pub struct Date {
    pub year: i32,
    pub month: u32,
    pub day: u32,
}

/// A date as three mathematical integers: (year, month, day).
pub type Civil = (int, int, int);

pub open spec fn is_leap_year(y: int) -> bool {
    y % 4 == 0 && (y % 100 != 0 || y % 400 == 0)
}

pub open spec fn days_in_month(y: int, m: int) -> int {
    if m == 2 {
        if is_leap_year(y) {
            29
        } else {
            28
        }
    } else if m == 4 || m == 6 || m == 9 || m == 11 {
        30
    } else {
        31
    }
}

/// (y, m, d) names a day of the calendar, whatever the year.
pub open spec fn is_calendar_date(y: int, m: int, d: int) -> bool {
    1 <= m <= 12 && 1 <= d <= days_in_month(y, m)
}

pub open spec fn year_in_range(y: int) -> bool {
    MIN_YEAR <= y <= MAX_YEAR
}

/// (y, m, d) is a day of the calendar within the supported years.
pub open spec fn is_valid_ymd(y: int, m: int, d: int) -> bool {
    year_in_range(y) && is_calendar_date(y, m, d)
}

pub open spec fn following_day(c: Civil) -> Civil {
    if c.2 < days_in_month(c.0, c.1) {
        (c.0, c.1, c.2 + 1)
    } else if c.1 < 12 {
        (c.0, c.1 + 1, 1)
    } else {
        (c.0 + 1, 1, 1)
    }
}

pub open spec fn preceding_day(c: Civil) -> Civil {
    if c.2 > 1 {
        (c.0, c.1, c.2 - 1)
    } else if c.1 > 1 {
        (c.0, c.1 - 1, days_in_month(c.0, c.1 - 1))
    } else {
        (c.0 - 1, 12, 31)
    }
}

/// The day `k` days after `c` (before it, for negative `k`).
pub open spec fn shift_days(c: Civil, k: int) -> Civil
    decreases (if k >= 0 { k } else { -k }),
{
    if k == 0 {
        c
    } else if k > 0 {
        shift_days(following_day(c), k - 1)
    } else {
        shift_days(preceding_day(c), k + 1)
    }
}

proof fn lemma_shift_stays_in_calendar(c: Civil, k: int)
    requires
        is_calendar_date(c.0, c.1, c.2),
    ensures
        is_calendar_date(shift_days(c, k).0, shift_days(c, k).1, shift_days(c, k).2),
    decreases (if k >= 0 { k } else { -k }),
{
    if k > 0 {
        lemma_shift_stays_in_calendar(following_day(c), k - 1);
    } else if k < 0 {
        lemma_shift_stays_in_calendar(preceding_day(c), k + 1);
    }
}

/// Lexicographic order of dates: `a` is on or before `b`.
pub open spec fn civil_le(a: Civil, b: Civil) -> bool {
    a.0 < b.0 || (a.0 == b.0 && (a.1 < b.1 || (a.1 == b.1 && a.2 <= b.2)))
}

/// `r` is the first date on or after `from` that falls on `day` of `month`.
pub open spec fn is_first_on_or_after(r: Date, month: u32, day: u32, from: Civil) -> bool {
    &&& r.wf()
    &&& r.month == month
    &&& r.day == day
    &&& civil_le(from, r.civil())
    &&& forall|y: int|
        is_valid_ymd(y, month as int, day as int) && civil_le(from, (y, month as int, day as int))
            ==> r.year <= y
}

impl Date {
    pub open spec fn civil(&self) -> Civil {
        (self.year as int, self.month as int, self.day as int)
    }

    pub open spec fn wf(&self) -> bool {
        is_valid_ymd(self.year as int, self.month as int, self.day as int)
    }
}

/// Relies on chrono's `NaiveDate::from_ymd_opt`: it gives a date exactly when
/// the month and day form a day of the proleptic Gregorian calendar in that
/// year and the year lies in `MIN_YEAR ..= MAX_YEAR`.
#[verifier::external_body]
pub(crate) fn chrono_date_exists(year: i32, month: u32, day: u32) -> (r: bool)
    ensures
        r == is_valid_ymd(year as int, month as int, day as int),
{
    chrono::NaiveDate::from_ymd_opt(year, month, day).is_some()
}

/// Relies on chrono's `NaiveDate::checked_add_signed` with a whole number of
/// days: the date `days` days later (earlier, for negative `days`) in the
/// proleptic Gregorian calendar, or `None` where that leaves chrono's range
/// of years. `NaiveDate::from_ymd_opt` only converts the valid `date`, and
/// `TimeDelta::days` stays within its bounds for the `days` admitted.
#[verifier::external_body]
fn chrono_add_days(date: Date, days: i64) -> (r: Option<Date>)
    requires
        date.wf(),
        -100_000_000 <= days <= 100_000_000,
    ensures
        ({
            let c = shift_days(date.civil(), days as int);
            if year_in_range(c.0) {
                r == Some(Date { year: c.0 as i32, month: c.1 as u32, day: c.2 as u32 })
            } else {
                r is None
            }
        }),
{
    let d = chrono::NaiveDate::from_ymd_opt(date.year, date.month, date.day).unwrap();
    d.checked_add_signed(chrono::TimeDelta::days(days)).map(
        |n| Date { year: n.year(), month: n.month(), day: n.day() },
    )
}


/// The day, month and year given do not form a day of the calendar.
#[derive(Clone, Copy, Debug, PartialEq, Eq, Structural)]
pub struct InvalidDate;

/// The year a record's date is computed in: its own, or the placeholder.
pub open spec fn year_or_placeholder(year: Option<i32>) -> i32 {
    match year {
        Some(y) => y,
        None => PLACEHOLDER_YEAR,
    }
}

/// Builds the date (year, month, day), taking the placeholder year where no
/// year is given; rejects any combination that is not a day of the calendar.
pub fn make_date(day: u32, month: u32, year: Option<i32>) -> (r: Result<Date, InvalidDate>)
    ensures
        ({
            let y = year_or_placeholder(year);
            match r {
                Ok(d) => is_valid_ymd(y as int, month as int, day as int) && d == Date {
                    year: y,
                    month,
                    day,
                },
                Err(_) => !is_valid_ymd(y as int, month as int, day as int),
            }
        }),
{
    let y = match year {
        Some(y) => y,
        None => PLACEHOLDER_YEAR,
    };
    if chrono_date_exists(y, month, day) {
        Ok(Date { year: y, month, day })
    } else {
        Err(InvalidDate)
    }
}

/// The UTC calendar day at the instant a person at `offset` hours from UTC
/// enters the local day `c`: local midnight is `-offset` hours from UTC
/// midnight, so the day moves by the floor of `-offset / 24`.
pub open spec fn effective_day(c: Civil, offset: int) -> Civil {
    shift_days(c, (-offset) / 24)
}

/// The day `date`, as seen in UTC at the moment it starts for someone at
/// `utc_offset` hours from UTC; `None` where that day leaves the supported
/// years.
pub fn effective_local_day(date: Date, utc_offset: i32) -> (r: Option<Date>)
    requires
        date.wf(),
    ensures
        ({
            let c = effective_day(date.civil(), utc_offset as int);
            if year_in_range(c.0) {
                r == Some(Date { year: c.0 as i32, month: c.1 as u32, day: c.2 as u32 })
            } else {
                r is None
            }
        }),
        r matches Some(d) ==> d.wf() && d.civil() == effective_day(date.civil(), utc_offset as int),
{
    proof {
        lemma_shift_stays_in_calendar(date.civil(), (-(utc_offset as int)) / 24);
    }
    let neg: i64 = -(utc_offset as i64);
    let days: i64 = if neg >= 0 {
        neg / 24
    } else {
        -((-neg + 23) / 24)
    };
    assert(days == (-(utc_offset as int)) / 24);
    chrono_add_days(date, days)
}

proof fn lemma_leap_year_within_eight(y: int)
    ensures
        exists|w: int| y <= w <= y + 7 && #[trigger] is_leap_year(w),
{
    let w0 = if y % 4 == 0 {
        y
    } else {
        y + 4 - y % 4
    };
    assert(w0 % 4 == 0);
    if w0 % 100 != 0 {
        assert(is_leap_year(w0));
    } else {
        assert((w0 + 4) % 4 == 0);
        assert((w0 + 4) % 100 == 4);
        assert(is_leap_year(w0 + 4));
    }
}

/// The first date on or after `from` that falls on `day` of `month`. Where
/// that day does not exist in a year (29 February), the year is skipped.
pub fn next_occurrence(month: u32, day: u32, from: Date) -> (r: Date)
    requires
        from.wf(),
        is_calendar_date(PLACEHOLDER_YEAR as int, month as int, day as int),
        from.year <= MAX_YEAR - 8,
    ensures
        is_first_on_or_after(r, month, day, from.civil()),
{
    let start: i32 = if month > from.month || (month == from.month && day >= from.day) {
        from.year
    } else {
        from.year + 1
    };
    let ghost witness: int;
    proof {
        if month == 2 && day == 29 {
            lemma_leap_year_within_eight(start as int);
            let w = choose|w: int| start <= w <= start + 7 && #[trigger] is_leap_year(w);
            witness = w;
        } else {
            witness = start as int;
        }
        assert(is_valid_ymd(witness, month as int, day as int));
    }
    let mut y: i32 = start;
    while !chrono_date_exists(y, month, day)
        invariant
            start <= y <= witness,
            witness <= start + 7,
            is_valid_ymd(witness, month as int, day as int),
            forall|z: int| start <= z < y ==> !is_valid_ymd(z, month as int, day as int),
        decreases witness - y,
    {
        y = y + 1;
    }
    Date { year: y, month, day }
}

} // verus!
