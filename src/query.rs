//! Read-only date queries on a record.

use crate::date::{
    is_calendar_date, is_first_on_or_after, is_leap_year, next_occurrence, Date, MAX_YEAR,
    PLACEHOLDER_YEAR,
};
use crate::store::BirthdayEntry;
use vstd::prelude::*;

verus! {

/// Years of life a birth date is projected forward by.
pub const LIFE_EXPECTANCY: i32 = 83;

/// A record's day and month exist in the placeholder year.
proof fn lemma_record_day_in_placeholder_year(e: &BirthdayEntry)
    requires
        e@.wf(),
    ensures
        is_calendar_date(PLACEHOLDER_YEAR as int, e.month as int, e.day as int),
{
    assert(is_leap_year(PLACEHOLDER_YEAR as int));
}

impl BirthdayEntry {
    /// The next birthday on or after `today`, skipping years without the day.
    pub fn next_birthday(&self, today: Date) -> (r: Date)
        requires
            self@.wf(),
            today.wf(),
            today.year <= MAX_YEAR - 8,
        ensures
            is_first_on_or_after(r, self.month, self.day, today.civil()),
    {
        proof {
            lemma_record_day_in_placeholder_year(self);
        }
        next_occurrence(self.month, self.day, today)
    }

    /// The first birthday at least `LIFE_EXPECTANCY` years after the birth
    /// date; `None` where no birth year was given, or where that date would
    /// come too near the end of the supported years.
    pub fn life_expectancy_date(&self) -> (r: Option<Date>)
        requires
            self@.wf(),
        ensures
            match self.year {
                None => r is None,
                Some(y) => if y + LIFE_EXPECTANCY <= MAX_YEAR - 8 {
                    r matches Some(d) && is_first_on_or_after(
                        d,
                        self.month,
                        self.day,
                        (y + LIFE_EXPECTANCY, 1, 1),
                    )
                } else {
                    r is None
                },
            },
    {
        match self.year {
            None => None,
            Some(y) => {
                if y > MAX_YEAR - 8 - LIFE_EXPECTANCY {
                    None
                } else {
                    proof {
                        lemma_record_day_in_placeholder_year(self);
                    }
                    let from = Date { year: y + LIFE_EXPECTANCY, month: 1, day: 1 };
                    Some(next_occurrence(self.month, self.day, from))
                }
            },
        }
    }
}

} // verus!
