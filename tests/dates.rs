use birthday_bot::date::{effective_local_day, make_date, next_occurrence, Date, InvalidDate};
use birthday_bot::text::offset_to_string;

fn date(year: i32, month: u32, day: u32) -> Date {
    Date { year, month, day }
}

#[test]
fn make_date_uses_placeholder_year() {
    assert_eq!(make_date(15, 6, None), Ok(date(2024, 6, 15)));
}

#[test]
fn make_date_keeps_given_year() {
    assert_eq!(make_date(3, 11, Some(1990)), Ok(date(1990, 11, 3)));
}

#[test]
fn make_date_accepts_every_day_of_placeholder_year() {
    let lengths = [31u32, 29, 31, 30, 31, 30, 31, 31, 30, 31, 30, 31];
    for month in 1..=12u32 {
        for day in 1..=lengths[(month - 1) as usize] {
            assert!(make_date(day, month, None).is_ok(), "{}.{}", day, month);
        }
    }
}

#[test]
fn make_date_rejects_february_thirtieth() {
    assert_eq!(make_date(30, 2, None), Err(InvalidDate));
    for year in [1900, 2000, 2023, 2024, 2025] {
        assert_eq!(make_date(30, 2, Some(year)), Err(InvalidDate));
    }
}

#[test]
fn make_date_rejects_out_of_range_parts() {
    assert_eq!(make_date(0, 5, None), Err(InvalidDate));
    assert_eq!(make_date(32, 1, None), Err(InvalidDate));
    assert_eq!(make_date(1, 0, None), Err(InvalidDate));
    assert_eq!(make_date(1, 13, None), Err(InvalidDate));
    assert_eq!(make_date(31, 4, None), Err(InvalidDate));
}

#[test]
fn make_date_leap_day_depends_on_year() {
    assert!(make_date(29, 2, None).is_ok());
    assert!(make_date(29, 2, Some(2000)).is_ok());
    assert_eq!(make_date(29, 2, Some(1900)), Err(InvalidDate));
    assert_eq!(make_date(29, 2, Some(2023)), Err(InvalidDate));
}

#[test]
fn make_date_rejects_year_beyond_range() {
    assert_eq!(make_date(1, 1, Some(300_000)), Err(InvalidDate));
    assert_eq!(make_date(1, 1, Some(-300_000)), Err(InvalidDate));
}

#[test]
fn effective_day_zero_offset_is_same_day() {
    assert_eq!(effective_local_day(date(2024, 6, 15), 0), Some(date(2024, 6, 15)));
}

#[test]
fn effective_day_positive_offset_is_day_before() {
    assert_eq!(effective_local_day(date(2024, 3, 1), 2), Some(date(2024, 2, 29)));
    assert_eq!(effective_local_day(date(2025, 1, 1), 1), Some(date(2024, 12, 31)));
}

#[test]
fn effective_day_negative_offset_is_same_day() {
    assert_eq!(effective_local_day(date(2024, 6, 15), -5), Some(date(2024, 6, 15)));
    assert_eq!(effective_local_day(date(2024, 6, 15), -23), Some(date(2024, 6, 15)));
}

#[test]
fn effective_day_whole_days_of_offset() {
    assert_eq!(effective_local_day(date(2024, 6, 15), 24), Some(date(2024, 6, 14)));
    assert_eq!(effective_local_day(date(2024, 6, 15), 30), Some(date(2024, 6, 13)));
    assert_eq!(effective_local_day(date(2024, 12, 31), -24), Some(date(2025, 1, 1)));
}

#[test]
fn effective_day_beyond_range_is_none() {
    assert_eq!(effective_local_day(date(-262143, 1, 1), 5), None);
    assert_eq!(effective_local_day(date(262142, 12, 31), -48), None);
}

#[test]
fn next_occurrence_leap_day_skips_to_leap_year() {
    assert_eq!(next_occurrence(2, 29, date(2025, 3, 1)), date(2028, 2, 29));
}

#[test]
fn next_occurrence_skips_century_non_leap_year() {
    assert_eq!(next_occurrence(2, 29, date(2097, 1, 1)), date(2104, 2, 29));
}

#[test]
fn next_occurrence_same_day_is_today() {
    assert_eq!(next_occurrence(6, 15, date(2024, 6, 15)), date(2024, 6, 15));
}

#[test]
fn next_occurrence_later_this_year() {
    assert_eq!(next_occurrence(8, 1, date(2024, 6, 15)), date(2024, 8, 1));
}

#[test]
fn next_occurrence_rolls_december_to_january() {
    assert_eq!(next_occurrence(1, 5, date(2024, 12, 31)), date(2025, 1, 5));
    assert_eq!(next_occurrence(12, 30, date(2024, 12, 31)), date(2025, 12, 30));
}

#[test]
fn offset_to_string_signs() {
    assert_eq!(offset_to_string(3), "+3");
    assert_eq!(offset_to_string(0), "+0");
    assert_eq!(offset_to_string(-5), "-5");
    assert_eq!(offset_to_string(14), "+14");
    assert_eq!(offset_to_string(-120), "-120");
}

#[test]
fn offset_to_string_extremes() {
    assert_eq!(offset_to_string(i32::MIN), "-2147483648");
    assert_eq!(offset_to_string(i32::MAX), "+2147483647");
}
