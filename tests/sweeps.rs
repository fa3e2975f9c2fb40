use birthday_bot::date::Date;
use birthday_bot::store::BirthdayList;

fn day(year: i32, month: u32, day: u32) -> Date {
    Date { year, month, day }
}

#[test]
fn sweep_same_day_twice_and_next_year() {
    let mut list = BirthdayList::new();
    list.append_birthday(7, 10, "ann".to_string(), 15, 6, None, 0).unwrap();
    list.set_announcement_channel(10, 100);

    let out = list.check_for_announcements(day(2024, 6, 15));
    assert_eq!(out.len(), 1);
    assert_eq!((out[0].user_id, out[0].name.as_str(), out[0].channel_id), (7, "ann", 100));
    assert_eq!(list.entries[0].last_announced_year, Some(2024));

    let out = list.check_for_announcements(day(2024, 6, 15));
    assert!(out.is_empty());
    assert_eq!(list.entries[0].last_announced_year, Some(2024));

    let out = list.check_for_announcements(day(2025, 6, 15));
    assert_eq!(out.len(), 1);
    assert_eq!(list.entries[0].last_announced_year, Some(2025));
}

#[test]
fn sweep_other_day_announces_nothing() {
    let mut list = BirthdayList::new();
    list.append_birthday(7, 10, "ann".to_string(), 15, 6, None, 0).unwrap();
    list.set_announcement_channel(10, 100);
    assert!(list.check_for_announcements(day(2024, 6, 14)).is_empty());
    assert!(list.check_for_announcements(day(2024, 6, 16)).is_empty());
    assert_eq!(list.entries[0].last_announced_year, None);
}

#[test]
fn sweep_without_channel_marks_record() {
    let mut list = BirthdayList::new();
    list.append_birthday(7, 10, "ann".to_string(), 15, 6, None, 0).unwrap();
    let out = list.check_for_announcements(day(2024, 6, 15));
    assert!(out.is_empty());
    assert_eq!(list.entries[0].last_announced_year, Some(2024));
    list.set_announcement_channel(10, 100);
    assert!(list.check_for_announcements(day(2024, 6, 15)).is_empty());
}

#[test]
fn sweep_positive_offset_is_due_the_day_before() {
    let mut list = BirthdayList::new();
    list.append_birthday(7, 10, "ann".to_string(), 15, 6, None, 2).unwrap();
    list.set_announcement_channel(10, 100);
    assert!(list.check_for_announcements(day(2024, 6, 15)).is_empty());
    assert_eq!(list.check_for_announcements(day(2024, 6, 14)).len(), 1);
}

#[test]
fn sweep_negative_offset_is_due_the_same_day() {
    let mut list = BirthdayList::new();
    list.append_birthday(7, 10, "ann".to_string(), 15, 6, None, -5).unwrap();
    list.set_announcement_channel(10, 100);
    assert!(list.check_for_announcements(day(2024, 6, 14)).is_empty());
    assert_eq!(list.check_for_announcements(day(2024, 6, 15)).len(), 1);
}

#[test]
fn sweep_posts_in_each_community_channel() {
    let mut list = BirthdayList::new();
    list.append_birthday(1, 10, "ann".to_string(), 15, 6, None, 0).unwrap();
    list.append_birthday(2, 20, "bob".to_string(), 15, 6, Some(1990), 0).unwrap();
    list.append_birthday(3, 10, "cid".to_string(), 16, 6, None, 0).unwrap();
    list.set_announcement_channel(10, 100);
    list.set_announcement_channel(20, 200);
    let out = list.check_for_announcements(day(2030, 6, 15));
    assert_eq!(out.len(), 2);
    assert_eq!((out[0].user_id, out[0].channel_id), (1, 100));
    assert_eq!((out[1].user_id, out[1].channel_id), (2, 200));
    assert_eq!(list.entries[2].last_announced_year, None);
}

#[test]
fn sweep_leap_day_birthday_only_in_leap_years() {
    let mut list = BirthdayList::new();
    list.append_birthday(1, 10, "ann".to_string(), 29, 2, None, 0).unwrap();
    list.set_announcement_channel(10, 100);
    assert!(list.check_for_announcements(day(2025, 2, 28)).is_empty());
    assert!(list.check_for_announcements(day(2025, 3, 1)).is_empty());
    assert_eq!(list.check_for_announcements(day(2028, 2, 29)).len(), 1);
}
