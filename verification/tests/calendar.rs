use chrono::NaiveDate;
use fills_archive::calendar::{Date, FIRST_CALENDAR_DAY, LAST_CALENDAR_DAY, SECONDS_PER_DAY};

#[test]
fn day_of_an_instant_rounds_down() {
    assert_eq!(Date::of_instant(0, 0), Date { day: 0 });
    assert_eq!(Date::of_instant(86_399, 0), Date { day: 0 });
    assert_eq!(Date::of_instant(86_400, 0), Date { day: 1 });
    assert_eq!(Date::of_instant(-1, 0), Date { day: -1 });
    assert_eq!(Date::of_instant(-86_400, 0), Date { day: -1 });
    assert_eq!(Date::of_instant(-86_401, 0), Date { day: -2 });
    assert_eq!(Date::of_instant(1_704_153_599, 0), Date { day: 19_723 });
}

#[test]
fn day_of_an_instant_follows_the_reference_clock() {
    // 2024-01-01T23:59:59Z is already the second of January nine hours east.
    assert_eq!(Date::of_instant(1_704_153_599, 9 * 3_600), Date { day: 19_724 });
    // 2024-01-02T00:00:01Z is still the first five hours west.
    assert_eq!(Date::of_instant(1_704_153_601, -5 * 3_600), Date { day: 19_723 });
    assert_eq!(Date::of_instant(i64::MAX, i32::MAX).day, 106_751_991_192_155);
    assert_eq!(Date::of_instant(i64::MIN, i32::MIN).day, -106_751_991_192_156);
}

#[test]
fn day_of_an_instant_agrees_with_chrono() {
    for time in [0i64, 1, -1, 951_782_400, 1_704_153_599, 1_704_153_600, -2_208_988_800, 253_402_300_799] {
        let expected = chrono::DateTime::from_timestamp(time, 0).unwrap().date_naive();
        assert_eq!(Date::of_instant(time, 0).day, i64::from(expected.to_epoch_days()));
    }
}

#[test]
fn midnight_is_the_first_second_of_the_day() {
    assert_eq!(SECONDS_PER_DAY, 86_400);
    assert_eq!(Date { day: 0 }.midnight(), Some(0));
    assert_eq!(Date { day: 19_723 }.midnight(), Some(1_704_067_200));
    assert_eq!(Date { day: -1 }.midnight(), Some(-86_400));
    assert_eq!(Date { day: i64::MAX / 86_400 }.midnight(), Some(9_223_372_036_854_720_000));
    assert_eq!(Date { day: i64::MAX / 86_400 + 1 }.midnight(), None);
    assert_eq!(Date { day: i64::MIN / 86_400 - 1 }.midnight(), None);
}

#[test]
fn date_text_is_year_month_day() {
    assert_eq!(Date { day: 0 }.text().unwrap(), "1970-01-01");
    assert_eq!(Date { day: 19_723 }.text().unwrap(), "2024-01-01");
    assert_eq!(Date { day: 11_016 }.text().unwrap(), "2000-02-29");
    assert_eq!(Date { day: -1 }.text().unwrap(), "1969-12-31");
    assert_eq!(Date { day: -719_528 }.text().unwrap(), "0000-01-01");
    assert_eq!(Date { day: 2_932_896 }.text().unwrap(), "9999-12-31");
    assert_eq!(Date { day: 2_932_897 }.text().unwrap(), "+10000-01-01");
}

#[test]
fn date_text_ends_where_the_calendar_ends() {
    assert_eq!(Date { day: FIRST_CALENDAR_DAY }.text().unwrap(), "-262143-01-01");
    assert_eq!(Date { day: LAST_CALENDAR_DAY }.text().unwrap(), "+262142-12-31");
    assert_eq!(Date { day: FIRST_CALENDAR_DAY - 1 }.text(), None);
    assert_eq!(Date { day: LAST_CALENDAR_DAY + 1 }.text(), None);
    assert_eq!(Date { day: i64::from(i32::MAX) + 1 }.text(), None);
    assert_eq!(Date { day: i64::MIN }.text(), None);
    assert_eq!(i64::from(NaiveDate::MIN.to_epoch_days()), FIRST_CALENDAR_DAY);
    assert_eq!(i64::from(NaiveDate::MAX.to_epoch_days()), LAST_CALENDAR_DAY);
}
