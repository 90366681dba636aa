use daystore::Date;
use daystore::MAX_DAY_NUMBER;

#[test]
fn day_number_formula_exact_values() {
    assert_eq!(Date::from_ymd(1, 1, 1).unwrap().day_number(), 1);
    assert_eq!(Date::from_ymd(2024, 3, 14).unwrap().day_number(), 738959);
    assert_eq!(Date::from_ymd(9999, 12, 31).unwrap().day_number(), MAX_DAY_NUMBER);
}

#[test]
fn from_ymd_rejects_invalid_triples() {
    assert!(Date::from_ymd(2023, 2, 29).is_none());
    assert!(Date::from_ymd(2024, 2, 29).is_some());
    assert!(Date::from_ymd(2100, 2, 29).is_none());
    assert!(Date::from_ymd(2000, 2, 29).is_some());
    assert!(Date::from_ymd(2024, 13, 1).is_none());
    assert!(Date::from_ymd(2024, 0, 10).is_none());
    assert!(Date::from_ymd(2024, 4, 31).is_none());
    assert!(Date::from_ymd(0, 1, 1).is_none());
    assert!(Date::from_ymd(10000, 1, 1).is_none());
    assert!(Date::from_ymd(2024, 1, 0).is_none());
}

#[test]
fn weekday_runs_monday_to_sunday() {
    // 2024-03-11 is a Monday, 2024-03-14 a Thursday, 2024-03-17 a Sunday.
    assert_eq!(Date::from_ymd(2024, 3, 11).unwrap().weekday_from_monday(), 0);
    assert_eq!(Date::from_ymd(2024, 3, 14).unwrap().weekday_from_monday(), 3);
    assert_eq!(Date::from_ymd(2024, 3, 17).unwrap().weekday_from_monday(), 6);
    // January 1 of year 1 is a Monday.
    assert_eq!(Date::from_ymd(1, 1, 1).unwrap().weekday_from_monday(), 0);
}

#[test]
fn week_monday_aligns_to_monday() {
    let thursday = Date::from_ymd(2024, 3, 14).unwrap();
    let monday = Date::from_ymd(2024, 3, 11).unwrap();
    assert_eq!(thursday.week_monday(), monday);
    assert_eq!(monday.week_monday(), monday);
    let sunday = Date::from_ymd(2024, 3, 17).unwrap();
    assert_eq!(sunday.week_monday(), monday);
}

#[test]
fn pred_steps_one_calendar_day() {
    let march_first = Date::from_ymd(2024, 3, 1).unwrap();
    let leap_day = Date::from_ymd(2024, 2, 29).unwrap();
    assert_eq!(march_first.pred().unwrap(), leap_day);
    let plain_march_first = Date::from_ymd(2021, 3, 1).unwrap();
    let plain_february_end = Date::from_ymd(2021, 2, 28).unwrap();
    assert_eq!(plain_march_first.pred().unwrap(), plain_february_end);
    let new_year = Date::from_ymd(2024, 1, 1).unwrap();
    let old_year_end = Date::from_ymd(2023, 12, 31).unwrap();
    assert_eq!(new_year.pred().unwrap(), old_year_end);
    let first_day = Date::from_ymd(1, 1, 1).unwrap();
    assert!(first_day.pred().is_none());
}

#[test]
fn from_day_number_bounds() {
    assert!(Date::from_day_number(0).is_none());
    assert!(Date::from_day_number(1).is_some());
    assert!(Date::from_day_number(MAX_DAY_NUMBER).is_some());
    assert!(Date::from_day_number(MAX_DAY_NUMBER + 1).is_none());
    let d = Date::from_day_number(738959).unwrap();
    assert_eq!(d, Date::from_ymd(2024, 3, 14).unwrap());
}
