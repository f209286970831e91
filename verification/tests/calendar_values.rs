use unifi_protect_bulk_download::calendar::{Date, TimeOfDay};

#[test]
fn dates_follow_the_gregorian_calendar() {
    assert!(Date::from_ymd_opt(2024, 2, 29).is_some());
    assert!(Date::from_ymd_opt(2023, 2, 29).is_none());
    assert!(Date::from_ymd_opt(1900, 2, 29).is_none());
    assert!(Date::from_ymd_opt(2000, 2, 29).is_some());
    assert!(Date::from_ymd_opt(-4, 2, 29).is_some());
    assert!(Date::from_ymd_opt(2023, 4, 31).is_none());
    assert!(Date::from_ymd_opt(2023, 13, 1).is_none());
    assert!(Date::from_ymd_opt(2023, 0, 1).is_none());
    assert!(Date::from_ymd_opt(2023, 1, 0).is_none());
}

#[test]
fn dates_stay_in_chronos_range() {
    assert!(Date::from_ymd_opt(262142, 12, 31).is_some());
    assert!(Date::from_ymd_opt(262143, 1, 1).is_none());
    assert!(Date::from_ymd_opt(-262143, 1, 1).is_some());
    assert!(Date::from_ymd_opt(-262144, 12, 31).is_none());
}

#[test]
fn times_of_day_are_checked() {
    assert!(TimeOfDay::from_hms_opt(23, 59, 59).is_some());
    assert!(TimeOfDay::from_hms_opt(24, 0, 0).is_none());
    assert!(TimeOfDay::from_hms_opt(0, 60, 0).is_none());
    assert!(TimeOfDay::from_hms_opt(0, 0, 60).is_none());
    assert!(Date::from_ymd_opt(2020, 1, 1).unwrap().and_hms_opt(12, 0, 60).is_none());
}

#[test]
fn one_hour_later_crosses_days_months_and_years() {
    let d = Date::from_ymd_opt(2023, 12, 31).unwrap().and_hms_opt(23, 0, 0).unwrap();
    assert_eq!(d.plus_one_hour(), Date::from_ymd_opt(2024, 1, 1).unwrap().and_hms_opt(0, 0, 0).unwrap());
    let d = Date::from_ymd_opt(2024, 2, 28).unwrap().and_hms_opt(23, 30, 15).unwrap();
    assert_eq!(d.plus_one_hour(), Date::from_ymd_opt(2024, 2, 29).unwrap().and_hms_opt(0, 30, 15).unwrap());
    let d = Date::from_ymd_opt(2024, 5, 5).unwrap().and_hms_opt(7, 0, 0).unwrap();
    assert_eq!(d.plus_one_hour(), Date::from_ymd_opt(2024, 5, 5).unwrap().and_hms_opt(8, 0, 0).unwrap());
}

#[test]
fn one_second_earlier_crosses_midnight() {
    let d = Date::from_ymd_opt(2024, 3, 1).unwrap().and_hms_opt(0, 0, 0).unwrap();
    assert_eq!(d.minus_one_second(), Date::from_ymd_opt(2024, 2, 29).unwrap().and_hms_opt(23, 59, 59).unwrap());
    let d = Date::from_ymd_opt(2024, 3, 1).unwrap().and_hms_opt(19, 0, 0).unwrap();
    assert_eq!(d.minus_one_second(), Date::from_ymd_opt(2024, 3, 1).unwrap().and_hms_opt(18, 59, 59).unwrap());
}

#[test]
fn keys_order_instants() {
    let a = Date::from_ymd_opt(2024, 1, 31).unwrap().and_hms_opt(23, 59, 59).unwrap();
    let b = Date::from_ymd_opt(2024, 2, 1).unwrap().and_hms_opt(0, 0, 0).unwrap();
    assert!(a.key() < b.key());
    assert_eq!(a.later_of(&b), b);
    assert_eq!(a.earlier_of(&b), a);
}
