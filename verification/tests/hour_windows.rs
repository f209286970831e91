use unifi_protect_bulk_download::calendar::TimeOfDay;
use unifi_protect_bulk_download::error::{DownloadError, HourWindowProblem};
use unifi_protect_bulk_download::hour_window::{parse_hour_component, parse_hour_window};

#[test]
fn parses_end_exclusive_hour_window() {
    let window = parse_hour_window("07-19").expect("valid hour window");

    assert_eq!(window.start, TimeOfDay::from_hms_opt(7, 0, 0).unwrap());
    assert_eq!(window.end, TimeOfDay::from_hms_opt(19, 0, 0).unwrap());
}

#[test]
fn rejects_hour_windows_where_end_is_not_after_start() {
    assert!(parse_hour_window("19-07").is_err());
    assert!(parse_hour_window("07-07").is_err());
}

fn problem_of(input: &str) -> HourWindowProblem {
    match parse_hour_window(input) {
        Err(DownloadError::InvalidHourWindow { input: i, problem }) => {
            assert_eq!(i, input);
            problem
        }
        other => panic!("unexpected result {:?}", other),
    }
}

#[test]
fn hour_window_without_separator_is_rejected() {
    assert!(matches!(problem_of("0719"), HourWindowProblem::MissingSeparator));
}

#[test]
fn hour_window_components_must_be_hours() {
    match problem_of("07-24") {
        HourWindowProblem::NotAnHour { component } => assert_eq!(component, "24"),
        other => panic!("unexpected problem {:?}", other),
    }
    match problem_of(" x7 -19") {
        HourWindowProblem::NotAnHour { component } => assert_eq!(component, "x7"),
        other => panic!("unexpected problem {:?}", other),
    }
    match problem_of("-5") {
        HourWindowProblem::NotAnHour { component } => assert_eq!(component, ""),
        other => panic!("unexpected problem {:?}", other),
    }
    match problem_of("5-99999999999") {
        HourWindowProblem::NotAnHour { component } => assert_eq!(component, "99999999999"),
        other => panic!("unexpected problem {:?}", other),
    }
}

#[test]
fn end_before_start_is_reported() {
    assert!(matches!(problem_of("19-07"), HourWindowProblem::EndNotAfterStart));
}

#[test]
fn hour_window_components_are_trimmed_and_may_carry_a_plus() {
    let window = parse_hour_window(" 7 -\t+19 ").unwrap();
    assert_eq!(window.start, TimeOfDay::from_hms_opt(7, 0, 0).unwrap());
    assert_eq!(window.end, TimeOfDay::from_hms_opt(19, 0, 0).unwrap());
    let window = parse_hour_window("00-23").unwrap();
    assert_eq!(window.start.hour(), 0);
    assert_eq!(window.end.hour(), 23);
}

#[test]
fn hour_component_is_read_alone() {
    assert_eq!(parse_hour_component("w", " 08 ").unwrap(), TimeOfDay::from_hms_opt(8, 0, 0).unwrap());
    assert!(parse_hour_component("w", "+").is_err());
    assert!(parse_hour_component("w", "-3").is_err());
    assert!(parse_hour_component("w", "٣").is_err());
}
