use unifi_protect_bulk_download::args::{DownloadArgs, DownloadMode, RecordingType, TimelapseFactor};
use unifi_protect_bulk_download::calendar::{Date, DateTime};
use unifi_protect_bulk_download::download::{
    download_jobs, instant_from_readings, parse_date_or_hour, prepare_download, should_write_file, timelapse_fps,
    video_file_name,
};
use unifi_protect_bulk_download::error::{DownloadError, HourWindowProblem, ParseErrorKind};

fn at(y: i32, m: u32, d: u32, h: u32, mi: u32, s: u32) -> DateTime {
    Date::from_ymd_opt(y, m, d).unwrap().and_hms_opt(h, mi, s).unwrap()
}

fn args(start: &str, end: &str, hours: Option<&str>) -> DownloadArgs {
    DownloadArgs {
        uri: String::from("https://nvr"),
        username: String::from("user"),
        password: String::from("SECRET-REDACTED"),
        out_path: String::from("/tmp"),
        mode: DownloadMode::Daily,
        recording_type: RecordingType::Rotating,
        start_date: String::from(start),
        end_date: String::from(end),
        hours: hours.map(String::from),
        timelapse_factor: TimelapseFactor::X60,
        force: false,
        cameras: vec![],
    }
}

#[test]
fn maps_timelapse_factor_to_export_fps() {
    assert_eq!(TimelapseFactor::X60.as_fps(), 4);
    assert_eq!(TimelapseFactor::X120.as_fps(), 8);
    assert_eq!(TimelapseFactor::X300.as_fps(), 20);
    assert_eq!(TimelapseFactor::X600.as_fps(), 40);
}

#[test]
fn recording_types_have_api_names() {
    assert_eq!(RecordingType::Rotating.as_str(), "rotating");
    assert_eq!(RecordingType::Timelapse.as_str(), "timelapse");
}

#[test]
fn only_timelapse_exports_carry_a_frame_rate() {
    assert_eq!(timelapse_fps(&RecordingType::Timelapse, &TimelapseFactor::X300), Some(20));
    assert_eq!(timelapse_fps(&RecordingType::Rotating, &TimelapseFactor::X300), None);
}

#[test]
fn plain_dates_span_the_whole_day() {
    assert_eq!(parse_date_or_hour("2023-06-01", true).unwrap(), at(2023, 6, 1, 0, 0, 0));
    assert_eq!(parse_date_or_hour("2023-06-01", false).unwrap(), at(2023, 6, 1, 23, 59, 59));
}

#[test]
fn dates_with_hours_start_at_the_hour() {
    assert_eq!(parse_date_or_hour("2023-06-01-08", true).unwrap(), at(2023, 6, 1, 8, 0, 0));
    assert_eq!(parse_date_or_hour("2023-07-31-18", false).unwrap(), at(2023, 7, 31, 18, 0, 0));
}

#[test]
fn malformed_dates_are_rejected() {
    assert!(parse_date_or_hour("2023-13-01", true).is_err());
    assert!(parse_date_or_hour("2023-06-01-24", true).is_err());
    assert!(parse_date_or_hour("2023-06-01-08-30", true).is_err());
    assert!(parse_date_or_hour("yesterday", false).is_err());
}

#[test]
fn prepared_request_holds_range_and_window() {
    let req = prepare_download(&args("2023-06-01", "2023-07-31-18", Some("07-19"))).unwrap();
    assert_eq!(req.start, at(2023, 6, 1, 0, 0, 0));
    assert_eq!(req.end, at(2023, 7, 31, 18, 0, 0));
    let w = req.hour_window.unwrap();
    assert_eq!((w.start.hour(), w.end.hour()), (7, 19));
    let req = prepare_download(&args("2023-06-01", "2023-06-01", None)).unwrap();
    assert!(req.hour_window.is_none());
}

#[test]
fn prepare_reports_each_error() {
    match prepare_download(&args("2023-6-x", "2023-06-02", None)) {
        Err(DownloadError::ParseDate { input, source }) => {
            assert_eq!(input, "2023-6-x");
            assert_eq!(source, ParseErrorKind::Invalid);
        }
        other => panic!("unexpected result {:?}", other),
    }
    match prepare_download(&args("2023-06-01", "June", None)) {
        Err(DownloadError::ParseDate { input, source }) => {
            assert_eq!(input, "June");
            assert_eq!(source, ParseErrorKind::Invalid);
        }
        other => panic!("unexpected result {:?}", other),
    }
    match prepare_download(&args("2023-06-02", "2023-06-01", None)) {
        Err(DownloadError::InvalidDateRange { start, end }) => {
            assert_eq!(start, at(2023, 6, 2, 0, 0, 0));
            assert_eq!(end, at(2023, 6, 1, 23, 59, 59));
        }
        other => panic!("unexpected result {:?}", other),
    }
    match prepare_download(&args("2023-06-01", "2023-06-02", Some("19-07"))) {
        Err(DownloadError::InvalidHourWindow { input, problem }) => {
            assert_eq!(input, "19-07");
            assert!(matches!(problem, HourWindowProblem::EndNotAfterStart));
        }
        other => panic!("unexpected result {:?}", other),
    }
}

#[test]
fn a_single_hour_range_is_accepted() {
    let req = prepare_download(&args("2023-06-01-08", "2023-06-01-08", None)).unwrap();
    assert_eq!(req.start, req.end);
}

#[test]
fn video_file_names_join_hour_camera_and_type() {
    let name = video_file_name(&at(2026, 5, 5, 7, 0, 0), "Front Door", &RecordingType::Rotating);
    assert_eq!(name, "2026-05-05-07-Front Door-rotating.mp4");
    let name = video_file_name(&at(987, 1, 2, 3, 0, 0), "Porch", &RecordingType::Timelapse);
    assert_eq!(name, "0987-01-02-03-Porch-timelapse.mp4");
}

#[test]
fn video_file_names_are_sanitized_and_ascii() {
    let name = video_file_name(&at(2026, 5, 5, 7, 0, 0), "Caf\u{e9}/Back:Yard?", &RecordingType::Rotating);
    assert_eq!(name, "2026-05-05-07-CafBackYard-rotating.mp4");
    assert!(name.is_ascii());
}

#[test]
fn years_beyond_four_digits_carry_a_sign() {
    let name = video_file_name(&at(10000, 1, 1, 0, 0, 0), "A", &RecordingType::Rotating);
    assert_eq!(name, "+10000-01-01-00-A-rotating.mp4");
    let name = video_file_name(&at(-5, 1, 1, 0, 0, 0), "A", &RecordingType::Rotating);
    assert_eq!(name, "-0005-01-01-00-A-rotating.mp4");
}

#[test]
fn parse_errors_carry_the_date_reading_kind() {
    assert_eq!(parse_date_or_hour("2023-13-01", true).unwrap_err(), ParseErrorKind::OutOfRange);
    assert_eq!(parse_date_or_hour("2023-06-01-24", true).unwrap_err(), ParseErrorKind::TooLong);
    assert_eq!(parse_date_or_hour("2023-06-01-08-30", false).unwrap_err(), ParseErrorKind::TooLong);
    assert_eq!(parse_date_or_hour("yesterday", true).unwrap_err(), ParseErrorKind::Invalid);
    assert_eq!(parse_date_or_hour("2023-06", true).unwrap_err(), ParseErrorKind::TooShort);
}

#[test]
fn the_date_time_reading_wins_over_the_date_reading() {
    let dt = at(2023, 6, 1, 8, 0, 0);
    let d = Date::from_ymd_opt(2023, 6, 1).unwrap();
    assert_eq!(instant_from_readings(Ok(dt), Ok(d), true).unwrap(), dt);
    assert_eq!(instant_from_readings(Ok(dt), Err(ParseErrorKind::Invalid), false).unwrap(), dt);
    assert_eq!(
        instant_from_readings(Err(ParseErrorKind::TooLong), Ok(d), true).unwrap(),
        at(2023, 6, 1, 0, 0, 0)
    );
    assert_eq!(
        instant_from_readings(Err(ParseErrorKind::TooLong), Ok(d), false).unwrap(),
        at(2023, 6, 1, 23, 59, 59)
    );
    assert_eq!(
        instant_from_readings(Err(ParseErrorKind::TooLong), Err(ParseErrorKind::OutOfRange), true),
        Err(ParseErrorKind::OutOfRange)
    );
}

#[test]
fn start_and_end_of_one_text_share_their_date() {
    for text in ["2023-06-01", "2023-06-01-08", "2024-02-29", "2023-12-31-23"] {
        let a = parse_date_or_hour(text, true).unwrap();
        let b = parse_date_or_hour(text, false).unwrap();
        assert_eq!(a.date(), b.date());
        assert!(a.key() <= b.key());
        assert_eq!(a.time().nanosecond(), 0);
        assert_eq!(b.time().nanosecond(), 0);
    }
    assert_eq!(parse_date_or_hour("2023-06-01-08", true).unwrap(), parse_date_or_hour("2023-06-01-08", false).unwrap());
    for text in ["2023-02-30", "x", "2023-06-01-25"] {
        assert_eq!(parse_date_or_hour(text, true).unwrap_err(), parse_date_or_hour(text, false).unwrap_err());
    }
}

#[test]
fn existing_files_are_kept_unless_forced() {
    assert!(should_write_file(false, false));
    assert!(should_write_file(false, true));
    assert!(!should_write_file(true, false));
    assert!(should_write_file(true, true));
}

#[test]
fn download_jobs_go_frame_by_frame_through_selected_cameras() {
    let cameras = vec![
        (String::from("Front Door"), String::from("cam-1")),
        (String::from("Garage"), String::from("cam-2")),
        (String::from("Porch"), String::from("cam-3")),
    ];
    let requested = vec![String::from("Porch"), String::from(" cam-1 ")];
    assert_eq!(download_jobs(2, &cameras, &requested), vec![(0, 0), (0, 2), (1, 0), (1, 2)]);
    assert_eq!(download_jobs(1, &cameras, &[]), vec![(0, 0), (0, 1), (0, 2)]);
    assert_eq!(download_jobs(0, &cameras, &requested), vec![]);
    assert_eq!(download_jobs(3, &cameras, &[String::from("Attic")]), vec![]);
}
