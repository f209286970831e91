use unifi_protect_bulk_download::args::DownloadMode;
use unifi_protect_bulk_download::calendar::{Date, DateTime, TimeOfDay};
use unifi_protect_bulk_download::error::DownloadError;
use unifi_protect_bulk_download::frames::{build_time_frames, frames_stay_in_range_exec, HourWindow};

fn at(y: i32, m: u32, d: u32, h: u32, mi: u32, s: u32) -> DateTime {
    Date::from_ymd_opt(y, m, d).unwrap().and_hms_opt(h, mi, s).unwrap()
}

fn window(start: u32, end: u32) -> HourWindow {
    HourWindow {
        start: TimeOfDay::from_hms_opt(start, 0, 0).unwrap(),
        end: TimeOfDay::from_hms_opt(end, 0, 0).unwrap(),
    }
}

#[test]
fn builds_hourly_frames_only_inside_daily_hour_window() {
    let start = Date::from_ymd_opt(2026, 5, 5)
        .unwrap()
        .and_hms_opt(0, 0, 0)
        .unwrap();
    let end = Date::from_ymd_opt(2026, 5, 6)
        .unwrap()
        .and_hms_opt(23, 59, 59)
        .unwrap();
    let window = HourWindow {
        start: TimeOfDay::from_hms_opt(7, 0, 0).unwrap(),
        end: TimeOfDay::from_hms_opt(19, 0, 0).unwrap(),
    };

    let frames = build_time_frames(&DownloadMode::Hourly, start, end, Some(window)).unwrap();

    assert_eq!(frames.len(), 24);
    assert_eq!(
        frames.first().unwrap().0,
        start.date().and_hms_opt(7, 0, 0).unwrap()
    );
    assert_eq!(
        frames.first().unwrap().1,
        start.date().and_hms_opt(7, 59, 59).unwrap()
    );
    assert_eq!(
        frames.last().unwrap().0,
        Date::from_ymd_opt(2026, 5, 6)
            .unwrap()
            .and_hms_opt(18, 0, 0)
            .unwrap()
    );
}

#[test]
fn builds_daily_frames_clipped_to_hour_window_and_outer_range() {
    let start = Date::from_ymd_opt(2026, 5, 5)
        .unwrap()
        .and_hms_opt(16, 0, 0)
        .unwrap();
    let end = Date::from_ymd_opt(2026, 5, 6)
        .unwrap()
        .and_hms_opt(10, 0, 0)
        .unwrap();
    let window = HourWindow {
        start: TimeOfDay::from_hms_opt(7, 0, 0).unwrap(),
        end: TimeOfDay::from_hms_opt(19, 0, 0).unwrap(),
    };

    let frames = build_time_frames(&DownloadMode::Daily, start, end, Some(window)).unwrap();

    assert_eq!(frames.len(), 2);
    assert_eq!(frames[0].0, start);
    assert_eq!(
        frames[0].1,
        Date::from_ymd_opt(2026, 5, 5)
            .unwrap()
            .and_hms_opt(18, 59, 59)
            .unwrap()
    );
    assert_eq!(
        frames[1].0,
        Date::from_ymd_opt(2026, 5, 6)
            .unwrap()
            .and_hms_opt(7, 0, 0)
            .unwrap()
    );
    assert_eq!(frames[1].1, end);
}

#[test]
fn hourly_frames_clip_the_first_and_last_hour() {
    let start = at(2026, 5, 5, 10, 30, 0);
    let end = at(2026, 5, 5, 12, 15, 0);
    let frames = build_time_frames(&DownloadMode::Hourly, start, end, None).unwrap();
    assert_eq!(
        frames,
        vec![
            (start, at(2026, 5, 5, 10, 59, 59)),
            (at(2026, 5, 5, 11, 0, 0), at(2026, 5, 5, 11, 59, 59)),
            (at(2026, 5, 5, 12, 0, 0), end),
        ]
    );
}

#[test]
fn hourly_frames_cross_the_end_of_a_year() {
    let start = at(2025, 12, 31, 22, 0, 0);
    let end = at(2026, 1, 1, 1, 0, 0);
    let frames = build_time_frames(&DownloadMode::Hourly, start, end, None).unwrap();
    assert_eq!(frames.len(), 4);
    assert_eq!(frames[1], (at(2025, 12, 31, 23, 0, 0), at(2025, 12, 31, 23, 59, 59)));
    assert_eq!(frames[2], (at(2026, 1, 1, 0, 0, 0), at(2026, 1, 1, 0, 59, 59)));
    assert_eq!(frames[3], (at(2026, 1, 1, 1, 0, 0), end));
}

#[test]
fn hourly_frames_are_ordered_and_cover_the_window() {
    let start = at(2024, 2, 28, 5, 20, 0);
    let end = at(2024, 3, 1, 9, 10, 0);
    let frames = build_time_frames(&DownloadMode::Hourly, start, end, Some(window(6, 9))).unwrap();
    // 6, 7, 8 on each of 28 Feb, 29 Feb (a leap year) and 1 Mar
    assert_eq!(frames.len(), 9);
    for pair in frames.windows(2) {
        assert!(pair[0].1.key() < pair[1].0.key());
    }
    for frame in &frames {
        assert!(frame.0.key() <= frame.1.key());
        assert!(start.key() <= frame.0.key() && frame.1.key() <= end.key());
        assert!(frame.0.hour() >= 6 && frame.0.hour() < 9);
        assert_eq!(frame.0.hour(), frame.1.hour());
        assert_eq!(frame.0.date(), frame.1.date());
    }
    let t = at(2024, 2, 29, 8, 59, 59);
    assert!(frames.iter().any(|f| f.0.key() <= t.key() && t.key() <= f.1.key()));
    let outside = at(2024, 2, 29, 9, 0, 0);
    assert!(!frames.iter().any(|f| f.0.key() <= outside.key() && outside.key() <= f.1.key()));
}

#[test]
fn hourly_frames_are_empty_when_the_range_is_reversed() {
    let frames = build_time_frames(&DownloadMode::Hourly, at(2026, 5, 6, 0, 0, 0), at(2026, 5, 5, 0, 0, 0), None).unwrap();
    assert!(frames.is_empty());
}

#[test]
fn daily_frames_without_window_cover_whole_days() {
    let start = at(2023, 6, 1, 0, 0, 0);
    let end = at(2023, 6, 3, 23, 59, 59);
    let frames = build_time_frames(&DownloadMode::Daily, start, end, None).unwrap();
    assert_eq!(
        frames,
        vec![
            (at(2023, 6, 1, 0, 0, 0), at(2023, 6, 1, 23, 59, 59)),
            (at(2023, 6, 2, 0, 0, 0), at(2023, 6, 2, 23, 59, 59)),
            (at(2023, 6, 3, 0, 0, 0), at(2023, 6, 3, 23, 59, 59)),
        ]
    );
}

#[test]
fn daily_frames_skip_days_whose_window_misses_the_range() {
    let start = at(2026, 5, 5, 20, 0, 0);
    let end = at(2026, 5, 7, 6, 0, 0);
    let frames = build_time_frames(&DownloadMode::Daily, start, end, Some(window(7, 19))).unwrap();
    assert_eq!(frames, vec![(at(2026, 5, 6, 7, 0, 0), at(2026, 5, 6, 18, 59, 59))]);
}

#[test]
fn daily_run_reaching_the_last_date_overflows() {
    let last = Date::from_ymd_opt(262142, 12, 31).unwrap();
    let start = at(262142, 12, 30, 0, 0, 0);
    let end = last.and_hms_opt(12, 0, 0).unwrap();
    match build_time_frames(&DownloadMode::Daily, start, end, None) {
        Err(DownloadError::DateOverflow { date }) => assert_eq!(date, last),
        other => panic!("unexpected result {:?}", other),
    }
}

#[test]
fn range_guard_matches_the_last_hour_and_midnight_windows() {
    let last = Date::from_ymd_opt(262142, 12, 31).unwrap();
    let start = at(262142, 12, 31, 20, 0, 0);
    let end = last.and_hms_opt(23, 0, 0).unwrap();
    assert!(!frames_stay_in_range_exec(&DownloadMode::Hourly, &start, &end, &None));
    assert!(frames_stay_in_range_exec(&DownloadMode::Daily, &start, &end, &None));
    let before = last.and_hms_opt(22, 59, 59).unwrap();
    assert!(frames_stay_in_range_exec(&DownloadMode::Hourly, &start, &before, &None));
    let first = Date::from_ymd_opt(-262143, 1, 1).unwrap();
    let midnight_end = HourWindow {
        start: TimeOfDay::from_hms_opt(5, 0, 0).unwrap(),
        end: TimeOfDay::from_hms_opt(0, 0, 0).unwrap(),
    };
    let s = first.and_hms_opt(1, 0, 0).unwrap();
    assert!(!frames_stay_in_range_exec(&DownloadMode::Daily, &s, &s, &Some(midnight_end)));
    assert!(frames_stay_in_range_exec(&DownloadMode::Daily, &s, &s, &Some(window(1, 2))));
}

#[test]
fn daily_window_ending_at_midnight_yields_no_frames() {
    let midnight_end = HourWindow {
        start: TimeOfDay::from_hms_opt(5, 0, 0).unwrap(),
        end: TimeOfDay::from_hms_opt(0, 0, 0).unwrap(),
    };
    let frames = build_time_frames(&DownloadMode::Daily, at(2026, 1, 1, 0, 0, 0), at(2026, 1, 3, 0, 0, 0), Some(midnight_end)).unwrap();
    assert!(frames.is_empty());
}

fn covers(frames: &[(DateTime, DateTime)], t: &DateTime) -> bool {
    frames.iter().any(|(a, b)| a.key() <= t.key() && t.key() <= b.key())
}

#[test]
fn hourly_and_daily_runs_cover_the_same_seconds() {
    let start = at(2023, 6, 1, 5, 30, 0);
    let end = at(2023, 6, 2, 20, 0, 0);
    let w = window(7, 19);
    let hourly = build_time_frames(&DownloadMode::Hourly, start, end, Some(w)).unwrap();
    let daily = build_time_frames(&DownloadMode::Daily, start, end, Some(w)).unwrap();
    let day1 = Date::from_ymd_opt(2023, 6, 1).unwrap();
    let day2 = Date::from_ymd_opt(2023, 6, 2).unwrap();
    let mut checked = 0;
    for day in [day1, day2] {
        for hour in 0..24 {
            for (minute, second) in [(0, 0), (0, 1), (30, 0), (59, 59)] {
                let t = day.and_hms_opt(hour, minute, second).unwrap();
                let requested = start.key() <= t.key() && t.key() <= end.key() && (7..19).contains(&hour);
                assert_eq!(covers(&hourly, &t), requested);
                assert_eq!(covers(&daily, &t), requested);
                checked += 1;
            }
        }
    }
    assert_eq!(checked, 192);
    assert!(!covers(&hourly, &day1.and_hms_opt(19, 0, 0).unwrap()));
    assert!(covers(&daily, &day1.and_hms_opt(18, 59, 59).unwrap()));
}
