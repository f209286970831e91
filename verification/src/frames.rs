//! The time frames of a download: one per hour or one per day, clipped to
//! the requested range and to an optional daily hour window.
use vstd::prelude::*;
use crate::args::DownloadMode;
use crate::calendar::{DateModel, DateTime, DateTimeModel, TimeModel, TimeOfDay};
use crate::chrono_bridge::succ_date;
use crate::error::DownloadError;

verus! {

/// A daily window of hours, from `start` up to, but not including, `end`.
#[derive(Clone, Copy, Debug, PartialEq, Eq, Structural)]
pub struct HourWindow {
    pub start: TimeOfDay,
    pub end: TimeOfDay,
}

/// A time frame as a pair of instants (first and last).
pub type FrameModel = (DateTimeModel, DateTimeModel);

pub open spec fn frames_view(frames: Seq<(DateTime, DateTime)>) -> Seq<FrameModel> {
    frames.map_values(|f: (DateTime, DateTime)| (f.0@, f.1@))
}

/// Whether an hour that starts at `t` lies in the window (always, without one).
pub open spec fn hour_in_window(t: TimeModel, window: Option<HourWindow>) -> bool {
    match window {
        None => true,
        Some(w) => !(t.key() < w.start@.key() || t.key() >= w.end@.key()),
    }
}

/// The hourly frames from the hour that holds `cursor` on: for each hour
/// that starts no later than `end` (the first one: that holds `cursor`) and
/// lies in the window, the hour clipped to `start..=end`, where an hour ends
/// at its last whole second.
pub open spec fn hourly_frames_from(
    cursor: DateTimeModel,
    start: DateTimeModel,
    end: DateTimeModel,
    window: Option<HourWindow>,
) -> Seq<FrameModel>
    decreases
        end.date.year + 1 - cursor.date.year,
        13 - cursor.date.month,
        32 - cursor.date.day,
        24 - cursor.time.hour,
{
    if cursor.is_valid() && end.is_valid() && cursor.key() <= end.key() {
        let hs = cursor.hour_start();
        let rest = hourly_frames_from(hs.hour_later(), start, end, window);
        if hour_in_window(hs.time, window) {
            seq![(start.later_of(hs), end.earlier_of(hs.hour_last_second()))] + rest
        } else {
            rest
        }
    } else {
        seq![]
    }
}

/// The first and last instant of a day: the window's start, and one second
/// before the window's end, or the whole day without a window.
pub open spec fn day_bounds(date: DateModel, window: Option<HourWindow>) -> FrameModel {
    match window {
        Some(w) => (date.at(w.start@), date.at(w.end@).second_earlier()),
        None => (date.at(TimeModel::hms(0, 0, 0)), date.at(TimeModel::hms(23, 59, 59))),
    }
}

/// The frame of one day, clipped to `start..=end`, where it is not empty.
pub open spec fn daily_frame(
    date: DateModel,
    start: DateTimeModel,
    end: DateTimeModel,
    window: Option<HourWindow>,
) -> Seq<FrameModel> {
    let bounds = day_bounds(date, window);
    let first = start.later_of(bounds.0);
    let last = end.earlier_of(bounds.1);
    if first.key() <= last.key() {
        seq![(first, last)]
    } else {
        seq![]
    }
}

/// The daily frames from `date` up to the date of `end`; `Err(d)` where the
/// day after a visited date `d` cannot be represented.
pub open spec fn daily_frames_from(
    date: DateModel,
    start: DateTimeModel,
    end: DateTimeModel,
    window: Option<HourWindow>,
) -> Result<Seq<FrameModel>, DateModel>
    decreases
        end.date.year + 1 - date.year,
        13 - date.month,
        32 - date.day,
{
    if date.is_valid() && end.is_valid() && date.key() <= end.date.key() {
        if date.is_last() {
            Err(date)
        } else {
            match daily_frames_from(date.next_day(), start, end, window) {
                Ok(rest) => Ok(daily_frame(date, start, end, window) + rest),
                Err(d) => Err(d),
            }
        }
    } else {
        Ok(seq![])
    }
}

/// The inputs on which building the frames stays within chrono's range of
/// instants: an hourly run must not reach the last hour of the last date, and
/// a daily window must not end at midnight of the first date.
pub open spec fn frames_stay_in_range(
    mode: DownloadMode,
    start: DateTimeModel,
    end: DateTimeModel,
    window: Option<HourWindow>,
) -> bool {
    &&& (mode is Hourly && start.key() <= end.key()) ==> !(end.date.is_last() && end.time.hour == 23)
    &&& (mode is Daily && start.date.key() <= end.date.key()) ==> match window {
        Some(w) => !(start.date.is_first() && w.end@.is_midnight()),
        None => true,
    }
}

/// Whether `build_time_frames` can be called on these inputs (see
/// `frames_stay_in_range`).
pub fn frames_stay_in_range_exec(
    mode: &DownloadMode,
    start_date: &DateTime,
    end_date: &DateTime,
    hour_window: &Option<HourWindow>,
) -> (r: bool)
    ensures
        r == frames_stay_in_range(*mode, start_date@, end_date@, *hour_window),
{
    let start_day = start_date.date();
    let end_day = end_date.date();
    let hourly_ok = match mode {
        DownloadMode::Hourly => !(start_date.key() <= end_date.key() && end_day.is_last()
            && end_date.hour() == 23),
        DownloadMode::Daily => true,
    };
    let daily_ok = match (mode, hour_window) {
        (DownloadMode::Daily, Some(w)) => {
            let first = start_day.year() == crate::calendar::MIN_YEAR && start_day.month() == 1
                && start_day.day() == 1;
            let midnight = w.end.hour() == 0 && w.end.minute() == 0 && w.end.second() == 0;
            !(start_day.key() <= end_day.key() && first && midnight)
        },
        _ => true,
    };
    hourly_ok && daily_ok
}


/// Frames already built, followed by what the remaining run yields.
pub open spec fn prepend_frames(
    built: Seq<FrameModel>,
    rest: Result<Seq<FrameModel>, DateModel>,
) -> Result<Seq<FrameModel>, DateModel> {
    match rest {
        Ok(fs) => Ok(built + fs),
        Err(d) => Err(d),
    }
}

proof fn lemma_frames_view_push(frames: Seq<(DateTime, DateTime)>, f: (DateTime, DateTime))
    ensures
        frames_view(frames.push(f)) == frames_view(frames).push((f.0@, f.1@)),
{
    assert(frames_view(frames.push(f)) =~= frames_view(frames).push((f.0@, f.1@)));
}

/// Builds the time frames of a download.
///
/// Hourly: for each hour from the one that holds `start_date` up to the one
/// that holds `end_date`, whose start lies in the hour window (when given),
/// the hour clipped to `start_date..=end_date`.  Daily: for each date from
/// that of `start_date` to that of `end_date`, the day (or its part inside
/// the window, which ends one second before the window's end) clipped to
/// `start_date..=end_date`, where that is not empty.  A daily run that
/// reaches the last representable date fails with `DateOverflow`.
#[verifier::spinoff_prover]
pub fn build_time_frames(
    mode: &DownloadMode,
    start_date: DateTime,
    end_date: DateTime,
    hour_window: Option<HourWindow>,
) -> (r: Result<Vec<(DateTime, DateTime)>, DownloadError>)
    requires
        frames_stay_in_range(*mode, start_date@, end_date@, hour_window),
    ensures
        *mode is Hourly ==> (r matches Ok(v) && frames_view(v@) == hourly_frames_from(
            start_date@,
            start_date@,
            end_date@,
            hour_window,
        )),
        *mode is Daily ==> match daily_frames_from(start_date@.date, start_date@, end_date@, hour_window) {
            Ok(fs) => (r matches Ok(v) && frames_view(v@) == fs),
            Err(d) => (r matches Err(DownloadError::DateOverflow { date }) && date@ == d),
        },
{
    let mut time_frames: Vec<(DateTime, DateTime)> = Vec::new();
    proof {
        use_type_invariant(&start_date);
        use_type_invariant(&end_date);
    }
    match mode {
        DownloadMode::Hourly => {
            let mut cursor = start_date;
            assert(frames_view(time_frames@) =~= Seq::<FrameModel>::empty());
            while cursor.key() <= end_date.key()
                invariant
                    frames_view(time_frames@) + hourly_frames_from(cursor@, start_date@, end_date@, hour_window)
                        == hourly_frames_from(start_date@, start_date@, end_date@, hour_window),
                    start_date@.key() <= cursor@.key(),
                    start_date@.is_valid(),
                    end_date@.is_valid(),
                    frames_stay_in_range(*mode, start_date@, end_date@, hour_window),
                    *mode is Hourly,
                decreases
                    end_date@.date.year + 1 - cursor@.date.year,
                    13 - cursor@.date.month,
                    32 - cursor@.date.day,
                    24 - cursor@.time.hour,
            {
                proof {
                    use_type_invariant(&cursor);
                }
                let hour_start = cursor.hour_start();
                let ghost hs = hour_start@;
                proof {
                    if hs.date.is_last() && hs.time.hour == 23 {
                        assert(end_date@.date == hs.date);
                        assert(false);
                    }
                    if hs.time.hour == 23 {
                        crate::calendar::lemma_next_day(hs.date);
                    }
                }
                let next = hour_start.plus_one_hour();
                let skip = match hour_window {
                    Some(w) => {
                        let k = hour_start.time().key();
                        k < w.start.key() || k >= w.end.key()
                    },
                    None => false,
                };
                if !skip {
                    let hour_end = next.minus_one_second();
                    assert(hour_end@ == hs.hour_last_second());
                    let frame = (start_date.later_of(&hour_start), end_date.earlier_of(&hour_end));
                    let ghost before = time_frames@;
                    time_frames.push(frame);
                    proof {
                        lemma_frames_view_push(before, frame);
                        assert(frames_view(time_frames@) + hourly_frames_from(next@, start_date@, end_date@, hour_window)
                            =~= frames_view(before) + hourly_frames_from(cursor@, start_date@, end_date@, hour_window));
                    }
                }
                cursor = next;
            }
            proof {
                use_type_invariant(&cursor);
                assert(frames_view(time_frames@) =~= frames_view(time_frames@) + hourly_frames_from(cursor@, start_date@, end_date@, hour_window));
            }
            Ok(time_frames)
        },
        DownloadMode::Daily => {
            let mut date = start_date.date();
            let end_day = end_date.date();
            assert(frames_view(time_frames@) =~= Seq::<FrameModel>::empty());
            assert(prepend_frames(frames_view(time_frames@), daily_frames_from(date@, start_date@, end_date@, hour_window))
                =~= daily_frames_from(start_date@.date, start_date@, end_date@, hour_window));
            while date.key() <= end_day.key()
                invariant
                    prepend_frames(frames_view(time_frames@), daily_frames_from(date@, start_date@, end_date@, hour_window))
                        == daily_frames_from(start_date@.date, start_date@, end_date@, hour_window),
                    start_date@.date.key() <= date@.key(),
                    start_date@.is_valid(),
                    end_date@.is_valid(),
                    end_day@ == end_date@.date,
                    frames_stay_in_range(*mode, start_date@, end_date@, hour_window),
                    *mode is Daily,
                decreases
                    end_date@.date.year + 1 - date@.year,
                    13 - date@.month,
                    32 - date@.day,
            {
                proof {
                    use_type_invariant(&date);
                }
                let (day_start, day_end) = match hour_window {
                    Some(w) => {
                        proof {
                            if date@.is_first() {
                                assert(date@ == start_date@.date);
                            }
                        }
                        (date.and_time(w.start), date.and_time(w.end).minus_one_second())
                    },
                    None => (
                        date.and_time(TimeOfDay::from_valid_parts(0, 0, 0, 0)),
                        date.and_time(TimeOfDay::from_valid_parts(23, 59, 59, 0)),
                    ),
                };
                assert((day_start@, day_end@) == day_bounds(date@, hour_window));
                let frame_start = start_date.later_of(&day_start);
                let frame_end = end_date.earlier_of(&day_end);
                let ghost before = time_frames@;
                if frame_start.key() <= frame_end.key() {
                    time_frames.push((frame_start, frame_end));
                    proof {
                        lemma_frames_view_push(before, (frame_start, frame_end));
                    }
                }
                assert(frames_view(time_frames@) =~= frames_view(before) + daily_frame(date@, start_date@, end_date@, hour_window));
                match succ_date(&date) {
                    Some(next) => {
                        proof {
                            crate::calendar::lemma_next_day(date@);
                            match daily_frames_from(next@, start_date@, end_date@, hour_window) {
                                Ok(rest) => {
                                    assert(frames_view(before) + (daily_frame(date@, start_date@, end_date@, hour_window) + rest)
                                        =~= frames_view(time_frames@) + rest);
                                },
                                Err(_) => {},
                            }
                        }
                        date = next;
                    },
                    None => {
                        return Err(DownloadError::DateOverflow { date });
                    },
                }
            }
            proof {
                use_type_invariant(&date);
                assert(frames_view(time_frames@) =~= frames_view(time_frames@) + Seq::<FrameModel>::empty());
            }
            Ok(time_frames)
        },
    }
}

}
