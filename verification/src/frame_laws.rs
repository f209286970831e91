//! What every run of `build_time_frames` yields: frames inside the requested
//! range, each inside one hour (hourly) or one day (daily) and inside the hour
//! window, in order and disjoint, and covering every whole second of the
//! range that the window selects.
use vstd::prelude::*;
use crate::calendar::{lemma_next_day, lemma_next_day_is_successor, DateModel, DateTimeModel, TimeModel};
use crate::args::DownloadMode;
use crate::frames::{
    frames_stay_in_range,
    day_bounds, daily_frame, daily_frames_from, hour_in_window, hourly_frames_from, FrameModel,
    HourWindow,
};

verus! {

/// The frame lies inside `start..=end` and is not empty.
pub open spec fn frame_within(f: FrameModel, start: DateTimeModel, end: DateTimeModel) -> bool {
    start.key() <= f.0.key() <= f.1.key() <= end.key()
}

/// Each frame ends before the next one starts.
pub open spec fn frames_in_order(fs: Seq<FrameModel>) -> bool {
    forall|i: int, j: int| 0 <= i < j < fs.len() ==> #[trigger] fs[i].1.key() < #[trigger] fs[j].0.key()
}

/// Some frame holds the instant `t`.
pub open spec fn frames_cover(fs: Seq<FrameModel>, t: DateTimeModel) -> bool {
    exists|i: int| 0 <= i < fs.len() && #[trigger] fs[i].0.key() <= t.key() && t.key() <= fs[i].1.key()
}

/// An instant inside the last second of its hour but after its start.
pub open spec fn in_last_second_of_hour(t: DateTimeModel) -> bool {
    t.time.minute == 59 && t.time.second == 59 && t.time.nanosecond > 0
}

/// An instant that falls on a whole second.
pub open spec fn is_whole_second(t: DateTimeModel) -> bool {
    t.time.nanosecond == 0
}

proof fn lemma_same_hour(hs: DateTimeModel, x: DateTimeModel, c: DateTimeModel)
    requires
        c.is_valid(),
        x.is_valid(),
        hs == c.hour_start(),
        hs.key() <= x.key() <= c.key(),
    ensures
        x.hour_start() == hs,
{
}

proof fn lemma_in_hour_until_last_second(hs: DateTimeModel, x: DateTimeModel)
    requires
        hs.is_valid(),
        x.is_valid(),
        hs.time.minute == 0 && hs.time.second == 0 && hs.time.nanosecond == 0,
        hs.key() <= x.key() <= hs.hour_last_second().key(),
    ensures
        x.hour_start() == hs,
{
    let c = hs.date.key() * 172_800_000_000_000;
    assert(0 <= x.time.key() < 172_800_000_000_000);
    assert(hs.hour_last_second().time.key() < 172_800_000_000_000);
    assert(x.date.key() == hs.date.key()) by {
        if x.date.key() < hs.date.key() {
            assert(x.date.key() * 172_800_000_000_000 + 172_800_000_000_000 <= c);
        } else if x.date.key() > hs.date.key() {
            assert(x.date.key() * 172_800_000_000_000 >= c + 172_800_000_000_000);
        }
    }
    assert(x.date == hs.date);
    assert(hs.time.key() <= x.time.key() <= hs.hour_last_second().time.key());
    assert(x.time.seconds_of_day() >= hs.time.hour * 3600);
    assert(x.time.seconds_of_day() <= hs.time.hour * 3600 + 3599);
    assert(x.time.hour == hs.time.hour);
}

/// The next hour starts after every instant of the current hour.
proof fn lemma_hour_later_after(c: DateTimeModel)
    requires
        c.is_valid(),
        !(c.date.is_last() && c.time.hour == 23),
    ensures
        c.hour_start().hour_later().is_valid(),
        c.key() < c.hour_start().hour_later().key(),
        c.hour_start().hour_last_second().key() < c.hour_start().hour_later().key(),
{
    if c.time.hour == 23 {
        lemma_next_day(c.date);
    }
}

/// An instant past the hour of `hs` lies at or after the next hour.
proof fn lemma_hour_later_is_successor(hs: DateTimeModel, t: DateTimeModel)
    requires
        hs.is_valid(),
        t.is_valid(),
        hs.time.minute == 0 && hs.time.second == 0 && hs.time.nanosecond == 0,
        hs.key() <= t.key(),
        t.hour_start() != hs,
    ensures
        !(hs.date.is_last() && hs.time.hour == 23),
        hs.hour_later().key() <= t.key(),
{
    if hs.time.hour == 23 {
        assert(t.date.key() > hs.date.key());
        lemma_next_day_is_successor(hs.date, t.date);
    }
}

proof fn lemma_hourly_sound_from(
    cursor: DateTimeModel,
    start: DateTimeModel,
    end: DateTimeModel,
    window: Option<HourWindow>,
)
    requires
        start.is_valid(),
        end.is_valid(),
        cursor == start || (start.key() <= cursor.key() && cursor == cursor.hour_start()),
        !in_last_second_of_hour(start),
    ensures
        ({
            let fs = hourly_frames_from(cursor, start, end, window);
            &&& forall|i: int| 0 <= i < fs.len() ==> {
                &&& frame_within(#[trigger] fs[i], start, end)
                &&& fs[i].0.hour_start() == fs[i].1.hour_start()
                &&& hour_in_window(fs[i].0.hour_start().time, window)
                &&& cursor.hour_start().key() <= fs[i].0.key()
                &&& fs[i].0.is_valid() && fs[i].1.is_valid()
            }
            &&& frames_in_order(fs)
        }),
    decreases
        end.date.year + 1 - cursor.date.year,
        13 - cursor.date.month,
        32 - cursor.date.day,
        24 - cursor.time.hour,
{
    let fs = hourly_frames_from(cursor, start, end, window);
    if cursor.is_valid() && end.is_valid() && cursor.key() <= end.key() {
        let hs = cursor.hour_start();
        let next = hs.hour_later();
        let rest = hourly_frames_from(next, start, end, window);
        if !(hs.date.is_last() && hs.time.hour == 23) {
            lemma_hour_later_after(cursor);
            lemma_hourly_sound_from(next, start, end, window);
            assert(next.hour_start() == next);
        } else {
            assert(!next.is_valid());
            assert(rest =~= Seq::<FrameModel>::empty());
        }
        if hour_in_window(hs.time, window) {
            let f = (start.later_of(hs), end.earlier_of(hs.hour_last_second()));
            assert(fs == seq![f] + rest);
            if start.key() >= hs.key() {
                lemma_same_hour(hs, start, cursor);
            }
            if end.key() <= hs.hour_last_second().key() {
                lemma_in_hour_until_last_second(hs, end);
            }
            assert(frame_within(f, start, end));
            assert forall|i: int| 0 <= i < fs.len() implies {
                &&& frame_within(#[trigger] fs[i], start, end)
                &&& fs[i].0.hour_start() == fs[i].1.hour_start()
                &&& hour_in_window(fs[i].0.hour_start().time, window)
                &&& cursor.hour_start().key() <= fs[i].0.key()
                &&& fs[i].0.is_valid() && fs[i].1.is_valid()
            } by {
                if i > 0 {
                    assert(fs[i] == rest[i - 1]);
                }
            }
            assert forall|i: int, j: int| 0 <= i < j < fs.len() implies #[trigger] fs[i].1.key() < #[trigger] fs[j].0.key() by {
                assert(fs[j] == rest[j - 1]);
                if i > 0 {
                    assert(fs[i] == rest[i - 1]);
                }
            }
        } else {
            assert(fs == rest);
        }
    }
}

/// Every hourly frame lies inside the requested range and is not empty, lies
/// inside one hour whose start is inside the hour window, and the frames come
/// in order without overlap.  (A start inside the last second of its hour,
/// after that second began, yields a first frame that ends before it starts.)
pub proof fn lemma_hourly_frames_sound(start: DateTimeModel, end: DateTimeModel, window: Option<HourWindow>)
    requires
        start.is_valid(),
        end.is_valid(),
        !in_last_second_of_hour(start),
    ensures
        ({
            let fs = hourly_frames_from(start, start, end, window);
            &&& forall|i: int| 0 <= i < fs.len() ==> {
                &&& frame_within(#[trigger] fs[i], start, end)
                &&& fs[i].0.hour_start() == fs[i].1.hour_start()
                &&& hour_in_window(fs[i].0.hour_start().time, window)
                &&& fs[i].0.is_valid() && fs[i].1.is_valid()
            }
            &&& frames_in_order(fs)
        }),
{
    lemma_hourly_sound_from(start, start, end, window);
}

proof fn lemma_hourly_complete_from(
    cursor: DateTimeModel,
    start: DateTimeModel,
    end: DateTimeModel,
    window: Option<HourWindow>,
    t: DateTimeModel,
)
    requires
        cursor.is_valid(),
        end.is_valid(),
        t.is_valid(),
        is_whole_second(t),
        start.key() <= t.key() <= end.key(),
        cursor.key() <= t.key(),
        hour_in_window(t.hour_start().time, window),
    ensures
        frames_cover(hourly_frames_from(cursor, start, end, window), t),
    decreases
        end.date.year + 1 - cursor.date.year,
        13 - cursor.date.month,
        32 - cursor.date.day,
        24 - cursor.time.hour,
{
    let fs = hourly_frames_from(cursor, start, end, window);
    let hs = cursor.hour_start();
    let next = hs.hour_later();
    let rest = hourly_frames_from(next, start, end, window);
    if t.hour_start() == hs {
        let f = (start.later_of(hs), end.earlier_of(hs.hour_last_second()));
        assert(fs == seq![f] + rest);
        assert(fs[0] == f);
        assert(f.0.key() <= t.key() && t.key() <= f.1.key());
    } else {
        lemma_hour_later_is_successor(hs, t);
        lemma_hour_later_after(cursor);
        lemma_hourly_complete_from(next, start, end, window, t);
        let i = choose|i: int| 0 <= i < rest.len() && #[trigger] rest[i].0.key() <= t.key() && t.key() <= rest[i].1.key();
        if hour_in_window(hs.time, window) {
            let f = (start.later_of(hs), end.earlier_of(hs.hour_last_second()));
            assert(fs == seq![f] + rest);
            assert(fs[i + 1] == rest[i]);
        } else {
            assert(fs == rest);
        }
    }
}

/// Every whole second from `start` to `end` whose hour starts inside the hour
/// window lies in some hourly frame.  (Other instants can fall between the
/// last whole second of an hour and the next hour.)
pub proof fn lemma_hourly_frames_complete(
    start: DateTimeModel,
    end: DateTimeModel,
    window: Option<HourWindow>,
    t: DateTimeModel,
)
    requires
        start.is_valid(),
        end.is_valid(),
        t.is_valid(),
        is_whole_second(t),
        start.key() <= t.key() <= end.key(),
        hour_in_window(t.hour_start().time, window),
    ensures
        frames_cover(hourly_frames_from(start, start, end, window), t),
{
    lemma_hourly_complete_from(start, start, end, window, t);
}


/// Whether the time of day of `t` lies inside the window (always, without one).
pub open spec fn time_in_window(t: DateTimeModel, window: Option<HourWindow>) -> bool {
    match window {
        None => true,
        Some(w) => w.start@.key() <= t.time.key() < w.end@.key(),
    }
}

/// The window's times are valid times of day.
pub open spec fn window_is_valid(window: Option<HourWindow>) -> bool {
    match window {
        None => true,
        Some(w) => w.start@.is_valid() && w.end@.is_valid(),
    }
}

/// A window whose end has a fraction of a second (and is not a leap second).
pub open spec fn window_ends_within_second(window: Option<HourWindow>) -> bool {
    match window {
        None => false,
        Some(w) => 0 < w.end@.nanosecond < 1_000_000_000,
    }
}

proof fn lemma_date_of_later(d: DateModel, x: DateTimeModel, y: DateTimeModel)
    requires
        x.is_valid(),
        y.time.is_valid(),
        y.date == d,
        y.key() <= x.key(),
    ensures
        d.key() <= x.date.key(),
{
    assert(y.time.key() >= 0);
    assert(x.time.key() < 172_800_000_000_000);
    if x.date.key() < d.key() {
        assert(x.date.key() * 172_800_000_000_000 + 172_800_000_000_000 <= d.key() * 172_800_000_000_000);
    }
}

proof fn lemma_date_of_earlier(d: DateModel, x: DateTimeModel, y: DateTimeModel)
    requires
        x.is_valid(),
        y.time.is_valid(),
        y.date == d,
        x.key() <= y.key(),
    ensures
        x.date.key() <= d.key(),
{
    assert(x.time.key() >= 0);
    assert(y.time.key() < 172_800_000_000_000);
    if x.date.key() > d.key() {
        assert(x.date.key() * 172_800_000_000_000 >= d.key() * 172_800_000_000_000 + 172_800_000_000_000);
    }
}

proof fn lemma_daily_frame_sound(d: DateModel, start: DateTimeModel, end: DateTimeModel, window: Option<HourWindow>)
    requires
        window_is_valid(window),
        d.is_valid(),
        start.is_valid(),
        end.is_valid(),
        start.date.key() <= d.key(),
        daily_frame(d, start, end, window).len() > 0,
    ensures
        ({
            let f = daily_frame(d, start, end, window)[0];
            &&& daily_frame(d, start, end, window).len() == 1
            &&& frame_within(f, start, end)
            &&& f.0.date == d
            &&& f.1.date == d
            &&& day_bounds(d, window).0.key() <= f.0.key()
            &&& f.1.key() <= day_bounds(d, window).1.key()
            &&& f.0.is_valid() && f.1.is_valid()
        }),
{
    let b = day_bounds(d, window);
    let first = start.later_of(b.0);
    let last = end.earlier_of(b.1);
    assert(first.key() <= last.key());
    assert(b.0.is_valid());
    assert(first.is_valid());
    assert(last.is_valid());
    if first == start {
        lemma_date_of_later(d, start, b.0);
    }
    assert(first.date == d);
    lemma_date_of_later(d, last, first);
    assert(b.1.time.is_valid());
    if b.1.date != d {
        // the window ends at midnight: its last second belongs to the day before
        assert(b.1.date == d.prev_day());
        assert(b.1.key() < b.0.key());
        assert(false);
    }
    lemma_date_of_earlier(d, last, b.1);
    assert(last.date.key() == d.key());
}

proof fn lemma_daily_sound_from(d: DateModel, start: DateTimeModel, end: DateTimeModel, window: Option<HourWindow>)
    requires
        window_is_valid(window),
        start.is_valid(),
        end.is_valid(),
        start.date.key() <= d.key(),
    ensures
        daily_frames_from(d, start, end, window) matches Ok(fs) ==> {
            &&& forall|i: int| 0 <= i < fs.len() ==> {
                &&& frame_within(#[trigger] fs[i], start, end)
                &&& fs[i].0.date == fs[i].1.date
                &&& d.key() <= fs[i].0.date.key()
                &&& day_bounds(fs[i].0.date, window).0.key() <= fs[i].0.key()
                &&& fs[i].1.key() <= day_bounds(fs[i].0.date, window).1.key()
                &&& fs[i].0.is_valid() && fs[i].1.is_valid()
            }
            &&& frames_in_order(fs)
        },
    decreases
        end.date.year + 1 - d.year,
        13 - d.month,
        32 - d.day,
{
    if d.is_valid() && end.is_valid() && d.key() <= end.date.key() && !d.is_last() {
        let next = d.next_day();
        lemma_next_day(d);
        lemma_daily_sound_from(next, start, end, window);
        if let Ok(rest) = daily_frames_from(next, start, end, window) {
            let here = daily_frame(d, start, end, window);
            let fs = here + rest;
            assert(daily_frames_from(d, start, end, window) == Ok::<Seq<FrameModel>, DateModel>(fs));
            if here.len() > 0 {
                lemma_daily_frame_sound(d, start, end, window);
            }
            assert forall|i: int| 0 <= i < fs.len() implies {
                &&& frame_within(#[trigger] fs[i], start, end)
                &&& fs[i].0.date == fs[i].1.date
                &&& d.key() <= fs[i].0.date.key()
                &&& day_bounds(fs[i].0.date, window).0.key() <= fs[i].0.key()
                &&& fs[i].1.key() <= day_bounds(fs[i].0.date, window).1.key()
                &&& fs[i].0.is_valid() && fs[i].1.is_valid()
            } by {
                if i >= here.len() {
                    assert(fs[i] == rest[i - here.len()]);
                }
            }
            assert forall|i: int, j: int| 0 <= i < j < fs.len() implies #[trigger] fs[i].1.key() < #[trigger] fs[j].0.key() by {
                if i >= here.len() {
                    assert(fs[i] == rest[i - here.len()]);
                    assert(fs[j] == rest[j - here.len()]);
                } else {
                    assert(fs[j] == rest[j - here.len()]);
                    let a = fs[i].1;
                    let b = fs[j].0;
                    assert(a.date == d);
                    assert(next.key() <= b.date.key());
                    assert(a.time.key() < 172_800_000_000_000);
                    assert(a.key() < (d.key() + 1) * 172_800_000_000_000);
                }
            }
        }
    }
}

/// Every daily frame lies inside the requested range and is not empty, lies
/// inside one day between that day's bounds (the window's start and the
/// second before the window's end, or the whole day), and the frames come in
/// order without overlap.
pub proof fn lemma_daily_frames_sound(start: DateTimeModel, end: DateTimeModel, window: Option<HourWindow>)
    requires
        window_is_valid(window),
        start.is_valid(),
        end.is_valid(),
    ensures
        daily_frames_from(start.date, start, end, window) matches Ok(fs) ==> {
            &&& forall|i: int| 0 <= i < fs.len() ==> {
                &&& frame_within(#[trigger] fs[i], start, end)
                &&& fs[i].0.date == fs[i].1.date
                &&& day_bounds(fs[i].0.date, window).0.key() <= fs[i].0.key()
                &&& fs[i].1.key() <= day_bounds(fs[i].0.date, window).1.key()
                &&& fs[i].0.is_valid() && fs[i].1.is_valid()
            }
            &&& frames_in_order(fs)
        },
{
    lemma_daily_sound_from(start.date, start, end, window);
}

proof fn lemma_day_bounds_hold(d: DateModel, window: Option<HourWindow>, t: DateTimeModel)
    requires
        window_is_valid(window),
        d.is_valid(),
        t.is_valid(),
        t.date == d,
        is_whole_second(t),
        time_in_window(t, window),
        !window_ends_within_second(window),
    ensures
        day_bounds(d, window).0.key() <= t.key(),
        t.key() <= day_bounds(d, window).1.key(),
{
    let b = day_bounds(d, window);
    match window {
        None => {},
        Some(w) => {
            let we = w.end@;
            assert(b.0 == d.at(w.start@));
            assert(w.start@.key() <= t.time.key());
            assert(t.time.key() < we.key());
            if we.is_leap_second() {
                assert(b.1 == d.at(TimeModel { nanosecond: we.nanosecond - 1_000_000_000, ..we }));
                assert(t.time.seconds_of_day() <= we.seconds_of_day());
            } else {
                assert(we.nanosecond == 0);
                assert(t.time.seconds_of_day() < we.seconds_of_day());
                assert(!we.is_midnight());
                assert(b.1 == d.at(we.second_earlier()));
                assert(we.second_earlier().seconds_of_day() == we.seconds_of_day() - 1);
            }
        },
    }
}

proof fn lemma_daily_frame_covers(
    d: DateModel,
    start: DateTimeModel,
    end: DateTimeModel,
    window: Option<HourWindow>,
    t: DateTimeModel,
)
    requires
        window_is_valid(window),
        d.is_valid(),
        t.is_valid(),
        t.date == d,
        is_whole_second(t),
        start.key() <= t.key() <= end.key(),
        time_in_window(t, window),
        !window_ends_within_second(window),
    ensures
        daily_frame(d, start, end, window).len() == 1,
        daily_frame(d, start, end, window)[0].0.key() <= t.key(),
        t.key() <= daily_frame(d, start, end, window)[0].1.key(),
{
    lemma_day_bounds_hold(d, window, t);
}

proof fn lemma_daily_complete_from(
    d: DateModel,
    start: DateTimeModel,
    end: DateTimeModel,
    window: Option<HourWindow>,
    t: DateTimeModel,
)
    requires
        window_is_valid(window),
        d.is_valid(),
        start.is_valid(),
        end.is_valid(),
        t.is_valid(),
        is_whole_second(t),
        start.key() <= t.key() <= end.key(),
        d.key() <= t.date.key(),
        time_in_window(t, window),
        !window_ends_within_second(window),
    ensures
        daily_frames_from(d, start, end, window) matches Ok(fs) ==> frames_cover(fs, t),
    decreases
        end.date.year + 1 - d.year,
        13 - d.month,
        32 - d.day,
{
    lemma_date_of_earlier(end.date, t, end);
    if d.is_last() {
        return;
    }
    let next = d.next_day();
    lemma_next_day(d);
    if let Ok(rest) = daily_frames_from(next, start, end, window) {
        let here = daily_frame(d, start, end, window);
        let fs = here + rest;
        assert(daily_frames_from(d, start, end, window) == Ok::<Seq<FrameModel>, DateModel>(fs));
        if t.date == d {
            lemma_daily_frame_covers(d, start, end, window, t);
            assert(fs[0] == here[0]);
        } else {
            lemma_next_day_is_successor(d, t.date);
            lemma_daily_complete_from(next, start, end, window, t);
            let i = choose|i: int| 0 <= i < rest.len() && #[trigger] rest[i].0.key() <= t.key() && t.key() <= rest[i].1.key();
            assert(fs[i + here.len()] == rest[i]);
        }
    }
}

/// Every whole second from `start` to `end` whose time of day lies inside the
/// window lies in some daily frame.  (A window end with a fraction of a second
/// drops the whole second before it.)
pub proof fn lemma_daily_frames_complete(
    start: DateTimeModel,
    end: DateTimeModel,
    window: Option<HourWindow>,
    t: DateTimeModel,
)
    requires
        window_is_valid(window),
        start.is_valid(),
        end.is_valid(),
        t.is_valid(),
        is_whole_second(t),
        start.key() <= t.key() <= end.key(),
        time_in_window(t, window),
        !window_ends_within_second(window),
    ensures
        daily_frames_from(start.date, start, end, window) matches Ok(fs) ==> frames_cover(fs, t),
{
    lemma_date_of_later(start.date, t, start);
    lemma_daily_complete_from(start.date, start, end, window, t);
}

proof fn lemma_daily_overflow_from(d: DateModel, start: DateTimeModel, end: DateTimeModel, window: Option<HourWindow>)
    requires
        d.is_valid(),
        end.is_valid(),
    ensures
        daily_frames_from(d, start, end, window) is Err <==> (d.key() <= end.date.key() && end.date.is_last()),
        daily_frames_from(d, start, end, window) matches Err(e) ==> e == end.date,
    decreases
        end.date.year + 1 - d.year,
        13 - d.month,
        32 - d.day,
{
    if d.key() <= end.date.key() && !d.is_last() {
        let next = d.next_day();
        lemma_next_day(d);
        lemma_daily_overflow_from(next, start, end, window);
        if d.key() < end.date.key() {
            lemma_next_day_is_successor(d, end.date);
        }
    }
}

/// A daily run fails exactly where its dates reach the last representable
/// date, and then names that date.
pub proof fn lemma_daily_frames_overflow(start: DateTimeModel, end: DateTimeModel, window: Option<HourWindow>)
    requires
        start.is_valid(),
        end.is_valid(),
    ensures
        daily_frames_from(start.date, start, end, window) is Err <==> (start.date.key() <= end.date.key()
            && end.date.is_last()),
        daily_frames_from(start.date, start, end, window) matches Err(e) ==> e == end.date,
{
    lemma_daily_overflow_from(start.date, start, end, window);
}

/// A window of whole hours whose start comes before its end, as
/// `parse_hour_window` makes them, or no window.
pub open spec fn window_of_whole_hours(window: Option<HourWindow>) -> bool {
    match window {
        None => true,
        Some(w) => {
            &&& w.start@.is_valid() && w.end@.is_valid()
            &&& w.start@.minute == 0 && w.start@.second == 0 && w.start@.nanosecond == 0
            &&& w.end@.minute == 0 && w.end@.second == 0 && w.end@.nanosecond == 0
            &&& w.start@.key() < w.end@.key()
        },
    }
}

/// The instants that a run is asked for: from `start` to `end`, with the
/// time of day inside the window.
pub open spec fn requested_instant(
    t: DateTimeModel,
    start: DateTimeModel,
    end: DateTimeModel,
    window: Option<HourWindow>,
) -> bool {
    start.key() <= t.key() <= end.key() && time_in_window(t, window)
}

/// With a window of whole hours, the hour of a whole second lies in the
/// window exactly where the second does.
proof fn lemma_whole_hour_window(t: DateTimeModel, window: Option<HourWindow>)
    requires
        t.is_valid(),
        is_whole_second(t),
        window_of_whole_hours(window),
    ensures
        hour_in_window(t.hour_start().time, window) == time_in_window(t, window),
{
    if let Some(w) = window {
        let sod = t.time.seconds_of_day();
        assert(t.time.hour * 3600 <= sod < t.time.hour * 3600 + 3600);
        assert(t.time.key() == sod * 2_000_000_000);
        assert(w.start@.key() == w.start@.hour * 7_200_000_000_000);
        assert(w.end@.key() == w.end@.hour * 7_200_000_000_000);
        assert(t.hour_start().time.key() == t.time.hour * 7_200_000_000_000);
    }
}

/// A whole second between two instants of one hour lies in that hour.
proof fn lemma_within_one_hour(a: DateTimeModel, b: DateTimeModel, t: DateTimeModel)
    requires
        a.is_valid(),
        b.is_valid(),
        t.is_valid(),
        is_whole_second(t),
        a.hour_start() == b.hour_start(),
        a.key() <= t.key() <= b.key(),
    ensures
        t.hour_start() == a.hour_start(),
{
    lemma_date_of_later(a.date, t, a);
    lemma_date_of_earlier(b.date, t, b);
    assert(t.date == a.date);
    let h = a.time.hour;
    assert(a.time.seconds_of_day() >= h * 3600);
    assert(b.time.seconds_of_day() <= h * 3600 + 3599);
    assert(a.time.key() <= t.time.key() <= b.time.key());
    assert(t.time.key() == t.time.seconds_of_day() * 2_000_000_000);
    assert(t.time.seconds_of_day() * 2_000_000_000 >= h * 3600 * 2_000_000_000);
    assert(t.time.seconds_of_day() * 2_000_000_000 < (h * 3600 + 3600) * 2_000_000_000);
    assert(h * 3600 <= t.time.seconds_of_day() < h * 3600 + 3600);
}

/// A whole second inside a daily frame lies inside the window.
proof fn lemma_within_day_bounds(
    d: DateModel,
    a: DateTimeModel,
    b: DateTimeModel,
    t: DateTimeModel,
    window: Option<HourWindow>,
)
    requires
        d.is_valid(),
        a.is_valid(),
        b.is_valid(),
        t.is_valid(),
        is_whole_second(t),
        window_of_whole_hours(window),
        a.date == d,
        b.date == d,
        day_bounds(d, window).0.key() <= a.key(),
        b.key() <= day_bounds(d, window).1.key(),
        a.key() <= t.key() <= b.key(),
    ensures
        time_in_window(t, window),
{
    lemma_date_of_later(d, t, a);
    lemma_date_of_earlier(d, t, b);
    assert(t.date == d);
    if let Some(w) = window {
        let e = w.end@.hour;
        assert(e >= 1);
        assert(day_bounds(d, window).1 == d.at(TimeModel::hms(e - 1, 59, 59)));
        assert(t.time.key() <= (e * 3600 - 1) * 2_000_000_000);
        assert(w.end@.key() == e * 3600 * 2_000_000_000);
    }
}

/// An hourly run and a daily run over the same range and window of whole
/// hours cover the same whole seconds: exactly those from `start` to `end`
/// whose time of day lies inside the window, end excluded.  The two modes
/// differ only in how they split that set into frames.
pub proof fn lemma_modes_cover_the_same_seconds(
    start: DateTimeModel,
    end: DateTimeModel,
    window: Option<HourWindow>,
    t: DateTimeModel,
)
    requires
        start.is_valid(),
        end.is_valid(),
        is_whole_second(start),
        is_whole_second(end),
        window_of_whole_hours(window),
        t.is_valid(),
        is_whole_second(t),
    ensures
        frames_cover(hourly_frames_from(start, start, end, window), t) == requested_instant(t, start, end, window),
        daily_frames_from(start.date, start, end, window) matches Ok(fs) ==> frames_cover(fs, t)
            == requested_instant(t, start, end, window),
{
    lemma_whole_hour_window(t, window);
    lemma_hourly_frames_sound(start, end, window);
    lemma_daily_frames_sound(start, end, window);
    let hs = hourly_frames_from(start, start, end, window);
    if frames_cover(hs, t) {
        let i = choose|i: int| 0 <= i < hs.len() && #[trigger] hs[i].0.key() <= t.key() && t.key() <= hs[i].1.key();
        assert(frame_within(hs[i], start, end));
        lemma_within_one_hour(hs[i].0, hs[i].1, t);
    }
    if requested_instant(t, start, end, window) {
        lemma_hourly_frames_complete(start, end, window, t);
        lemma_daily_frames_complete(start, end, window, t);
    }
    if let Ok(fs) = daily_frames_from(start.date, start, end, window) {
        if frames_cover(fs, t) {
            let i = choose|i: int| 0 <= i < fs.len() && #[trigger] fs[i].0.key() <= t.key() && t.key() <= fs[i].1.key();
            assert(frame_within(fs[i], start, end));
            lemma_within_day_bounds(fs[i].0.date, fs[i].0, fs[i].1, t, window);
        }
    }
}

/// The range guard refuses a run only at the edges of chrono's range: an
/// hourly run only where its end, not before its start, lies in the last
/// hour (23:00 on) of the last representable date; a daily run only where
/// it starts on the first representable date with a window that ends at
/// midnight.  Every other run is built.
pub proof fn lemma_range_guard_refuses_only_at_the_edges(
    start: DateTimeModel,
    end: DateTimeModel,
    window: Option<HourWindow>,
)
    ensures
        !end.date.is_last() ==> frames_stay_in_range(DownloadMode::Hourly, start, end, window),
        end.time.hour != 23 ==> frames_stay_in_range(DownloadMode::Hourly, start, end, window),
        end.key() < start.key() ==> frames_stay_in_range(DownloadMode::Hourly, start, end, window),
        !frames_stay_in_range(DownloadMode::Hourly, start, end, window) <==> (start.key() <= end.key()
            && end.date.is_last() && end.time.hour == 23),
        !start.date.is_first() ==> frames_stay_in_range(DownloadMode::Daily, start, end, window),
        window is None ==> frames_stay_in_range(DownloadMode::Daily, start, end, window),
        (window matches Some(w) && !w.end@.is_midnight()) ==> frames_stay_in_range(DownloadMode::Daily, start, end, window),
{
}

}
