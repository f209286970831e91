//! The decisions of a download run: reading the requested range and hour
//! window, the timelapse frame rate, the order of the downloads, whether an
//! existing file is written over, and the name of each video file.
use vstd::prelude::*;
use vstd::string::*;
use crate::args::{DownloadArgs, RecordingType, TimelapseFactor};
use crate::calendar::{Date, DateModel, DateTime, DateTimeModel, TimeModel, TimeOfDay};
use crate::chrono_bridge::{
    year_text, chrono_parse_date, chrono_parse_date_time, date_hour_text, date_reading, date_time_reading,
    format_date_time, parse_date, parse_date_time,
};
use crate::error::{DownloadError, ParseErrorKind};
use crate::frame_laws::window_of_whole_hours;
use crate::frames::HourWindow;
use crate::hour_window::{hour_window_result, parse_hour_window, problem_view};
use crate::cameras::{camera_selected, should_download_camera, strings_view};
use crate::text::{ascii_only, chars_of, is_ascii_char, keep_ascii, string_from_chars};

verus! {

/// What `sanitize_filename::sanitize_with_options` yields for a name and the
/// options `windows`, `truncate` and `replacement`.
pub uninterp spec fn sanitized_file_name(name: Seq<char>, windows: bool, truncate: bool, replacement: Seq<char>) -> Seq<char>;

/// Calls `sanitize_filename::sanitize_with_options` with these options.
/// Trusted: the result is the named sanitizing result of the name and the
/// options; the crate's rules (illegal, control and reserved names, trailing
/// dots and spaces, truncation to 255 bytes) are not written out here.
#[verifier::external_body]
fn sanitize_with_options(name: &str, windows: bool, truncate: bool, replacement: &str) -> (r: String)
    ensures
        r@ == sanitized_file_name(name@, windows, truncate, replacement@),
{
    sanitize_filename::sanitize_with_options(name, sanitize_filename::Options { windows, truncate, replacement })
}

/// The instant that a start or end argument names, from chrono's two
/// readings of it: the date-time reading where it succeeded, else the date
/// at 00:00:00 (start) or 23:59:59 (end), else the date reading's error.
pub open spec fn instant_of_readings(
    date_time: Result<DateTimeModel, ParseErrorKind>,
    date: Result<DateModel, ParseErrorKind>,
    is_start: bool,
) -> Result<DateTimeModel, ParseErrorKind> {
    match date_time {
        Ok(dt) => Ok(dt),
        Err(_) => match date {
            Ok(d) => Ok(d.at(if is_start { TimeModel::hms(0, 0, 0) } else { TimeModel::hms(23, 59, 59) })),
            Err(k) => Err(k),
        },
    }
}

/// chrono's reading of `YYYY-MM-DD-HH`: the text with `-00` appended, read
/// as `%Y-%m-%d-%H-%M`.
pub open spec fn date_hour_reading(text: Seq<char>) -> Result<DateTimeModel, ParseErrorKind> {
    chrono_parse_date_time(text + "-00"@, "%Y-%m-%d-%H-%M"@)
}

/// chrono's reading of `YYYY-MM-DD`: the text read as `%Y-%m-%d`.
pub open spec fn date_only_reading(text: Seq<char>) -> Result<DateModel, ParseErrorKind> {
    chrono_parse_date(text, "%Y-%m-%d"@)
}

/// The instant that a start or end argument names.
pub open spec fn parsed_instant(text: Seq<char>, is_start: bool) -> Result<DateTimeModel, ParseErrorKind> {
    instant_of_readings(date_hour_reading(text), date_only_reading(text), is_start)
}

/// Picks the instant from chrono's two readings of a start or end argument:
/// the date-time where it was read, else the date at 00:00:00 (`is_start`)
/// or 23:59:59, else the error of the date reading.
pub fn instant_from_readings(
    date_time: Result<DateTime, ParseErrorKind>,
    date: Result<Date, ParseErrorKind>,
    is_start: bool,
) -> (r: Result<DateTime, ParseErrorKind>)
    ensures
        date_time_reading(r) == instant_of_readings(date_time_reading(date_time), date_reading(date), is_start),
        date_time is Ok ==> r == date_time,
{
    match date_time {
        Ok(dt) => Ok(dt),
        Err(_) => match date {
            Ok(d) => if is_start {
                Ok(d.and_time(TimeOfDay::from_valid_parts(0, 0, 0, 0)))
            } else {
                Ok(d.and_time(TimeOfDay::from_valid_parts(23, 59, 59, 0)))
            },
            Err(k) => Err(k),
        },
    }
}

/// Reads a start or end argument, `YYYY-MM-DD-HH` or `YYYY-MM-DD`; a plain
/// date starts at 00:00:00 (`is_start`) or ends at 23:59:59.  The error is
/// chrono's error for the date form.  Every instant read falls on a whole
/// second, and one read as `YYYY-MM-DD-HH` on a whole minute.
pub fn parse_date_or_hour(date_or_hour: &str, is_start: bool) -> (r: Result<DateTime, ParseErrorKind>)
    ensures
        date_time_reading(r) == parsed_instant(date_or_hour@, is_start),
        r matches Ok(x) ==> x@.time.nanosecond == 0,
        date_hour_reading(date_or_hour@) is Ok ==> (r matches Ok(x) && x@.time.second == 0),
{
    let with_minutes = String::from_str(date_or_hour).concat("-00");
    let date_time = parse_date_time(with_minutes.as_str(), "%Y-%m-%d-%H-%M");
    let date = parse_date(date_or_hour, "%Y-%m-%d");
    instant_from_readings(date_time, date, is_start)
}

/// Whether a video is written: always where no file of its name exists yet,
/// and over an existing file only with `--force`.
pub fn should_write_file(file_exists: bool, force: bool) -> (r: bool)
    ensures
        r == (!file_exists || force),
{
    !file_exists || force
}

/// The validated range and hour window of a download.
#[derive(Debug)]
pub struct DownloadRequest {
    pub start: DateTime,
    pub end: DateTime,
    pub hour_window: Option<HourWindow>,
}

/// What preparing a download yields for its start, end and hours arguments.
pub open spec fn request_result(
    start_text: Seq<char>,
    end_text: Seq<char>,
    hours: Option<Seq<char>>,
) -> Result<(DateTimeModel, DateTimeModel, Option<(nat, nat)>), RequestError> {
    match (parsed_instant(start_text, true), parsed_instant(end_text, false)) {
        (Err(k), _) => Err(RequestError::ParseDate(start_text, k)),
        (Ok(_), Err(k)) => Err(RequestError::ParseDate(end_text, k)),
        (Ok(start), Ok(end)) => if end.key() < start.key() {
            Err(RequestError::InvalidDateRange(start, end))
        } else {
            match hours {
                None => Ok((start, end, None)),
                Some(h) => match hour_window_result(h) {
                    Ok(w) => Ok((start, end, Some(w))),
                    Err(p) => Err(RequestError::InvalidHourWindow(h, p)),
                },
            }
        },
    }
}

/// The errors of preparing a download, as values.
pub enum RequestError {
    ParseDate(Seq<char>, ParseErrorKind),
    InvalidDateRange(DateTimeModel, DateTimeModel),
    InvalidHourWindow(Seq<char>, crate::hour_window::HourWindowProblemModel),
}

pub open spec fn error_matches(e: DownloadError, m: RequestError) -> bool {
    match (e, m) {
        (DownloadError::ParseDate { input, source }, RequestError::ParseDate(i, k)) => input@ == i
            && source == k,
        (DownloadError::InvalidDateRange { start, end }, RequestError::InvalidDateRange(s, t)) => start@ == s
            && end@ == t,
        (DownloadError::InvalidHourWindow { input, problem }, RequestError::InvalidHourWindow(i, p)) => input@ == i
            && problem_view(problem) == p,
        _ => false,
    }
}

pub open spec fn request_matches(req: DownloadRequest, m: (DateTimeModel, DateTimeModel, Option<(nat, nat)>)) -> bool {
    &&& req.start@ == m.0
    &&& req.end@ == m.1
    &&& match (req.hour_window, m.2) {
        (None, None) => true,
        (Some(w), Some((a, b))) => w.start@ == TimeModel::hms(a as int, 0, 0) && w.end@ == TimeModel::hms(
            b as int,
            0,
            0,
        ),
        _ => false,
    }
}

pub open spec fn option_string_view(o: Option<String>) -> Option<Seq<char>> {
    match o {
        Some(s) => Some(s@),
        None => None,
    }
}

/// Reads and checks the start date, the end date (not before the start)
/// and the hour window of a download.
pub fn prepare_download(args: &DownloadArgs) -> (r: Result<DownloadRequest, DownloadError>)
    ensures
        match request_result(args.start_date@, args.end_date@, option_string_view(args.hours)) {
            Ok(m) => (r matches Ok(req) && request_matches(req, m)),
            Err(m) => (r matches Err(e) && error_matches(e, m)),
        },
        r matches Ok(req) ==> req.start@.time.nanosecond == 0 && req.end@.time.nanosecond == 0,
        r matches Ok(req) ==> window_of_whole_hours(req.hour_window),
{
    let start = match parse_date_or_hour(args.start_date.as_str(), true) {
        Ok(x) => x,
        Err(source) => {
            return Err(DownloadError::ParseDate { input: args.start_date.clone(), source });
        },
    };
    let end = match parse_date_or_hour(args.end_date.as_str(), false) {
        Ok(x) => x,
        Err(source) => {
            return Err(DownloadError::ParseDate { input: args.end_date.clone(), source });
        },
    };
    if end.key() < start.key() {
        return Err(DownloadError::InvalidDateRange { start, end });
    }
    let hour_window = match &args.hours {
        Some(h) => match parse_hour_window(h.as_str()) {
            Ok(w) => {
                proof {
                    crate::hour_window::lemma_parsed_window_is_ordered(h@);
                }
                Some(w)
            },
            Err(e) => {
                return Err(e);
            },
        },
        None => None,
    };
    Ok(DownloadRequest { start, end, hour_window })
}

/// The frame rate of a timelapse export; none for real-time recordings.
pub fn timelapse_fps(recording_type: &RecordingType, timelapse_factor: &TimelapseFactor) -> (r: Option<u32>)
    ensures
        r == (match recording_type {
            RecordingType::Timelapse => Some(timelapse_factor.fps()),
            RecordingType::Rotating => None,
        }),
{
    match recording_type {
        RecordingType::Timelapse => Some(timelapse_factor.as_fps()),
        RecordingType::Rotating => None,
    }
}

/// The unsanitized name of a video: `YYYY-MM-DD-HH-<camera>-<type>.mp4`.
pub open spec fn raw_video_file_name(frame_start: DateTimeModel, camera_name: Seq<char>, recording_type: Seq<char>) -> Seq<char> {
    date_hour_text(frame_start) + "-"@ + camera_name + "-"@ + recording_type + ".mp4"@
}

/// The file name of the video of one camera for a frame: the frame's start
/// as `%Y-%m-%d-%H`, the camera's name and the recording type joined by `-`
/// with `.mp4`, sanitized (Windows rules, truncated, illegal parts removed),
/// keeping only its ASCII characters.
pub fn video_file_name(frame_start: &DateTime, camera_name: &str, recording_type: &RecordingType) -> (r: String)
    ensures
        r@ == ascii_only(sanitized_file_name(
            raw_video_file_name(frame_start@, camera_name@, recording_type.name_text()),
            true,
            true,
            ""@,
        )),
        forall|i: int| 0 <= i < r@.len() ==> is_ascii_char(#[trigger] r@[i]),
{
    let stamp = format_date_time(frame_start, "%Y-%m-%d-%H");
    let name = stamp.concat("-").concat(camera_name).concat("-").concat(recording_type.as_str()).concat(".mp4");
    let sanitized = sanitize_with_options(name.as_str(), true, true, "");
    let kept = keep_ascii(&chars_of(sanitized.as_str()));
    string_from_chars(kept.as_slice())
}


/// A prepared request never has its end before its start.
pub proof fn lemma_prepared_range_is_ordered(start_text: Seq<char>, end_text: Seq<char>, hours: Option<Seq<char>>)
    ensures
        request_result(start_text, end_text, hours) matches Ok((start, end, _)) ==> start.key() <= end.key(),
{
}

/// The cameras among the first `n` that a download selects, by index, in
/// the server's order.
pub open spec fn selected_cameras(cameras: Seq<(Seq<char>, Seq<char>)>, requested: Seq<Seq<char>>, n: nat) -> Seq<usize>
    decreases n,
{
    if n == 0 {
        seq![]
    } else {
        let before = selected_cameras(cameras, requested, (n - 1) as nat);
        if camera_selected(cameras[n - 1].0, cameras[n - 1].1, requested) {
            before.push((n - 1) as usize)
        } else {
            before
        }
    }
}

/// The downloads of a run, in order: for each of the first `frame_count`
/// frames in turn, each selected camera in the server's order.
pub open spec fn job_order(frame_count: nat, selected: Seq<usize>) -> Seq<(usize, usize)>
    decreases frame_count,
{
    if frame_count == 0 {
        seq![]
    } else {
        job_order((frame_count - 1) as nat, selected) + selected.map_values(
            |c: usize| ((frame_count - 1) as usize, c),
        )
    }
}

/// A list of cameras as (name, id) pairs, taken by their text.
pub open spec fn cameras_view(cameras: Seq<(String, String)>) -> Seq<(Seq<char>, Seq<char>)> {
    cameras.map_values(|c: (String, String)| (c.0@, c.1@))
}

/// The downloads of a run as (frame, camera) indices: the frames in order,
/// and within each frame the cameras, named by (name, id) in the server's
/// order, that the requested cameras select.
pub fn download_jobs(frame_count: usize, cameras: &Vec<(String, String)>, requested: &[String]) -> (r: Vec<(usize, usize)>)
    ensures
        r@ == job_order(
            frame_count as nat,
            selected_cameras(cameras_view(cameras@), strings_view(requested@), cameras@.len()),
        ),
{
    let ghost cams = cameras_view(cameras@);
    let ghost req = strings_view(requested@);
    let mut selected: Vec<usize> = Vec::new();
    let mut c: usize = 0;
    while c < cameras.len()
        invariant
            c <= cameras@.len(),
            cams == cameras_view(cameras@),
            req == strings_view(requested@),
            selected@ == selected_cameras(cams, req, c as nat),
        decreases cameras.len() - c,
    {
        let entry = &cameras[c];
        assert(cams[c as int] == (entry.0@, entry.1@));
        if should_download_camera(entry.0.as_str(), entry.1.as_str(), requested) {
            selected.push(c);
        }
        c = c + 1;
    }
    let mut jobs: Vec<(usize, usize)> = Vec::new();
    let mut f: usize = 0;
    while f < frame_count
        invariant
            f <= frame_count,
            jobs@ == job_order(f as nat, selected@),
        decreases frame_count - f,
    {
        let mut k: usize = 0;
        while k < selected.len()
            invariant
                k <= selected@.len(),
                f < frame_count,
                jobs@ == job_order(f as nat, selected@) + selected@.take(k as int).map_values(
                    |c: usize| (f, c),
                ),
            decreases selected.len() - k,
        {
            jobs.push((f, selected[k]));
            assert(selected@.take(k + 1) =~= selected@.take(k as int).push(selected@[k as int]));
            assert(jobs@ =~= job_order(f as nat, selected@) + selected@.take(k + 1).map_values(
                |c: usize| (f, c),
            ));
            k = k + 1;
        }
        assert(selected@.take(selected@.len() as int) =~= selected@);
        assert(job_order((f + 1) as nat, selected@) == job_order(f as nat, selected@) + selected@.map_values(
            |c: usize| (f, c),
        ));
        f = f + 1;
    }
    jobs
}

/// A start and an end argument with the same text are read alike: both
/// fail with the same error, or both name the same date with the start not
/// after the end.  Where chrono read the text as `YYYY-MM-DD-HH` they are the
/// same instant; otherwise they are 00:00:00 and 23:59:59 of the date.
pub proof fn lemma_start_and_end_readings(text: Seq<char>)
    ensures
        parsed_instant(text, true) is Err <==> parsed_instant(text, false) is Err,
        parsed_instant(text, true) matches Err(k) ==> parsed_instant(text, false) == Err::<DateTimeModel, ParseErrorKind>(k),
        parsed_instant(text, true) matches Ok(a) ==> (parsed_instant(text, false) matches Ok(b) && {
            &&& a.date == b.date
            &&& a.key() <= b.key()
            &&& if date_hour_reading(text) is Ok {
                a == b
            } else {
                a.time == TimeModel::hms(0, 0, 0) && b.time == TimeModel::hms(23, 59, 59)
            }
        }),
{
}

/// The name of a video is laid out as `<stamp>-<camera>-<type>.mp4`: it
/// starts with the frame start's `%Y-%m-%d-%H` stamp, whose last two
/// characters are the start's hour of day (00 to 23), then the camera name
/// and the recording type, each after a `-`, and ends with `.mp4`.
pub proof fn lemma_video_file_name_layout(t: DateTimeModel, camera_name: Seq<char>, recording_type: Seq<char>)
    requires
        t.is_valid(),
    ensures
        ({
            let raw = raw_video_file_name(t, camera_name, recording_type);
            let l = date_hour_text(t).len() as int;
            let n = camera_name.len() as int;
            let k = recording_type.len() as int;
            &&& raw.len() == l + n + k + 6
            &&& raw.subrange(0, l) == date_hour_text(t)
            &&& raw[l - 2] == (48 + t.time.hour / 10) as char
            &&& raw[l - 1] == (48 + t.time.hour % 10) as char
            &&& raw[l] == '-'
            &&& raw.subrange(l + 1, l + 1 + n) == camera_name
            &&& raw[l + 1 + n] == '-'
            &&& raw.subrange(l + 2 + n, l + 2 + n + k) == recording_type
            &&& raw.subrange(l + 2 + n + k, raw.len() as int) == ".mp4"@
        }),
{
    reveal_strlit("-");
    reveal_strlit(".mp4");
    crate::chrono_bridge::lemma_date_hour_text_digits(t);
    let raw = raw_video_file_name(t, camera_name, recording_type);
    let stamp = date_hour_text(t);
    let l = stamp.len() as int;
    let n = camera_name.len() as int;
    let k = recording_type.len() as int;
    assert(raw.subrange(0, l) =~= stamp);
    assert(raw[l - 2] == stamp[l - 2]);
    assert(raw[l - 1] == stamp[l - 1]);
    assert(raw.subrange(l + 1, l + 1 + n) =~= camera_name);
    assert(raw.subrange(l + 2 + n, l + 2 + n + k) =~= recording_type);
    assert(raw.subrange(l + 2 + n + k, raw.len() as int) =~= ".mp4"@);
}

/// Videos of two frames that start on one day at different hours get
/// different names, whatever the camera and the recording type.
pub proof fn lemma_hours_of_a_day_get_distinct_names(
    t1: DateTimeModel,
    t2: DateTimeModel,
    camera_name: Seq<char>,
    recording_type: Seq<char>,
)
    requires
        t1.is_valid(),
        t2.is_valid(),
        t1.date == t2.date,
        t1.time.hour != t2.time.hour,
    ensures
        raw_video_file_name(t1, camera_name, recording_type) != raw_video_file_name(t2, camera_name, recording_type),
{
    lemma_video_file_name_layout(t1, camera_name, recording_type);
    lemma_video_file_name_layout(t2, camera_name, recording_type);
    let r1 = raw_video_file_name(t1, camera_name, recording_type);
    let r2 = raw_video_file_name(t2, camera_name, recording_type);
    let l1 = date_hour_text(t1).len() as int;
    let l2 = date_hour_text(t2).len() as int;
    assert(l1 == l2) by {
        crate::chrono_bridge::lemma_two_digits(t1.time.hour as nat);
        crate::chrono_bridge::lemma_two_digits(t2.time.hour as nat);
        let head = year_text(t1.date.year) + seq!['-'] + crate::chrono_bridge::zero_padded(t1.date.month as nat, 2)
            + seq!['-'] + crate::chrono_bridge::zero_padded(t1.date.day as nat, 2) + seq!['-'];
        assert(date_hour_text(t1) == head + crate::chrono_bridge::zero_padded(t1.time.hour as nat, 2));
        assert(date_hour_text(t2) == head + crate::chrono_bridge::zero_padded(t2.time.hour as nat, 2));
    }
    if r1 == r2 {
        assert(r1[l1 - 2] == r2[l2 - 2]);
        assert(r1[l1 - 1] == r2[l2 - 1]);
        assert(t1.time.hour / 10 == t2.time.hour / 10);
        assert(t1.time.hour % 10 == t2.time.hour % 10);
    }
}

/// A range is refused as `InvalidDateRange` exactly when the end instant
/// lies before the start instant, and then names both; a range whose end is
/// not before its start, without an hour window, is accepted as it was read.
pub proof fn lemma_range_refused_only_when_end_before_start(
    start_text: Seq<char>,
    end_text: Seq<char>,
    hours: Option<Seq<char>>,
)
    ensures
        parsed_instant(start_text, true) matches Ok(s) ==> (parsed_instant(end_text, false) matches Ok(e) ==> {
            &&& (request_result(start_text, end_text, hours) matches Err(RequestError::InvalidDateRange(a, b)))
                <==> e.key() < s.key()
            &&& e.key() < s.key() ==> (request_result(start_text, end_text, hours) matches Err(
                RequestError::InvalidDateRange(a, b),
            ) && a == s && b == e)
            &&& s.key() <= e.key() ==> request_result(start_text, end_text, None) == Ok::<
                (DateTimeModel, DateTimeModel, Option<(nat, nat)>),
                RequestError,
            >((s, e, None))
        }),
{
}

/// Every frame is paired with every selected camera: the jobs of
/// `frame_count` frames are `frame_count` runs through the selected cameras,
/// the `i`-th job being frame `i / |selected|` with camera
/// `selected[i % |selected|]`.
pub proof fn lemma_jobs_pair_every_frame_with_every_camera(frame_count: nat, selected: Seq<usize>)
    ensures
        job_order(frame_count, selected).len() == frame_count * selected.len(),
        forall|i: int| 0 <= i < job_order(frame_count, selected).len() ==> #[trigger] job_order(frame_count, selected)[i]
            == ((i / selected.len() as int) as usize, selected[i % selected.len() as int]),
    decreases frame_count,
{
    if frame_count > 0 {
        let m = (frame_count - 1) as nat;
        lemma_jobs_pair_every_frame_with_every_camera(m, selected);
        let a = job_order(m, selected);
        let b = selected.map_values(|c: usize| (m as usize, c));
        let jobs = job_order(frame_count, selected);
        assert(jobs == a + b);
        let d = selected.len() as int;
        assert(m * d + d == frame_count * d) by (nonlinear_arith)
            requires
                m + 1 == frame_count,
        ;
        assert forall|i: int| 0 <= i < jobs.len() implies #[trigger] jobs[i] == ((i / d) as usize, selected[i % d]) by {
            if i < a.len() {
                assert(jobs[i] == a[i]);
            } else {
                let k = i - m * d;
                assert(0 <= k < d);
                vstd::arithmetic::div_mod::lemma_fundamental_div_mod_converse(i, d, m as int, k);
                assert(jobs[i] == b[k]);
            }
        }
    }
}

/// The selected cameras are, in increasing order, exactly the indices below
/// `n` of the cameras that the request selects.
pub proof fn lemma_selected_cameras_are_the_selected_ones(
    cameras: Seq<(Seq<char>, Seq<char>)>,
    requested: Seq<Seq<char>>,
    n: nat,
)
    requires
        n <= cameras.len(),
        n <= usize::MAX,
    ensures
        ({
            let sel = selected_cameras(cameras, requested, n);
            &&& forall|i: int| 0 <= i < sel.len() ==> #[trigger] sel[i] < n && camera_selected(
                cameras[sel[i] as int].0,
                cameras[sel[i] as int].1,
                requested,
            )
            &&& forall|i: int, j: int| 0 <= i < j < sel.len() ==> #[trigger] sel[i] < #[trigger] sel[j]
            &&& forall|c: int| 0 <= c < n && #[trigger] camera_selected(cameras[c].0, cameras[c].1, requested)
                ==> sel.contains(c as usize)
        }),
    decreases n,
{
    if n > 0 {
        let m = (n - 1) as nat;
        lemma_selected_cameras_are_the_selected_ones(cameras, requested, m);
        let before = selected_cameras(cameras, requested, m);
        let sel = selected_cameras(cameras, requested, n);
        if camera_selected(cameras[m as int].0, cameras[m as int].1, requested) {
            assert(sel == before.push(m as usize));
            assert forall|c: int| 0 <= c < n && #[trigger] camera_selected(cameras[c].0, cameras[c].1, requested)
                implies sel.contains(c as usize) by {
                if c < m {
                    let i = choose|i: int| 0 <= i < before.len() && before[i] == c as usize;
                    assert(sel[i] == c as usize);
                } else {
                    assert(sel[before.len() as int] == c as usize);
                }
            }
        } else {
            assert(sel == before);
        }
    }
}

}
