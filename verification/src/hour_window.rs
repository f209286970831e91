//! Parsing of a daily hour window `START-END`, end-exclusive.
use vstd::prelude::*;
use vstd::string::*;
use crate::calendar::{TimeModel, TimeOfDay};
use crate::error::{DownloadError, HourWindowProblem};
use crate::frames::HourWindow;
use crate::text::{chars_of, string_from_chars, trim_bounds, trimmed};

verus! {

pub open spec fn is_ascii_digit(c: char) -> bool {
    '0' <= c <= '9'
}

/// The number that a run of decimal digits writes.
pub open spec fn decimal_value(digits: Seq<char>) -> nat
    decreases digits.len(),
{
    if digits.len() == 0 {
        0
    } else {
        decimal_value(digits.drop_last()) * 10 + (digits.last() as nat - 48) as nat
    }
}

/// The digits that `str::parse::<u32>` reads: the text without an optional
/// leading `+`, where that is a non-empty run of ASCII digits.
pub open spec fn unsigned_digits(s: Seq<char>) -> Option<Seq<char>> {
    let digits = without_plus(s);
    if digits.len() > 0 && all_ascii_digits(digits) {
        Some(digits)
    } else {
        None
    }
}

/// The text without one leading `+`.
pub open spec fn without_plus(s: Seq<char>) -> Seq<char> {
    if s.len() > 0 && s[0] == '+' { s.drop_first() } else { s }
}

pub open spec fn all_ascii_digits(s: Seq<char>) -> bool {
    forall|i: int| 0 <= i < s.len() ==> is_ascii_digit(#[trigger] s[i])
}

/// The hour that a component of the window names: its trimmed text read as
/// an unsigned number, where that is below 24.
pub open spec fn parsed_hour(component: Seq<char>) -> Option<nat> {
    match unsigned_digits(trimmed(component)) {
        Some(digits) => if decimal_value(digits) < 24 { Some(decimal_value(digits)) } else { None },
        None => None,
    }
}

/// The parts before and after the first `-`, where there is one.
pub open spec fn split_at_first_dash(s: Seq<char>) -> Option<(Seq<char>, Seq<char>)> {
    if exists|k: int| 0 <= k < s.len() && s[k] == '-' {
        let k = choose|k: int| 0 <= k < s.len() && s[k] == '-' && forall|j: int| 0 <= j < k ==> s[j] != '-';
        Some((s.subrange(0, k), s.subrange(k + 1, s.len() as int)))
    } else {
        None
    }
}

/// What parsing the hour window `input` yields: the window from the first
/// hour up to the second, or the problem that stops it.
pub open spec fn hour_window_result(input: Seq<char>) -> Result<(nat, nat), HourWindowProblemModel> {
    match split_at_first_dash(input) {
        None => Err(HourWindowProblemModel::MissingSeparator),
        Some((a, b)) => match (parsed_hour(a), parsed_hour(b)) {
            (None, _) => Err(HourWindowProblemModel::NotAnHour(trimmed(a))),
            (Some(_), None) => Err(HourWindowProblemModel::NotAnHour(trimmed(b))),
            (Some(start), Some(end)) => if end <= start {
                Err(HourWindowProblemModel::EndNotAfterStart)
            } else {
                Ok((start, end))
            },
        },
    }
}

/// A problem of an hour window, with the component as characters.
pub enum HourWindowProblemModel {
    MissingSeparator,
    NotAnHour(Seq<char>),
    EndNotAfterStart,
}

pub open spec fn problem_view(p: HourWindowProblem) -> HourWindowProblemModel {
    match p {
        HourWindowProblem::MissingSeparator => HourWindowProblemModel::MissingSeparator,
        HourWindowProblem::NotAnHour { component } => HourWindowProblemModel::NotAnHour(component@),
        HourWindowProblem::EndNotAfterStart => HourWindowProblemModel::EndNotAfterStart,
    }
}

/// Reads the hour of one component of the window `window`: its trimmed text
/// as an unsigned number below 24, at minute and second zero.
pub fn parse_hour_component(window: &str, component: &str) -> (r: Result<TimeOfDay, DownloadError>)
    ensures
        match parsed_hour(component@) {
            Some(h) => (r matches Ok(t) && t@ == TimeModel::hms(h as int, 0, 0)),
            None => (r matches Err(DownloadError::InvalidHourWindow { input, problem }) && input@ == window@
                && problem_view(problem) == HourWindowProblemModel::NotAnHour(trimmed(component@))),
        },
{
    let chars = chars_of(component);
    let (lo, hi) = trim_bounds(&chars);
    let ghost t = trimmed(component@);
    let mut start = lo;
    if start < hi && chars[start] == '+' {
        start = start + 1;
    }
    let ghost digits = chars@.subrange(start as int, hi as int);
    assert(digits =~= without_plus(t));
    // the value read so far, while it stays below 24
    let mut value: u32 = 0;
    let mut too_large = false;
    let mut all_digits = true;
    let mut i = start;
    while i < hi
        invariant
            start <= i <= hi <= chars@.len(),
            digits == chars@.subrange(start as int, hi as int),
            all_digits == forall|j: int| start <= j < i ==> is_ascii_digit(#[trigger] chars@[j]),
            all_digits ==> (too_large <==> decimal_value(chars@.subrange(start as int, i as int)) >= 24),
            all_digits && !too_large ==> value == decimal_value(chars@.subrange(start as int, i as int)),
        decreases hi - i,
    {
        let c = chars[i];
        if '0' <= c && c <= '9' {
            let ghost prefix = chars@.subrange(start as int, i + 1);
            assert(prefix.drop_last() =~= chars@.subrange(start as int, i as int));
            if all_digits && !too_large {
                let next = value * 10 + (c as u32 - 48);
                if next >= 24 {
                    too_large = true;
                } else {
                    value = next;
                }
            }
        } else {
            all_digits = false;
        }
        i = i + 1;
    }
    assert(chars@.subrange(start as int, hi as int) =~= digits);
    assert(all_digits == all_ascii_digits(digits)) by {
        if all_digits {
            assert forall|j: int| 0 <= j < digits.len() implies is_ascii_digit(#[trigger] digits[j]) by {
                assert(digits[j] == chars@[start + j]);
            }
        } else {
            let j = choose|j: int| start <= j < i && !is_ascii_digit(#[trigger] chars@[j]);
            assert(digits[j - start] == chars@[j]);
        }
    }
    assert(unsigned_digits(t) is Some <==> (start < hi && all_digits));
    if start < hi && all_digits && !too_large {
        assert(parsed_hour(component@) == Some(value as nat));
        Ok(TimeOfDay::from_valid_parts(value, 0, 0, 0))
    } else {
        assert(parsed_hour(component@) is None);
        let trimmed_text = string_from_chars(&chars.as_slice()[lo..hi]);
        assert(trimmed_text@ == t);
        Err(DownloadError::InvalidHourWindow {
            input: String::from_str(window),
            problem: HourWindowProblem::NotAnHour { component: trimmed_text },
        })
    }
}


/// Parses a daily hour window `START-END` (end-exclusive, for example
/// `07-19`): the text before the first `-` and the text after it, each
/// trimmed, must be unsigned numbers below 24, and END must be after START.
pub fn parse_hour_window(input: &str) -> (r: Result<HourWindow, DownloadError>)
    ensures
        match hour_window_result(input@) {
            Ok((start, end)) => (r matches Ok(w) && w.start@ == TimeModel::hms(start as int, 0, 0)
                && w.end@ == TimeModel::hms(end as int, 0, 0)),
            Err(p) => (r matches Err(DownloadError::InvalidHourWindow { input: i, problem }) && i@ == input@
                && problem_view(problem) == p),
        },
{
    let chars = chars_of(input);
    let n = chars.len();
    let mut k: usize = 0;
    while k < n && chars[k] != '-'
        invariant
            k <= n == chars@.len(),
            forall|j: int| 0 <= j < k ==> chars@[j] != '-',
        decreases n - k,
    {
        k = k + 1;
    }
    if k == n {
        assert(split_at_first_dash(input@) is None);
        return Err(DownloadError::InvalidHourWindow {
            input: String::from_str(input),
            problem: HourWindowProblem::MissingSeparator,
        });
    }
    let ghost s = input@;
    proof {
        assert(s[k as int] == '-');
        let c = choose|c: int| 0 <= c < s.len() && s[c] == '-' && forall|j: int| 0 <= j < c ==> s[j] != '-';
        if c < k {
            assert(chars@[c] != '-');
        }
        if c > k {
            assert(s[k as int] != '-');
        }
        assert(c == k);
        assert(split_at_first_dash(s) == Some((s.subrange(0, k as int), s.subrange(k + 1, s.len() as int))));
    }
    let start_text = input.substring_char(0, k);
    let end_text = input.substring_char(k + 1, n);
    let start = match parse_hour_component(input, start_text) {
        Ok(t) => t,
        Err(e) => {
            return Err(e);
        },
    };
    let end = match parse_hour_component(input, end_text) {
        Ok(t) => t,
        Err(e) => {
            return Err(e);
        },
    };
    if end.key() <= start.key() {
        return Err(DownloadError::InvalidHourWindow {
            input: String::from_str(input),
            problem: HourWindowProblem::EndNotAfterStart,
        });
    }
    Ok(HourWindow { start, end })
}


/// A parsed window starts at an hour before its end, and both are hours of
/// a day: the window is end-exclusive and never empty.
pub proof fn lemma_parsed_window_is_ordered(input: Seq<char>)
    ensures
        hour_window_result(input) matches Ok((start, end)) ==> start < end < 24,
{
}

}
