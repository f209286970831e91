//! Which cameras a download covers.
use vstd::prelude::*;
use crate::text::{chars_eq_ignore_ascii_case, chars_equal, chars_of, eq_ignore_ascii_case, trim_bounds, trimmed};

verus! {

/// An entry that selects every camera: `*`, or `all` in any ASCII case.
pub open spec fn selects_every_camera(entry: Seq<char>) -> bool {
    entry == seq!['*'] || eq_ignore_ascii_case(entry, seq!['a', 'l', 'l'])
}

/// Whether one (trimmed, non-empty) entry selects the camera.
pub open spec fn entry_selects(entry: Seq<char>, name: Seq<char>, id: Seq<char>) -> bool {
    selects_every_camera(entry) || entry == name || entry == id
}

/// The entries that count as a filter: those not blank once trimmed.
pub open spec fn is_filter_entry(entry: Seq<char>) -> bool {
    trimmed(entry).len() > 0
}

/// Whether a camera is downloaded: where no entry counts as a filter, every
/// camera is; otherwise a camera is where some entry, trimmed, is `*`, is
/// `all` in any ASCII case, or equals the camera's name or id.
pub open spec fn camera_selected(name: Seq<char>, id: Seq<char>, requested: Seq<Seq<char>>) -> bool {
    ||| forall|i: int| 0 <= i < requested.len() ==> !is_filter_entry(#[trigger] requested[i])
    ||| exists|i: int| 0 <= i < requested.len() && is_filter_entry(#[trigger] requested[i])
        && entry_selects(trimmed(requested[i]), name, id)
}

pub open spec fn strings_view(v: Seq<String>) -> Seq<Seq<char>> {
    v.map_values(|s: String| s@)
}

/// Decides whether the camera named `camera_name` with id `camera_id` is
/// among the requested cameras.
pub fn should_download_camera(camera_name: &str, camera_id: &str, requested_cameras: &[String]) -> (r: bool)
    ensures
        r == camera_selected(camera_name@, camera_id@, strings_view(requested_cameras@)),
{
    let name = chars_of(camera_name);
    let id = chars_of(camera_id);
    let star = vec!['*'];
    let all = vec!['a', 'l', 'l'];
    let ghost req = strings_view(requested_cameras@);
    let mut has_filter = false;
    let mut i: usize = 0;
    while i < requested_cameras.len()
        invariant
            i <= requested_cameras@.len(),
            req == strings_view(requested_cameras@),
            name@ == camera_name@,
            id@ == camera_id@,
            star@ == seq!['*'],
            all@ == seq!['a', 'l', 'l'],
            has_filter == exists|j: int| 0 <= j < i && is_filter_entry(#[trigger] req[j]),
            forall|j: int| 0 <= j < i && is_filter_entry(#[trigger] req[j]) ==> !entry_selects(
                trimmed(req[j]),
                camera_name@,
                camera_id@,
            ),
        decreases requested_cameras.len() - i,
    {
        let entry = chars_of(requested_cameras[i].as_str());
        assert(entry@ == req[i as int]);
        let (lo, hi) = trim_bounds(&entry);
        if lo < hi {
            has_filter = true;
            if chars_equal(&entry, lo, hi, &star) || chars_eq_ignore_ascii_case(&entry, lo, hi, &all)
                || chars_equal(&entry, lo, hi, &name) || chars_equal(&entry, lo, hi, &id) {
                return true;
            }
        }
        i = i + 1;
    }
    assert(!has_filter ==> forall|j: int| 0 <= j < req.len() ==> !is_filter_entry(#[trigger] req[j]));
    !has_filter
}


/// Without a camera filter (no entry, or only blank entries) every camera is downloaded.
pub proof fn lemma_no_filter_selects_every_camera(name: Seq<char>, id: Seq<char>, requested: Seq<Seq<char>>)
    requires
        forall|i: int| 0 <= i < requested.len() ==> trimmed(#[trigger] requested[i]).len() == 0,
    ensures
        camera_selected(name, id, requested),
{
}

/// An entry `*` or `all` (in any ASCII case, surrounded by whitespace or
/// not) selects every camera.
pub proof fn lemma_wildcard_selects_every_camera(
    name: Seq<char>,
    id: Seq<char>,
    requested: Seq<Seq<char>>,
    k: int,
)
    requires
        0 <= k < requested.len(),
        selects_every_camera(trimmed(requested[k])),
    ensures
        camera_selected(name, id, requested),
{
    assert(trimmed(requested[k]).len() > 0);
    assert(is_filter_entry(requested[k]));
}

/// With a filter and no wildcard entry, a camera is downloaded exactly where
/// some entry, trimmed, equals its name or its id.
pub proof fn lemma_filter_selects_by_name_or_id(name: Seq<char>, id: Seq<char>, requested: Seq<Seq<char>>)
    requires
        exists|i: int| 0 <= i < requested.len() && is_filter_entry(#[trigger] requested[i]),
        forall|i: int| 0 <= i < requested.len() ==> !selects_every_camera(trimmed(#[trigger] requested[i])),
    ensures
        camera_selected(name, id, requested) <==> exists|i: int| 0 <= i < requested.len()
            && is_filter_entry(#[trigger] requested[i]) && (trimmed(requested[i]) == name || trimmed(requested[i]) == id),
{
}

/// The filter entries of a request: its entries, trimmed, that are not blank.
pub open spec fn filter_entries(requested: Seq<Seq<char>>) -> Set<Seq<char>> {
    Set::new(|e: Seq<char>| exists|i: int| 0 <= i < requested.len() && is_filter_entry(#[trigger] requested[i])
        && trimmed(requested[i]) == e)
}

/// Whether a camera is downloaded depends on the request only through its
/// set of filter entries: reordering or repeating entries, or adding or
/// dropping blank ones, changes no selection.
pub proof fn lemma_selection_depends_on_filter_entries(
    name: Seq<char>,
    id: Seq<char>,
    r1: Seq<Seq<char>>,
    r2: Seq<Seq<char>>,
)
    requires
        filter_entries(r1) == filter_entries(r2),
    ensures
        camera_selected(name, id, r1) == camera_selected(name, id, r2),
{
    lemma_selection_by_filter_entries(name, id, r1);
    lemma_selection_by_filter_entries(name, id, r2);
}

/// A camera is selected exactly where the request has no filter entry or
/// one of its filter entries selects the camera.
proof fn lemma_selection_by_filter_entries(name: Seq<char>, id: Seq<char>, requested: Seq<Seq<char>>)
    ensures
        camera_selected(name, id, requested) == (filter_entries(requested).is_empty() || exists|e: Seq<char>|
            filter_entries(requested).contains(e) && #[trigger] entry_selects(e, name, id)),
{
    let fe = filter_entries(requested);
    if exists|i: int| 0 <= i < requested.len() && is_filter_entry(#[trigger] requested[i]) {
        let i = choose|i: int| 0 <= i < requested.len() && is_filter_entry(#[trigger] requested[i]);
        assert(fe.contains(trimmed(requested[i])));
        assert(!fe.is_empty());
    } else {
        assert(fe =~= Set::empty());
    }
    if exists|e: Seq<char>| fe.contains(e) && #[trigger] entry_selects(e, name, id) {
        let e = choose|e: Seq<char>| fe.contains(e) && #[trigger] entry_selects(e, name, id);
        let i = choose|i: int| 0 <= i < requested.len() && is_filter_entry(#[trigger] requested[i])
            && trimmed(requested[i]) == e;
        assert(entry_selects(trimmed(requested[i]), name, id));
    }
    if exists|i: int| 0 <= i < requested.len() && is_filter_entry(#[trigger] requested[i])
        && entry_selects(trimmed(requested[i]), name, id) {
        let i = choose|i: int| 0 <= i < requested.len() && is_filter_entry(#[trigger] requested[i])
            && entry_selects(trimmed(requested[i]), name, id);
        assert(fe.contains(trimmed(requested[i])));
        assert(entry_selects(trimmed(requested[i]), name, id));
    }
}

}
