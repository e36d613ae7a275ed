//! The commit window's row vocabulary: how a changed path is split into a
//! filename and a dim location, and the color and word for each change state.

use vstd::prelude::*;

use crate::diff_model::{file_name_bounds, file_name_spec, lemma_tail_end, path_tail, tail_end, tail_end_of};
use crate::domain::ChangeStatus;
use crate::text::{chars_of, lemma_rfind_char_to, push_str, rfind_char, span_rfind_char, string_from, string_of};
use crate::theme::Palette;

verus! {

/// The section title of unstaged changes.
pub const UNSTAGED: &'static str = "UNSTAGED";

/// The section title of staged changes.
pub const STAGED: &'static str = "STAGED";

/// The group title of untracked files.
pub const UNVERSIONED_FILES: &'static str = "Unversioned Files";

/// The group title of conflicted files.
pub const MERGE_CONFLICTS: &'static str = "Merge conflicts";

/// The filename a row paints: the path's last component, or the whole path
/// when it has none.
pub open spec fn row_name(p: Seq<char>) -> Seq<char> {
    match file_name_spec(p) {
        Some(n) => n,
        None => p,
    }
}

/// The dim location a row paints after the filename: the parent directory
/// (`Path::parent`, its closing separators and `.` segments dropped) with a
/// trailing `/`; none for a file at the repository root, the root itself or
/// an empty path. The root's own parent shows as `//`, as `Path::parent`
/// gives `/` for `/a`.
pub open spec fn row_location(p: Seq<char>) -> Option<Seq<char>> {
    let t = path_tail(p);
    match rfind_char(t, '/') {
        Some(k) => if t.len() == 1 {
            None
        } else {
            let r = t.take(k + 1);
            Some(r.take(tail_end(r, r.len() as int)) + "/"@)
        },
        None => None,
    }
}

/// Row text split for the `[filename] … [dim location]` layout:
/// `("app.rs", Some("src/"))` for `src/app.rs`; a file at the repository
/// root has no location (`None`).
pub fn row_display(path: &str) -> (r: (String, Option<String>))
    ensures
        r.0@ == row_name(path@),
        match row_location(path@) {
            Some(l) => r.1 matches Some(s) && s@ == l,
            None => r.1 is None,
        },
{
    let v = chars_of(path);
    let name = match file_name_bounds(&v) {
        Some((a, b)) => string_of(&v, a, b),
        None => string_from(path),
    };
    let ghost p = v@;
    let q = tail_end_of(&v, v.len());
    let ghost qs = p.take(q as int);
    assert(v@.subrange(0, q as int) =~= qs);
    proof {
        lemma_rfind_char_to(qs, '/', qs.len() as int);
    }
    let location = match span_rfind_char(&v, 0, q, '/') {
        Some(k) => {
            if q == 1 {
                None
            } else {
                let e = tail_end_of(&v, k + 1);
                proof {
                    lemma_tail_end(p, k as int + 1);
                    assert(qs.take(k as int + 1) =~= p.take(k as int + 1));
                    assert(tail_end(p.take(k as int + 1), k as int + 1) == tail_end(p, k as int + 1));
                }
                let mut s = string_of(&v, 0, e);
                assert(s@ =~= p.take(k as int + 1).take(e as int));
                push_str(&mut s, "/");
                Some(s)
            }
        },
        None => None,
    };
    (name, location)
}

/// Status-letter and filename color for a file row: modified blue, added
/// green, unversioned olive; every other state on a semantic hue.
pub fn status_color(status: ChangeStatus) -> (r: u32)
    ensures
        r == match status {
            ChangeStatus::Modified => Palette::STATUS_MODIFIED,
            ChangeStatus::Added => Palette::STATUS_ADDED,
            ChangeStatus::Unversioned => Palette::STATUS_UNVERSIONED,
            ChangeStatus::Deleted => Palette::STATE_ERROR,
            ChangeStatus::Renamed => Palette::BRAND,
            ChangeStatus::Copied => Palette::STATUS_ADDED,
            ChangeStatus::Ignored => Palette::INK_3,
            ChangeStatus::Conflicted => Palette::STATE_ERROR,
        },
{
    match status {
        ChangeStatus::Modified => Palette::STATUS_MODIFIED,
        ChangeStatus::Added => Palette::STATUS_ADDED,
        ChangeStatus::Unversioned => Palette::STATUS_UNVERSIONED,
        ChangeStatus::Deleted => Palette::STATE_ERROR,
        ChangeStatus::Renamed => Palette::BRAND,
        ChangeStatus::Copied => Palette::STATUS_ADDED,
        ChangeStatus::Ignored => Palette::INK_3,
        ChangeStatus::Conflicted => Palette::STATE_ERROR,
    }
}

/// The full word for a change state (the diff header chip).
pub open spec fn status_word(status: ChangeStatus) -> Seq<char> {
    match status {
        ChangeStatus::Modified => "Modified"@,
        ChangeStatus::Added => "Added"@,
        ChangeStatus::Deleted => "Deleted"@,
        ChangeStatus::Renamed => "Renamed"@,
        ChangeStatus::Copied => "Copied"@,
        ChangeStatus::Unversioned => "Unversioned"@,
        ChangeStatus::Ignored => "Ignored"@,
        ChangeStatus::Conflicted => "Conflicted"@,
    }
}

/// Full-word status label for the diff header chip.
pub fn status_chip_label(status: ChangeStatus) -> (r: &'static str)
    ensures
        r@ == status_word(status),
{
    match status {
        ChangeStatus::Modified => "Modified",
        ChangeStatus::Added => "Added",
        ChangeStatus::Deleted => "Deleted",
        ChangeStatus::Renamed => "Renamed",
        ChangeStatus::Copied => "Copied",
        ChangeStatus::Unversioned => "Unversioned",
        ChangeStatus::Ignored => "Ignored",
        ChangeStatus::Conflicted => "Conflicted",
    }
}

} // verus!
