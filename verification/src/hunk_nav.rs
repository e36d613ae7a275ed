//! Hunk-navigation decision: `F7` / `Shift+F7` step the current hunk through
//! the open diff and, at the edges, cross into the neighboring changed file.
//! Also the words of a hunk header's right side: its line count and its
//! collapse toggle.

use vstd::prelude::*;

use crate::text::{decimal, push_decimal, push_str, string_from};

verus! {

/// The direction of one navigation key press.
#[derive(Clone, Copy, Debug, PartialEq, Eq, Structural)]
pub enum Dir {
    Next,
    Prev,
}

/// What the UI layer should do after one key press.
#[derive(Clone, Copy, Debug, PartialEq, Eq, Structural)]
pub enum Outcome {
    /// Select this hunk index within the open file.
    Moved(usize),
    /// First press past the edge (or an expired window): show the transient
    /// hint only; nothing moves yet.
    Nudge,
    /// Same-direction edge press inside the window: cross to the adjacent
    /// changed file.
    CrossFile,
}

/// The nearest index strictly after (`Next`) or before (`Prev`) `from` whose
/// count is positive.
pub open spec fn is_adjacent_with_hunks(counts: Seq<usize>, from: int, dir: Dir, i: int) -> bool {
    match dir {
        Dir::Next => from < i < counts.len() && counts[i] > 0 && forall|j: int|
            from < j < i ==> counts[j] == 0,
        Dir::Prev => 0 <= i < from && i < counts.len() && counts[i] > 0 && forall|j: int|
            i < j < from && j < counts.len() ==> counts[j] == 0,
    }
}

/// No index in the pressed direction has hunks.
pub open spec fn none_with_hunks(counts: Seq<usize>, from: int, dir: Dir) -> bool {
    match dir {
        Dir::Next => forall|j: int| from < j < counts.len() ==> counts[j] == 0,
        Dir::Prev => forall|j: int| 0 <= j < from && j < counts.len() ==> counts[j] == 0,
    }
}

/// Nearest changed-file index strictly before/after `from` in list order
/// whose entry carries hunks: the cross-file target. `None` means no adjacent
/// file in that direction; navigation never wraps.
pub fn adjacent_file_with_hunks(hunk_counts: &[usize], from: usize, dir: Dir) -> (r: Option<usize>)
    requires
        dir == Dir::Next ==> from < usize::MAX,
    ensures
        match r {
            Some(i) => is_adjacent_with_hunks(hunk_counts@, from as int, dir, i as int),
            None => none_with_hunks(hunk_counts@, from as int, dir),
        },
{
    match dir {
        Dir::Next => {
            let mut i = from + 1;
            while i < hunk_counts.len()
                invariant
                    dir == Dir::Next,
                    from < i,
                    forall|j: int| from < j < i && j < hunk_counts@.len() ==> hunk_counts@[j] == 0,
                decreases hunk_counts@.len() - i,
            {
                if hunk_counts[i] > 0 {
                    return Some(i);
                }
                i += 1;
            }
            None
        },
        Dir::Prev => {
            let mut i = from;
            while i > 0
                invariant
                    dir == Dir::Prev,
                    i <= from,
                    forall|j: int|
                        i <= j < from && j < hunk_counts@.len() ==> hunk_counts@[j] == 0,
                decreases i,
            {
                if i - 1 < hunk_counts.len() && hunk_counts[i - 1] > 0 {
                    return Some(i - 1);
                }
                i -= 1;
            }
            None
        },
    }
}

/// The whole `F7` / `Shift+F7` decision, given whether an edge press in the
/// same direction is armed inside the window: inside the range, step one
/// hunk (a stale cursor first clamps to the last hunk); at the edge, cross
/// files only for a same-direction press within the window when an adjacent
/// changed file exists; otherwise nudge. Never wraps.
pub open spec fn advance_spec(
    current: int,
    total: int,
    dir: Dir,
    armed_dir: Option<Dir>,
    within_window: bool,
    has_adjacent_file: bool,
) -> Outcome {
    if total <= 0 {
        Outcome::Nudge
    } else {
        let c = if current < total - 1 {
            current
        } else {
            total - 1
        };
        let in_range = match dir {
            Dir::Next => c + 1 < total,
            Dir::Prev => c > 0,
        };
        if in_range {
            Outcome::Moved(
                match dir {
                    Dir::Next => (c + 1) as usize,
                    Dir::Prev => (c - 1) as usize,
                },
            )
        } else if armed_dir == Some(dir) && within_window && has_adjacent_file {
            Outcome::CrossFile
        } else {
            Outcome::Nudge
        }
    }
}

/// The decision of [`advance_spec`] for plain inputs: `armed_dir` is the
/// direction of the armed edge press, if any, and `within_window` whether
/// it lies inside the cross-file window.
pub fn hunk_step(
    current: usize,
    total: usize,
    dir: Dir,
    armed_dir: Option<Dir>,
    within_window: bool,
    has_adjacent_file: bool,
) -> (r: Outcome)
    ensures
        r == advance_spec(
            current as int,
            total as int,
            dir,
            armed_dir,
            within_window,
            has_adjacent_file,
        ),
{
    if total == 0 {
        return Outcome::Nudge;
    }
    let current = if current < total - 1 {
        current
    } else {
        total - 1
    };
    let in_range = match dir {
        Dir::Next => current + 1 < total,
        Dir::Prev => current > 0,
    };
    if in_range {
        return Outcome::Moved(
            match dir {
                Dir::Next => current + 1,
                Dir::Prev => current - 1,
            },
        );
    }
    let same = match armed_dir {
        Some(d) => d == dir,
        None => false,
    };
    if same && within_window && has_adjacent_file {
        Outcome::CrossFile
    } else {
        Outcome::Nudge
    }
}

/// Whether the armed edge press (at `at` milliseconds) is still inside the
/// window at `now`: the time since it (zero when the clock reads earlier)
/// is at most `window`.
pub open spec fn within_window(now: int, at: int, window: int) -> bool {
    (if now > at {
        now - at
    } else {
        0
    }) <= window
}

/// The whole `F7` / `Shift+F7` decision at `now_ms`, with the armed edge press
/// (direction and time in milliseconds of one monotonic clock) if any: as
/// [`hunk_step`], where the armed press counts as inside the window when
/// `now_ms` is at most `window_ms` after it.
pub fn advance_hunk(
    current: usize,
    total: usize,
    dir: Dir,
    now_ms: u64,
    armed_edge: Option<(Dir, u64)>,
    window_ms: u64,
    has_adjacent_file: bool,
) -> (r: Outcome)
    ensures
        r == advance_spec(
            current as int,
            total as int,
            dir,
            match armed_edge {
                Some((d, _)) => Some(d),
                None => None,
            },
            match armed_edge {
                Some((_, at)) => within_window(now_ms as int, at as int, window_ms as int),
                None => false,
            },
            has_adjacent_file,
        ),
{
    let (armed_dir, within) = match armed_edge {
        Some((d, at)) => (Some(d), now_ms.saturating_sub(at) <= window_ms),
        None => (None, false),
    };
    hunk_step(current, total, dir, armed_dir, within, has_adjacent_file)
}

// --- hunk header ---------------------------------------------------------------------

/// How much of a hunk already sits in the index.
#[derive(Clone, Copy, Debug, PartialEq, Eq, Structural)]
pub enum HunkStaging {
    Staged,
    Partial,
    Unstaged,
}

/// "1 line" or "N lines".
pub open spec fn lines_word(n: nat) -> Seq<char> {
    if n == 1 {
        "1 line"@
    } else {
        decimal(n) + " lines"@
    }
}

/// The staging annotation behind the line count.
pub open spec fn staging_suffix(s: Option<HunkStaging>) -> Seq<char> {
    match s {
        Some(HunkStaging::Staged) => " · staged"@,
        Some(HunkStaging::Partial) => " · part"@,
        Some(HunkStaging::Unstaged) => " · not staged"@,
        None => seq![],
    }
}

/// The count on a hunk header's right side: "N hidden" while the hunk is
/// collapsed, else its changed-line count with the staging annotation when
/// one is known.
pub fn hunk_count_text(
    collapsed: bool,
    hidden_rows: usize,
    changed_lines: usize,
    staging: Option<HunkStaging>,
) -> (r: String)
    ensures
        r@ == if collapsed {
            decimal(hidden_rows as nat) + " hidden"@
        } else {
            lines_word(changed_lines as nat) + staging_suffix(staging)
        },
{
    let mut s = String::new();
    if collapsed {
        push_decimal(&mut s, hidden_rows as u64);
        push_str(&mut s, " hidden");
        return s;
    }
    if changed_lines == 1 {
        push_str(&mut s, "1 line");
    } else {
        push_decimal(&mut s, changed_lines as u64);
        push_str(&mut s, " lines");
    }
    match staging {
        Some(HunkStaging::Staged) => push_str(&mut s, " · staged"),
        Some(HunkStaging::Partial) => push_str(&mut s, " · part"),
        Some(HunkStaging::Unstaged) => push_str(&mut s, " · not staged"),
        None => {},
    }
    proof {
        reveal_strlit("");
    }
    s
}

/// The collapse toggle of hunk `hunk` (counted from zero): its label, which
/// numbers hunks from one, and its tooltip.
pub fn hunk_toggle_label(collapsed: bool, hunk: usize) -> (r: (String, &'static str))
    requires
        hunk < usize::MAX,
    ensures
        r.0@ == (if collapsed {
            "Expand hunk "@
        } else {
            "Collapse hunk "@
        }) + decimal(hunk as nat + 1),
        r.1@ == if collapsed {
            "Expand this hunk"@
        } else {
            "Collapse this hunk"@
        },
{
    let mut s = string_from(if collapsed {
        "Expand hunk "
    } else {
        "Collapse hunk "
    });
    push_decimal(&mut s, (hunk + 1) as u64);
    (s, if collapsed {
        "Expand this hunk"
    } else {
        "Collapse this hunk"
    })
}

} // verus!
