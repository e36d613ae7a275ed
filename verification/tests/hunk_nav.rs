use turbogit_ui::hunk_nav::{
    adjacent_file_with_hunks, advance_hunk, hunk_count_text, hunk_step, hunk_toggle_label, Dir, HunkStaging, Outcome,
};

/// The edge-nudge window the tests arm against, in milliseconds.
const EDGE_WINDOW: u64 = 1200;

/// A monotonic clock reading, in milliseconds.
fn base() -> u64 {
    5_000
}

#[test]
fn hunk_nav_moves_within_range() {
    let t = base();
    assert_eq!(
        advance_hunk(0, 3, Dir::Next, t, None, EDGE_WINDOW, true),
        Outcome::Moved(1)
    );
    assert_eq!(
        advance_hunk(2, 3, Dir::Prev, t, None, EDGE_WINDOW, true),
        Outcome::Moved(1)
    );
}

#[test]
fn hunk_nav_clamps_stale_selection_inside_range() {
    let t = base();
    assert_eq!(
        advance_hunk(5, 3, Dir::Next, t, None, EDGE_WINDOW, true),
        Outcome::Nudge
    );
    assert_eq!(
        advance_hunk(5, 3, Dir::Prev, t, None, EDGE_WINDOW, true),
        Outcome::Moved(1)
    );
}

#[test]
fn hunk_nav_first_press_at_edge_nudges_only() {
    let t = base();
    assert_eq!(
        advance_hunk(2, 3, Dir::Next, t, None, EDGE_WINDOW, true),
        Outcome::Nudge
    );
    assert_eq!(
        advance_hunk(0, 3, Dir::Prev, t, None, EDGE_WINDOW, true),
        Outcome::Nudge
    );
}

#[test]
fn hunk_nav_edge_nudge_then_cross_file_within_window() {
    let armed_at = base();
    let now = armed_at + EDGE_WINDOW;
    assert_eq!(
        advance_hunk(2, 3, Dir::Next, now, Some((Dir::Next, armed_at)), EDGE_WINDOW, true),
        Outcome::CrossFile
    );
}

#[test]
fn hunk_nav_expired_edge_window_nudges_again() {
    let armed_at = base();
    let now = armed_at + EDGE_WINDOW + 1;
    assert_eq!(
        advance_hunk(2, 3, Dir::Next, now, Some((Dir::Next, armed_at)), EDGE_WINDOW, true),
        Outcome::Nudge
    );
}

#[test]
fn hunk_nav_opposite_direction_does_not_arm_cross_file() {
    let armed_at = base();
    let now = armed_at + EDGE_WINDOW;
    assert_eq!(
        advance_hunk(0, 3, Dir::Prev, now, Some((Dir::Next, armed_at)), EDGE_WINDOW, true),
        Outcome::Nudge
    );
}

#[test]
fn hunk_nav_skips_files_without_hunks() {
    let counts = [2, 0, 1];
    assert_eq!(adjacent_file_with_hunks(&counts, 0, Dir::Next), Some(2));
    assert_eq!(adjacent_file_with_hunks(&counts, 2, Dir::Prev), Some(0));
    assert_eq!(adjacent_file_with_hunks(&[0, 0, 1], 0, Dir::Next), Some(2));
}

#[test]
fn hunk_nav_without_adjacent_file_keeps_nudging() {
    let armed_at = base();
    let now = armed_at + EDGE_WINDOW;
    assert_eq!(
        advance_hunk(1, 2, Dir::Next, now, Some((Dir::Next, armed_at)), EDGE_WINDOW, false),
        Outcome::Nudge
    );
    assert_eq!(adjacent_file_with_hunks(&[1], 0, Dir::Next), None);
    assert_eq!(adjacent_file_with_hunks(&[1], 0, Dir::Prev), None);
}

// --- further cases -----------------------------------------------------------------

#[test]
fn hunk_step_decides_from_plain_inputs() {
    assert_eq!(hunk_step(0, 0, Dir::Next, None, false, true), Outcome::Nudge);
    assert_eq!(hunk_step(1, 2, Dir::Next, Some(Dir::Next), true, true), Outcome::CrossFile);
    assert_eq!(hunk_step(1, 2, Dir::Next, Some(Dir::Next), false, true), Outcome::Nudge);
    assert_eq!(hunk_step(0, 2, Dir::Prev, Some(Dir::Prev), true, true), Outcome::CrossFile);
}

#[test]
fn hunk_header_count_words() {
    assert_eq!(hunk_count_text(true, 12, 3, None), "12 hidden");
    assert_eq!(hunk_count_text(false, 12, 1, None), "1 line");
    assert_eq!(hunk_count_text(false, 0, 4, Some(HunkStaging::Staged)), "4 lines · staged");
    assert_eq!(hunk_count_text(false, 0, 1, Some(HunkStaging::Partial)), "1 line · part");
    assert_eq!(hunk_count_text(false, 0, 0, Some(HunkStaging::Unstaged)), "0 lines · not staged");
}

#[test]
fn hunk_toggle_numbers_from_one() {
    assert_eq!(hunk_toggle_label(true, 0), ("Expand hunk 1".to_string(), "Expand this hunk"));
    assert_eq!(hunk_toggle_label(false, 6), ("Collapse hunk 7".to_string(), "Collapse this hunk"));
}

#[test]
fn armed_press_from_a_later_reading_counts_as_inside() {
    assert_eq!(advance_hunk(2, 3, Dir::Next, 100, Some((Dir::Next, 900)), EDGE_WINDOW, true), Outcome::CrossFile);
    assert_eq!(advance_hunk(2, 3, Dir::Next, 10_000, Some((Dir::Next, 0)), EDGE_WINDOW, true), Outcome::Nudge);
}
