use turbogit_ui::blame_view;
use turbogit_ui::bulk_monitor::first_line;
use turbogit_ui::cherry_across::{self, split_patch, subject};
use turbogit_ui::conflict_resolver::{
    compose, next_unresolved, CHOICE_BOTH_OURS_FIRST, CHOICE_BOTH_THEIRS_FIRST, CHOICE_OURS,
    CHOICE_THEIRS,
};
use turbogit_ui::dialogs::{shorten_key, target_commitish};
use turbogit_ui::interactive_rebase::{verb, RebaseAction};
use turbogit_ui::log_window::{self, truncate};

#[test]
fn subjects_and_first_lines() {
    assert_eq!(subject("Fix the build\n\nLonger body"), "Fix the build");
    assert_eq!(subject(""), "");
    assert_eq!(first_line("step failed\r\nmore"), "step failed");
    assert_eq!(first_line("single"), "single");
}

#[test]
fn short_ids_take_seven_characters() {
    assert_eq!(cherry_across::short("0123456789abcdef"), "0123456");
    assert_eq!(log_window::short("abc"), "abc");
    assert_eq!(blame_view::short("éééééééé"), "ééééééé");
    assert_eq!(truncate("héllo wörld", 4), "héll");
}

#[test]
fn split_patch_sections_count_hunks() {
    let patch = "preamble\n\
                 diff --git a/src/a.rs b/src/a.rs\n\
                 @@ -1 +1 @@\n\
                 -x\n\
                 +y\n\
                 @@ -5 +5 @@\n\
                 diff --git a/old b/new\n\
                 rename from old\n";
    let files = split_patch(patch);
    assert_eq!(files.len(), 2);
    assert_eq!(files[0].path, "src/a.rs");
    assert_eq!(files[0].hunks, 2);
    assert_eq!(
        files[0].body,
        "diff --git a/src/a.rs b/src/a.rs\n@@ -1 +1 @@\n-x\n+y\n@@ -5 +5 @@\n"
    );
    assert_eq!(files[1].path, "new");
    assert_eq!(files[1].hunks, 0);
    assert_eq!(files[1].body, "diff --git a/old b/new\nrename from old\n");
    let odd = split_patch("diff --git weird\n");
    assert_eq!(odd[0].path, "weird");
}

#[test]
fn dialog_text_rules() {
    assert_eq!(target_commitish("abc1234  Fix the build"), "abc1234");
    assert_eq!(target_commitish("   "), "   ");
    assert_eq!(shorten_key("0123456789ABCDEF0123"), "0123456789ABCDEF0…");
    assert_eq!(shorten_key("ABCD"), "ABCD");
}

fn segs() -> Vec<(String, String, bool)> {
    vec![
        ("head\n".to_string(), String::new(), false),
        ("ours1\n".to_string(), "theirs1\n".to_string(), true),
        ("mid\n".to_string(), String::new(), false),
        ("ours2\n".to_string(), "theirs2\n".to_string(), true),
    ]
}

#[test]
fn compose_applies_each_choice() {
    let s = segs();
    assert_eq!(compose(&s, &[]), "head\nours1\nmid\nours2\n");
    assert_eq!(
        compose(&s, &[Some(CHOICE_THEIRS), Some(CHOICE_OURS)]),
        "head\ntheirs1\nmid\nours2\n"
    );
    assert_eq!(
        compose(&s, &[Some(CHOICE_BOTH_OURS_FIRST), Some(CHOICE_BOTH_THEIRS_FIRST)]),
        "head\nours1\ntheirs1\nmid\ntheirs2\nours2\n"
    );
    assert_eq!(compose(&s, &[None, Some(9)]), "head\nours1\nmid\nours2\n");
}

#[test]
fn cursor_advances_to_next_unresolved_wrapping() {
    assert_eq!(next_unresolved(&[None, Some(0), None], 0), 2);
    assert_eq!(next_unresolved(&[None, Some(0), None], 2), 0);
    assert_eq!(next_unresolved(&[Some(0), None, Some(1)], 1), 1);
    assert_eq!(next_unresolved(&[Some(0), Some(1)], 1), 1);
    assert_eq!(next_unresolved(&[Some(0), Some(1)], 7), 7);
    assert_eq!(next_unresolved(&[], 3), 3);
    assert_eq!(next_unresolved(&[None, None], 9), 0);
}

#[test]
fn rebase_verbs() {
    assert_eq!(verb(&RebaseAction::Pick), "pick");
    assert_eq!(verb(&RebaseAction::Fixup), "fixup");
    assert_eq!(verb(&RebaseAction::Edit), "edit");
}
