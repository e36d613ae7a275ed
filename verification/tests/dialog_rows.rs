use turbogit_ui::dialogs::{
    local_branch_names, new_branch_base, new_branch_request, rename_prompt, rename_target, tag_label, tag_request,
    tag_target_caption, tag_validation, TagKind,
    cascade_banner_text, commit_row_label, compare_heading, compare_lines, merge_label, rebase_banner_text, rebase_gate, rebase_start, shorten_key,
    target_commitish, RebaseMode,
};
use turbogit_ui::domain::{Branch, BranchKind, Commit};

fn commit(id: &str, message: &str) -> Commit {
    Commit {
        id: id.to_string(),
        parents: vec![],
        author: "ann".to_string(),
        time: 0,
        message: message.to_string(),
    }
}

#[test]
fn commit_row_label_is_short_sha_and_subject() {
    let c = commit("0123456789abcdef", "Fix the parser\r\n\nLong body");
    assert_eq!(commit_row_label(&c), "0123456  Fix the parser");
    assert_eq!(commit_row_label(&commit("abc", "")), "abc  ");
    assert_eq!(commit_row_label(&commit("aébcdefgh", "x")), "aébcde  x");
}

#[test]
fn picked_row_dispatches_its_sha() {
    let c = commit("0123456789abcdef", "Fix the parser");
    assert_eq!(target_commitish(&commit_row_label(&c)), "0123456");
    assert_eq!(target_commitish("   "), "   ");
}

#[test]
fn signing_key_chip_is_cut_at_seventeen() {
    assert_eq!(shorten_key("ABCD EFGH 1234 5678 9999"), "ABCD EFGH 1234 56…");
    assert_eq!(shorten_key("ABCD"), "ABCD");
}

#[test]
fn merge_and_rebase_wording() {
    assert_eq!(merge_label("feature", 3), "Merge feature (3 commits)");
    assert_eq!(merge_label("feature", 0), "Merge feature");
    assert_eq!(cascade_banner_text(1), "⚠ Cascade with 1 other repo after this merge");
    assert_eq!(cascade_banner_text(2), "⚠ Cascade with 2 other repos after this merge");
    assert_eq!(rebase_banner_text(4, 1), "⚠ Rewrites 4 commits across 1 repo");
    assert_eq!(rebase_banner_text(4, 3), "⚠ Rewrites 4 commits across 3 repos");
    assert_eq!(rebase_start(RebaseMode::Interactive, "main"), ("Start interactive rebase", "Interactive rebase".to_string()));
    assert_eq!(rebase_start(RebaseMode::Standard, "main"), ("Start rebase", "Rebase onto main".to_string()));
    assert_eq!(
        rebase_start(RebaseMode::Autosquash, "main"),
        ("Start autosquash rebase", "Autosquash rebase onto main".to_string())
    );
}

#[test]
fn rebase_needs_an_onto_branch_and_an_unprotected_current_branch() {
    assert_eq!(rebase_gate("main", false, Some("dev")), (true, "Pick an onto branch first".to_string()));
    assert_eq!(rebase_gate("  ", false, Some("dev")).0, false);
    assert_eq!(
        rebase_gate("main", true, Some("release")),
        (false, "'release' is a protected branch — rebasing it is not allowed".to_string())
    );
    assert_eq!(rebase_gate("main", true, None).1, "'…' is a protected branch — rebasing it is not allowed");
}

#[test]
fn compare_heading_counts_missing_commits() {
    assert_eq!(compare_heading(3, "feature", "main"), "3 commit(s) in 'feature' missing from 'main'");
    assert_eq!(compare_heading(0, "a", "b"), "0 commit(s) in 'a' missing from 'b'");
}

#[test]
fn compare_lines_take_subjects_from_the_log() {
    let log = vec![
        commit("1111111aaaa", "first"),
        commit("2222222bbbb", "second"),
        commit("1111111aaaa", "later duplicate"),
    ];
    let commits = vec!["1111111aaaa".to_string(), "2222222bbbb".to_string(), "33".to_string()];
    let lines = compare_lines(&commits, &log);
    assert_eq!(lines, vec!["1111111  later duplicate".to_string(), "2222222  second".to_string(), "33".to_string()]);
    assert!(compare_lines(&vec![], &log).is_empty());
    assert_eq!(compare_lines(&commits, &[]), vec!["1111111".to_string(), "2222222".to_string(), "33".to_string()]);
}

fn branch(name: &str, kind: BranchKind) -> Branch {
    Branch {
        name: name.to_string(),
        kind,
        tracking: None,
        favorite: false,
        protected: false,
        exists: true,
        ahead: 0,
        behind: 0,
        gone: false,
        last_touched: None,
        tip: None,
        remote: None,
    }
}

#[test]
fn new_branch_defaults_to_current_base() {
    assert_eq!(new_branch_base("", Some("main")), "main");
    assert_eq!(new_branch_base("", None), "");
    assert_eq!(new_branch_base("dev", Some("main")), "dev");
    let bs = vec![branch("main", BranchKind::Local), branch("origin/main", BranchKind::Remote), branch("dev", BranchKind::Local)];
    assert_eq!(local_branch_names(&bs), vec!["main".to_string(), "dev".to_string()]);
}

#[test]
fn new_branch_blank_base_starts_at_head() {
    assert_eq!(new_branch_request("feat", "  "), ("Create branch feat".to_string(), None));
    assert_eq!(new_branch_request("feat", " dev"), ("Create branch feat".to_string(), Some(" dev".to_string())));
}

#[test]
fn rename_ignores_blank_or_unchanged_names() {
    assert_eq!(rename_prompt("old"), "Rename 'old' to:");
    assert_eq!(rename_target("old", "  new "), Some("new".to_string()));
    assert_eq!(rename_target("old", " old "), None);
    assert_eq!(rename_target("old", "   "), None);
}

#[test]
fn tag_request_drops_annotations_of_lightweight_tags() {
    let r = tag_request(" v1.0 ", "", TagKind::Lightweight, "notes", "Ann <a@b>", true);
    assert_eq!(r.name, "v1.0");
    assert_eq!(r.target, None);
    assert_eq!(r.message, None);
    assert_eq!(r.tagger, None);
    assert!(!r.sign);
}

#[test]
fn tag_request_keeps_annotations_of_annotated_tags() {
    let r = tag_request("v2", "0123456  Fix parser", TagKind::Annotated, " notes\n", "  Ann <a@b> ", true);
    assert_eq!(r.name, "v2");
    assert_eq!(r.target, Some("0123456".to_string()));
    assert_eq!(r.message, Some(" notes\n".to_string()));
    assert_eq!(r.tagger, Some("Ann <a@b>".to_string()));
    assert!(r.sign);
    let blank = tag_request("v3", "", TagKind::Annotated, "  ", " ", false);
    assert_eq!(blank.message, None);
    assert_eq!(blank.tagger, None);
    assert!(!blank.sign);
}

#[test]
fn tag_dialog_texts() {
    assert_eq!(tag_label(" v1 "), "Create tag v1");
    assert_eq!(tag_target_caption("", Some("main")), "HEAD on main");
    assert_eq!(tag_target_caption("", None), "HEAD on …");
    assert_eq!(tag_target_caption("0123456  x", None), "0123456  x");
    assert_eq!(tag_validation(&Ok(())), ("✓ valid".to_string(), true));
    assert_eq!(tag_validation(&Err("already exists".to_string())), ("already exists".to_string(), false));
}
