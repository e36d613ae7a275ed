use turbogit_ui::domain::{Change, ChangeStatus, RootId};
use turbogit_ui::staging::{
    group_header, refocus, unversioned_header,
    apply_actions, RowAction, SelectionState,
    can_commit, do_commit, remember_message, CommitForm,
    active_subtab_files, filter_buckets, has_selected_changes, is_listed, selected_changes,
    staging_buckets, unversioned_buckets, Bucket, CommitSubTab,
};

fn ch(path: &str, status: ChangeStatus, staged: bool, unstaged: bool) -> Change {
    Change { path: path.to_string(), status, staged, unstaged }
}

fn shape(bs: &[Bucket]) -> Vec<(&str, usize, Vec<&str>)> {
    bs.iter()
        .map(|b| (b.name, b.root, b.changes.iter().map(|c| c.path.as_str()).collect()))
        .collect()
}

fn project() -> Vec<Vec<Change>> {
    vec![
        vec![
            ch("src/a.rs", ChangeStatus::Modified, false, true),
            ch("src/b.rs", ChangeStatus::Modified, true, false),
            ch("src/c.rs", ChangeStatus::Modified, true, true),
            ch("notes.txt", ChangeStatus::Unversioned, false, false),
            ch("target", ChangeStatus::Ignored, false, false),
            ch("lib.rs", ChangeStatus::Conflicted, true, true),
        ],
        vec![],
        vec![
            ch("README.md", ChangeStatus::Added, true, false),
            ch("tmp.log", ChangeStatus::Unversioned, false, false),
        ],
    ]
}

#[test]
fn staging_splits_unstaged_staged_and_conflicts_per_repository() {
    let roots = project();
    let out = staging_buckets(&roots);
    assert_eq!(
        shape(&out),
        vec![
            ("UNSTAGED", 0, vec!["src/a.rs", "src/c.rs"]),
            ("STAGED", 0, vec!["src/b.rs"]),
            ("Merge conflicts", 0, vec!["lib.rs"]),
            ("STAGED", 2, vec!["README.md"]),
        ]
    );
}

#[test]
fn unversioned_groups_skip_completed_files() {
    let roots = project();
    let done = vec![(2usize, "tmp.log".to_string())];
    let out = unversioned_buckets(&roots, &done);
    assert_eq!(shape(&out), vec![("Unversioned Files", 0, vec!["notes.txt"])]);
    let all = unversioned_buckets(&roots, &[]);
    assert_eq!(
        shape(&all),
        vec![("Unversioned Files", 0, vec!["notes.txt"]), ("Unversioned Files", 2, vec!["tmp.log"])]
    );
}

#[test]
fn file_filter_narrows_sections_case_insensitively() {
    let roots = project();
    let (out, msg) = filter_buckets(staging_buckets(&roots), "  SRC/ ");
    assert_eq!(
        shape(&out),
        vec![("UNSTAGED", 0, vec!["src/a.rs", "src/c.rs"]), ("STAGED", 0, vec!["src/b.rs"])]
    );
    assert_eq!(msg, "No files match 'SRC/'.");
    let (none, msg) = filter_buckets(staging_buckets(&roots), "zzz");
    assert!(none.is_empty());
    assert_eq!(msg, "No files match 'zzz'.");
}

#[test]
fn blank_file_filter_keeps_everything_without_message() {
    let roots = project();
    let (out, msg) = filter_buckets(staging_buckets(&roots), "   ");
    assert_eq!(out.len(), 4);
    assert_eq!(msg, "");
}

#[test]
fn active_subtab_lists_staging_then_unversioned_paths() {
    let roots = project();
    let files = active_subtab_files(&roots, &[], CommitSubTab::LocalChanges);
    assert_eq!(
        files,
        vec!["src/a.rs", "src/c.rs", "src/b.rs", "lib.rs", "README.md", "notes.txt", "tmp.log"]
    );
    assert!(active_subtab_files(&roots, &[], CommitSubTab::Shelf).is_empty());
    assert!(active_subtab_files(&roots, &[], CommitSubTab::Stash).is_empty());
}

#[test]
fn selection_takes_the_selected_repositorys_included_changes() {
    let roots = project();
    let selected = vec![(0usize, "src/b.rs".to_string()), (2usize, "README.md".to_string()), (0usize, "lib.rs".to_string())];
    let picked = selected_changes(&roots, Some(0), &selected);
    let paths: Vec<&str> = picked.iter().map(|c| c.path.as_str()).collect();
    assert_eq!(paths, vec!["src/b.rs", "lib.rs"]);
    assert!(has_selected_changes(&roots, Some(0), &selected));
    assert!(!has_selected_changes(&roots, Some(1), &selected));
    assert!(selected_changes(&roots, Some(1), &selected).is_empty());
    assert!(!has_selected_changes(&roots, None, &selected));
    assert!(!has_selected_changes(&roots, Some(9), &selected));
    assert!(selected_changes(&roots, Some(9), &selected).is_empty());
}

#[test]
fn keys_are_scoped_to_their_repository() {
    let keys = vec![(1usize, "a.rs".to_string())];
    assert!(is_listed(&keys, 1, "a.rs"));
    assert!(!is_listed(&keys, 0, "a.rs"));
    assert!(!is_listed(&keys, 1, "b.rs"));
}

#[test]
fn commit_button_needs_a_message_and_a_selection() {
    let roots = project();
    let selected = vec![(0usize, "src/b.rs".to_string())];
    assert!(can_commit("Fix it", &roots, Some(0), &selected));
    assert!(!can_commit("   \n", &roots, Some(0), &selected));
    assert!(!can_commit("Fix it", &roots, Some(2), &selected));
}

#[test]
fn recent_messages_keep_twelve_newest_first_without_repeats() {
    let mut recents: Vec<String> = (0..12).map(|i| format!("m{i}")).collect();
    remember_message(&mut recents, "m5");
    assert_eq!(recents.len(), 12);
    assert_eq!(recents[0], "m0");
    remember_message(&mut recents, "new");
    assert_eq!(recents.len(), 12);
    assert_eq!(recents[0], "new");
    assert_eq!(recents[11], "m10");
}

#[test]
fn committing_splits_untouched_from_staged_and_clears_the_form() {
    let roots = project();
    let mut form = CommitForm {
        message: "Ship it".to_string(),
        amend: true,
        recent_messages: vec![],
        selected: vec![(0, "src/a.rs".to_string()), (0, "src/b.rs".to_string()), (0, "src/c.rs".to_string())],
    };
    let job = do_commit(&mut form, &roots, Some(0), true);
    assert_eq!(job.message, "Ship it");
    assert!(job.amend);
    assert!(job.open_push);
    let untouched: Vec<&str> = job.untouched.iter().map(|c| c.path.as_str()).collect();
    let partial: Vec<&str> = job.partial.iter().map(|c| c.path.as_str()).collect();
    assert_eq!(untouched, vec!["src/a.rs"]);
    assert_eq!(partial, vec!["src/b.rs", "src/c.rs"]);
    assert_eq!(form.message, "");
    assert!(form.selected.is_empty());
    assert_eq!(form.recent_messages, vec!["Ship it".to_string()]);
}

#[test]
fn row_interactions_update_the_selection_in_order() {
    let mut st = SelectionState { selected: vec![(0, "a.rs".to_string())], preview: None, expanded: vec![] };
    apply_actions(
        &mut st,
        vec![
            RowAction::Toggle { root: 0, key: "b.rs".to_string(), checked: true },
            RowAction::Toggle { root: 0, key: "a.rs".to_string(), checked: false },
            RowAction::Select { root: 1, key: "c.rs".to_string(), path: "c.rs".to_string() },
            RowAction::ToggleGroup(RootId("/r".to_string())),
        ],
    );
    let mut keys = st.selected.clone();
    keys.sort();
    assert_eq!(keys, vec![(0, "b.rs".to_string()), (1, "c.rs".to_string())]);
    assert_eq!(st.preview.as_deref(), Some("c.rs"));
    assert_eq!(st.expanded, vec![RootId("/r".to_string())]);
    apply_actions(
        &mut st,
        vec![
            RowAction::ToggleGroup(RootId("/r".to_string())),
            RowAction::Preview("d.rs".to_string()),
            RowAction::Toggle { root: 1, key: "c.rs".to_string(), checked: true },
        ],
    );
    assert!(st.expanded.is_empty());
    assert_eq!(st.preview.as_deref(), Some("d.rs"));
    assert_eq!(st.selected.len(), 2);
}

#[test]
fn focus_resets_manual_expansions_when_it_moves() {
    let a = RootId("/a".to_string());
    let b = RootId("/b".to_string());
    let mut focus = Some(a.clone());
    let mut expanded = vec![b.clone()];
    refocus(&mut focus, &mut expanded, &Some(a.clone()));
    assert_eq!(expanded, vec![b.clone()]);
    refocus(&mut focus, &mut expanded, &Some(b.clone()));
    assert_eq!(focus, Some(b.clone()));
    assert!(expanded.is_empty());
}

#[test]
fn group_headers_expand_the_focused_repository() {
    let roots = project();
    let buckets = staging_buckets(&roots);
    let mine: Vec<Bucket> = buckets.iter().filter(|b| b.root == 0).cloned().collect();
    let a = RootId("/w/api".to_string());
    let h = group_header(&a, &Some("main".to_string()), &mine, &Some(a.clone()), &[]);
    assert!(h.focused && h.expanded);
    assert_eq!(h.name, "api");
    assert_eq!(h.branch, "main");
    assert_eq!(h.count, 4);
    let other = group_header(&a, &None, &mine, &None, &[]);
    assert!(!other.focused && !other.expanded);
    assert_eq!(other.branch, "<detached>");
    let opened = group_header(&a, &None, &mine, &None, &[a.clone()]);
    assert!(opened.expanded);
    assert_eq!(unversioned_header(&unversioned_buckets(&roots, &[])), "Unversioned Files (2)");
}
