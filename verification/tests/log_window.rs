use turbogit_ui::domain::{Change, ChangeStatus, Commit, RootId};
use turbogit_ui::log_window::{
    change_summary, committer_line, detail_guards, person_line, status_counts, SignatureState,
    assign_colors, commits_for, find_commit, short, truncate, visible_commits, visible_root_ids,
};

fn commit(id: &str, parents: &[&str], author: &str, time: i64, message: &str) -> Commit {
    Commit {
        id: id.to_string(),
        parents: parents.iter().map(|p| p.to_string()).collect(),
        author: author.to_string(),
        time,
        message: message.to_string(),
    }
}

fn ids(cs: &[Commit]) -> Vec<&str> {
    cs.iter().map(|c| c.id.as_str()).collect()
}

#[test]
fn log_listing_is_newest_first_with_ties_by_id() {
    let listed = vec![
        commit("a1", &[], "ann", 1, "first"),
        commit("c3", &[], "bob", 3, "third"),
        commit("b3", &[], "cyd", 3, "also third"),
    ];
    let out = visible_commits(listed, "", &[], false);
    assert_eq!(ids(&out), vec!["b3", "c3", "a1"]);
}

#[test]
fn log_filter_matches_message_id_or_author_case_insensitively() {
    let listed = vec![
        commit("aaa", &[], "Ann", 5, "Fix the parser"),
        commit("bbb", &[], "Bob", 4, "add docs"),
        commit("fix9", &[], "Cyd", 3, "tidy"),
        commit("ddd", &[], "FIXER", 2, "other"),
    ];
    let out = visible_commits(listed, "FiX", &[], false);
    assert_eq!(ids(&out), vec!["aaa", "fix9", "ddd"]);
}

#[test]
fn log_filter_adds_code_change_hits_once_and_resorts() {
    let listed = vec![
        commit("aaa", &[], "ann", 5, "fix parser"),
        commit("bbb", &[], "bob", 4, "docs"),
    ];
    let hits = vec![
        commit("bbb", &[], "bob", 4, "docs"),
        commit("aaa", &[], "ann", 5, "fix parser"),
        commit("ccc", &[], "cyd", 9, "refactor"),
    ];
    let out = visible_commits(listed, "fix", &hits, false);
    assert_eq!(ids(&out), vec!["ccc", "aaa", "bbb"]);
}

#[test]
fn log_path_scope_ignores_code_change_hits() {
    let listed = vec![
        commit("aaa", &[], "ann", 5, "fix parser"),
        commit("bbb", &[], "bob", 4, "docs"),
    ];
    let hits = vec![commit("ccc", &[], "cyd", 9, "refactor")];
    let out = visible_commits(listed, "fix", &hits, true);
    assert_eq!(ids(&out), vec!["aaa"]);
}

#[test]
fn lane_colors_follow_the_graph_walk() {
    let commits = vec![
        commit("c3", &["c2", "b1"], "ann", 4, "merge"),
        commit("c2", &["c1"], "ann", 3, "main work"),
        commit("b1", &["c1"], "bob", 2, "side work"),
        commit("c1", &[], "ann", 1, "root"),
    ];
    let colors = assign_colors(&commits);
    let got: Vec<(&str, usize)> = colors.iter().map(|(id, c)| (id.as_str(), *c)).collect();
    assert_eq!(got, vec![("c3", 0), ("b1", 1), ("c2", 0), ("c1", 0)]);
}

#[test]
fn lane_colors_give_unrelated_roots_fresh_colors() {
    let commits = vec![commit("a", &[], "ann", 2, "one"), commit("b", &[], "bob", 1, "two")];
    let colors = assign_colors(&commits);
    let got: Vec<(&str, usize)> = colors.iter().map(|(id, c)| (id.as_str(), *c)).collect();
    assert_eq!(got, vec![("a", 0), ("b", 1)]);
}

#[test]
fn lane_colors_of_an_empty_log_are_empty() {
    assert!(assign_colors(&[]).is_empty());
}

#[test]
fn log_short_and_truncate_count_characters() {
    assert_eq!(short("0123456789abcdef"), "0123456");
    assert_eq!(short("abc"), "abc");
    assert_eq!(truncate("héllo wörld", 7), "héllo w");
}

#[test]
fn scoped_listings_take_precedence_over_the_log() {
    let alpha = RootId("/a".to_string());
    let beta = RootId("/b".to_string());
    let scoped = vec![commit("r1", &[], "ann", 3, "ref work")];
    let path = vec![commit("p1", &[], "ann", 2, "path work")];
    let log = vec![commit("l1", &[], "ann", 1, "all"), commit("l2", &[], "bob", 0, "more")];
    assert_eq!(ids(&commits_for(&alpha, Some((&alpha, scoped.as_slice())), Some(path.as_slice()), Some(log.as_slice()))), vec!["r1"]);
    assert!(commits_for(&beta, Some((&alpha, scoped.as_slice())), Some(path.as_slice()), Some(log.as_slice())).is_empty());
    assert_eq!(ids(&commits_for(&alpha, None, Some(path.as_slice()), Some(log.as_slice()))), vec!["p1"]);
    assert_eq!(ids(&commits_for(&alpha, None, None, Some(log.as_slice()))), vec!["l1", "l2"]);
    assert!(commits_for(&alpha, None, None, None).is_empty());
}

#[test]
fn finding_a_commit_follows_the_same_precedence() {
    let scoped = vec![commit("r1", &[], "ann", 3, "ref work")];
    let log = vec![commit("l1", &[], "ann", 1, "all"), commit("l2", &[], "bob", 0, "more")];
    assert_eq!(find_commit(None, None, Some(log.as_slice()), "l2").map(|c| c.author), Some("bob".to_string()));
    assert_eq!(find_commit(Some(scoped.as_slice()), None, Some(log.as_slice()), "l2"), None);
    assert_eq!(find_commit(Some(scoped.as_slice()), None, Some(log.as_slice()), "r1").map(|c| c.id), Some("r1".to_string()));
    assert_eq!(find_commit(None, None, None, "l1"), None);
}

#[test]
fn roots_filter_picks_the_visible_repositories() {
    let roots = vec![RootId("/a".to_string()), RootId("/b".to_string())];
    assert_eq!(visible_root_ids(&roots, None), roots);
    let b = RootId("/b".to_string());
    assert_eq!(visible_root_ids(&roots, Some(&b)), vec![b.clone()]);
}

#[test]
fn details_pane_people_and_summary() {
    assert_eq!(person_line("Ann", "ann@x"), "Ann <ann@x>");
    assert_eq!(committer_line("Ann", "ann@x", SignatureState::Unsigned), "Ann <ann@x>");
    assert_eq!(committer_line("Ann", "ann@x", SignatureState::Good), "Ann <ann@x> · signed ✓");
    assert_eq!(committer_line("Ann", "ann@x", SignatureState::Bad), "Ann <ann@x> · signature BAD");
    assert_eq!(committer_line("Ann", "ann@x", SignatureState::Unverified), "Ann <ann@x> · signed (unverified)");
    assert_eq!(change_summary(2, 1, 0), "2 modified · 1 added");
    assert_eq!(change_summary(0, 0, 3), "3 deleted");
    assert_eq!(change_summary(0, 0, 0), "");
    let files = vec![
        Change { path: "a".to_string(), status: ChangeStatus::Modified, staged: false, unstaged: true },
        Change { path: "b".to_string(), status: ChangeStatus::Added, staged: true, unstaged: false },
        Change { path: "c".to_string(), status: ChangeStatus::Modified, staged: false, unstaged: true },
        Change { path: "d".to_string(), status: ChangeStatus::Renamed, staged: false, unstaged: true },
    ];
    assert_eq!(status_counts(&files), (2, 1, 0));
}

#[test]
fn details_pane_guards() {
    let g = detail_guards(false, None);
    assert!(g.cherry_pick && g.revert && g.reasons.is_empty());
    let g = detail_guards(true, Some("main"));
    assert!(!g.cherry_pick && !g.revert);
    assert_eq!(
        g.reasons,
        "'main' is a protected branch — revert blocked · working tree is dirty — cherry-pick and revert blocked"
    );
    let g = detail_guards(false, Some("main"));
    assert!(g.cherry_pick && !g.revert);
}
