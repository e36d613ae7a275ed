use turbogit_ui::branch_tree_view::{
    fetched_hint, filter_nodes, header_summary, keyboard_order, ref_state_marker, remote_collapsed,
    remotes_revealed, section_match_count, LocalRow, TreeState,
};
use turbogit_ui::branches_tree::{repo_section, BranchNode};
use turbogit_ui::domain::{Branch, BranchKind, BranchTip, RefState, Root, RootId, RootStatus};
use turbogit_ui::theme::Palette;

fn local(name: &str, touched: Option<i64>) -> Branch {
    Branch {
        name: name.to_string(),
        kind: BranchKind::Local,
        tracking: None,
        favorite: false,
        protected: false,
        exists: true,
        ahead: 0,
        behind: 0,
        gone: false,
        last_touched: touched,
        tip: None,
        remote: None,
    }
}

fn root(branches: Vec<Branch>) -> Root {
    Root {
        id: RootId("/repo".to_string()),
        remotes: vec!["origin".to_string()],
        branches,
        current_branch: Some("main".to_string()),
        head: Some("abc".to_string()),
        status: RootStatus::default(),
    }
}

fn leaf_names(nodes: &[BranchNode]) -> Vec<String> {
    let mut out = Vec::new();
    for n in nodes {
        match n {
            BranchNode::Leaf(l) => out.push(l.label.clone()),
            BranchNode::Dir(d) => {
                out.push(format!("{}/{}", d.label, d.count));
                out.extend(leaf_names(&d.children));
            }
        }
    }
    out
}

#[test]
fn filter_keeps_structure_and_recounts_directories() {
    let mut tipped = local("feature/b", None);
    tipped.tip = Some(BranchTip {
        short_hash: "1".to_string(),
        message: "login form".to_string(),
        author: "x".to_string(),
        time: 0,
    });
    let section = repo_section(
        &root(vec![
            local("main", None),
            local("feature/a", None),
            tipped,
            local("feature/login", None),
        ]),
        &[],
        false,
    );
    let all = filter_nodes(&section.locals, "  ");
    assert_eq!(leaf_names(&all), leaf_names(&section.locals));
    let kept = filter_nodes(&section.locals, "login");
    assert_eq!(leaf_names(&kept), vec!["feature/2", "b", "login"]);
    assert!(filter_nodes(&section.locals, "zzz").is_empty());
}

#[test]
fn match_count_adds_locals_remotes_and_tags() {
    let mut r = local("origin/login", None);
    r.kind = BranchKind::Remote;
    r.remote = Some("origin".to_string());
    let section = repo_section(
        &root(vec![local("main", None), local("login", None), r]),
        &[(
            RootId("/repo".to_string()),
            vec![("login-v1".to_string(), RefState::Pushed), ("v2".to_string(), RefState::Default)],
        )],
        true,
    );
    assert_eq!(section_match_count(&section, "login", true), 3);
    assert_eq!(section_match_count(&section, "login", false), 2);
    assert_eq!(section_match_count(&section, "", true), 5);
}

#[test]
fn header_summary_words() {
    let mut b = local("main", None);
    b.ahead = 2;
    let section = repo_section(&root(vec![b]), &[], false);
    assert_eq!(header_summary(&section), "↑2 · unpushed commits");
    let clean = repo_section(&root(vec![local("main", None)]), &[], false);
    assert_eq!(header_summary(&clean), "in sync · in sync");
}

#[test]
fn ref_state_markers() {
    assert_eq!(ref_state_marker(RefState::Default), None);
    assert_eq!(ref_state_marker(RefState::Gone), Some(("gone", Palette::STATE_ERROR)));
    assert_eq!(ref_state_marker(RefState::Pushed), Some(("pushed", Palette::STATE_SUCCESS)));
    assert_eq!(
        ref_state_marker(RefState::LocalOnly),
        Some(("local only", Palette::STATE_WARNING))
    );
}

#[test]
fn reveal_and_collapse_rules() {
    let a = RootId("/a".to_string());
    let b = RootId("/b".to_string());
    let tree = TreeState {
        show_remotes: false,
        remotes_revealed: vec![a.clone()],
        collapsed_remotes: vec![(a.clone(), "origin".to_string())],
    };
    assert!(remotes_revealed(&tree, &a));
    assert!(!remotes_revealed(&tree, &b));
    let forced = TreeState {
        show_remotes: true,
        remotes_revealed: vec![],
        collapsed_remotes: vec![],
    };
    assert!(remotes_revealed(&forced, &b));
    assert!(remote_collapsed(&tree, false, &a, "origin"));
    assert!(!remote_collapsed(&tree, true, &a, "origin"));
    assert!(!remote_collapsed(&tree, false, &a, "upstream"));
    assert!(remote_collapsed(&tree, true, &b, "origin"));
}

#[test]
fn keyboard_order_current_then_recent_then_repo_then_name() {
    let ra = RootId("/a".to_string());
    let rb = RootId("/b".to_string());
    let main_a = local("main", Some(1));
    let x_a = local("x", Some(50));
    let y_b = local("y", Some(50));
    let old_b = local("old", None);
    let main_b = local("main", Some(0));
    let mut rows = vec![
        LocalRow { root: &rb, branch: &old_b, current: Some("main"), repo: "beta" },
        LocalRow { root: &ra, branch: &x_a, current: Some("main"), repo: "alpha" },
        LocalRow { root: &rb, branch: &y_b, current: Some("main"), repo: "beta" },
        LocalRow { root: &ra, branch: &main_a, current: Some("main"), repo: "alpha" },
        LocalRow { root: &rb, branch: &main_b, current: Some("main"), repo: "beta" },
    ];
    keyboard_order(&mut rows);
    let got: Vec<(String, String)> = rows
        .iter()
        .map(|r| (r.repo.to_string(), r.branch.name.clone()))
        .collect();
    let want: Vec<(String, String)> = [
        ("alpha", "main"),
        ("beta", "main"),
        ("alpha", "x"),
        ("beta", "y"),
        ("beta", "old"),
    ]
    .iter()
    .map(|(a, b)| (a.to_string(), b.to_string()))
    .collect();
    assert_eq!(got, want);
}

#[test]
fn fetched_hint_ages_the_last_fetch() {
    assert_eq!(fetched_hint(1_000, 1_000), "fetched now");
    assert_eq!(fetched_hint(1_000 + 5 * 60, 1_000), "fetched 5m");
    assert_eq!(fetched_hint(1_000 + 3 * 3600, 1_000), "fetched 3h");
    assert_eq!(fetched_hint(1_000, 2_000), "fetched now");
}
