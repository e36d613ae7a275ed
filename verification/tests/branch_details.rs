use turbogit_ui::branch_tree_view::{bare_tags, tags_to_warm};
use turbogit_ui::branches::{
    detail_actions, scope_chip_label,
    apply_action, checkout_branch, ActionEffect, BranchAction, BranchesUi, CheckoutDecision,
    handle_keys, KeyEffect, ListKeys,
    delete_consequence, fetch_scope, keyboard_locals, relationship_line, unreachable_count_args, RowMeta,
};
use turbogit_ui::branches_tree::build_branch_view;
use turbogit_ui::components::{KitButton, SyncKind};
use turbogit_ui::domain::{Branch, BranchKind, RefState, Root, RootId, RootStatus};
use turbogit_ui::theme::{accent, icon_color, Palette};

fn local(name: &str, touched: Option<i64>) -> Branch {
    Branch {
        name: name.to_string(),
        kind: BranchKind::Local,
        tracking: None,
        favorite: false,
        protected: false,
        exists: true,
        ahead: 0,
        behind: 0,
        gone: false,
        last_touched: touched,
        tip: None,
        remote: None,
    }
}

fn root(id: &str, branches: Vec<Branch>, current: &str) -> Root {
    Root {
        id: RootId(id.to_string()),
        remotes: vec![],
        branches,
        current_branch: Some(current.to_string()),
        head: Some("abc".to_string()),
        status: RootStatus { modified: 0, unversioned: 0, conflicted: 0 },
    }
}

fn project() -> Vec<Root> {
    vec![
        root(
            "/w/alpha",
            vec![local("main", Some(10)), local("feature/x", Some(50)), local("fix", Some(50))],
            "main",
        ),
        root("/w/beta", vec![local("dev", Some(5)), local("old", None)], "dev"),
    ]
}

#[test]
fn keyboard_rows_put_current_branches_first_then_recency_then_names() {
    let roots = project();
    let view = build_branch_view(&roots, &[], &|_: &RootId| false);
    let rows = keyboard_locals(&view, 2, None, "");
    let got: Vec<(&str, &str)> = rows.iter().map(|r| (r.repo, r.branch.name.as_str())).collect();
    assert_eq!(
        got,
        vec![("alpha", "main"), ("beta", "dev"), ("alpha", "feature/x"), ("alpha", "fix"), ("beta", "old")]
    );
    assert_eq!(rows[0].current, Some("main"));
    assert_eq!(rows[1].root, &RootId("/w/beta".to_string()));
}

#[test]
fn keyboard_rows_follow_the_repository_scope_and_search() {
    let roots = project();
    let view = build_branch_view(&roots, &[], &|_: &RootId| false);
    let beta = RootId("/w/beta".to_string());
    let scoped = keyboard_locals(&view, 2, Some(&beta), "");
    let names: Vec<&str> = scoped.iter().map(|r| r.branch.name.as_str()).collect();
    assert_eq!(names, vec!["dev", "old"]);
    let searched = keyboard_locals(&view, 2, None, "fe");
    let names: Vec<&str> = searched.iter().map(|r| r.branch.name.as_str()).collect();
    assert_eq!(names, vec!["feature/x"]);
}

#[test]
fn keyboard_rows_of_a_single_repository_carry_no_repository_name() {
    let roots = vec![root("/w/solo", vec![local("main", Some(1))], "main")];
    let view = build_branch_view(&roots, &[], &|_: &RootId| false);
    let rows = keyboard_locals(&view, 1, None, "");
    assert_eq!(rows.len(), 1);
    assert_eq!(rows[0].repo, "");
}

#[test]
fn relationship_line_joins_sync_and_upstream() {
    let meta = RowMeta {
        stale: false,
        upstream: Some("origin/main".to_string()),
        badge: Some((SyncKind::Ahead, "↑2".to_string())),
    };
    assert_eq!(relationship_line(&meta), "↑2 ahead · tracks origin/main");
    let behind = RowMeta { stale: false, upstream: None, badge: Some((SyncKind::Behind, "↓1".to_string())) };
    assert_eq!(relationship_line(&behind), "↓1 behind");
    let synced = RowMeta {
        stale: true,
        upstream: Some("origin/dev".to_string()),
        badge: Some((SyncKind::InSync, "in sync".to_string())),
    };
    assert_eq!(relationship_line(&synced), "in sync · tracks origin/dev");
    let bare = RowMeta { stale: false, upstream: None, badge: None };
    assert_eq!(relationship_line(&bare), "");
}

#[test]
fn delete_consequence_reads_the_unreachable_count() {
    assert_eq!(
        unreachable_count_args("feature/x"),
        vec!["rev-list".to_string(), "--count".to_string(), "HEAD..feature/x".to_string()]
    );
    assert_eq!(
        delete_consequence(Some("main"), Some("0\n")).as_deref(),
        Some("everything on this branch already exists on main — safe to delete")
    );
    assert_eq!(
        delete_consequence(Some("main"), Some(" 3\n")).as_deref(),
        Some("this branch has 3 commit(s) not on main — they become unreachable after deleting")
    );
    assert_eq!(delete_consequence(Some("main"), Some("fatal: bad revision")), None);
    assert_eq!(delete_consequence(Some("main"), None), None);
    assert_eq!(delete_consequence(None, Some("2")), None);
}

fn remote(name: &str) -> Branch {
    Branch { kind: BranchKind::Remote, remote: Some("origin".to_string()), ..local(name, None) }
}

#[test]
fn fetch_snapshots_each_targets_remote_branches() {
    let mut roots = project();
    roots[0].branches.push(remote("origin/main"));
    roots[0].branches.push(remote("origin/dev"));
    let all = fetch_scope(&roots, None);
    let got: Vec<(&str, Vec<&str>)> =
        all.iter().map(|(id, names)| (id.0.as_str(), names.iter().map(|n| n.as_str()).collect())).collect();
    assert_eq!(got, vec![("/w/alpha", vec!["origin/main", "origin/dev"]), ("/w/beta", vec![])]);
    let beta = RootId("/w/beta".to_string());
    let scoped = fetch_scope(&roots, Some(&beta));
    assert_eq!(scoped.len(), 1);
    assert_eq!(scoped[0].0, beta);
    let unknown = RootId("/w/gone".to_string());
    assert_eq!(fetch_scope(&roots, Some(&unknown)), vec![(unknown.clone(), vec![])]);
}

#[test]
fn tag_warmup_reads_only_uncached_repositories() {
    let roots = vec![RootId("/a".to_string()), RootId("/b".to_string()), RootId("/c".to_string())];
    let cached = vec![(RootId("/b".to_string()), vec![("v1".to_string(), RefState::Pushed)])];
    assert_eq!(tags_to_warm(&roots, &cached), vec![0, 2]);
    assert_eq!(tags_to_warm(&roots, &[]), vec![0, 1, 2]);
    assert_eq!(
        bare_tags(vec!["v1".to_string(), "v2".to_string()]),
        vec![("v1".to_string(), RefState::Default), ("v2".to_string(), RefState::Default)]
    );
}

fn keys(down: bool, up: bool, enter: bool, delete: bool) -> ListKeys {
    ListKeys { down, up, enter, delete }
}

#[test]
fn arrows_walk_the_keyboard_rows_and_stop_at_the_ends() {
    let roots = project();
    let view = build_branch_view(&roots, &[], &|_: &RootId| false);
    let rows = keyboard_locals(&view, 2, None, "");
    let alpha = RootId("/w/alpha".to_string());
    let beta = RootId("/w/beta".to_string());
    let sel = |r: &RootId, b: &str| KeyEffect::Select { root: r.clone(), branch: b.to_string() };
    assert_eq!(handle_keys(false, &rows, &roots, None, None, keys(true, false, false, false)), sel(&alpha, "main"));
    assert_eq!(
        handle_keys(false, &rows, &roots, Some(&alpha), Some("main"), keys(true, false, false, false)),
        sel(&beta, "dev")
    );
    assert_eq!(
        handle_keys(false, &rows, &roots, Some(&beta), Some("old"), keys(true, false, false, false)),
        sel(&beta, "old")
    );
    assert_eq!(
        handle_keys(false, &rows, &roots, Some(&alpha), Some("main"), keys(false, true, false, false)),
        sel(&alpha, "main")
    );
    assert_eq!(
        handle_keys(false, &rows, &roots, Some(&alpha), Some("fix"), keys(false, true, false, false)),
        sel(&alpha, "feature/x")
    );
    assert_eq!(handle_keys(true, &rows, &roots, None, None, keys(true, false, false, false)), KeyEffect::Nothing);
}

#[test]
fn enter_checks_out_and_delete_spares_the_current_branch() {
    let roots = project();
    let view = build_branch_view(&roots, &[], &|_: &RootId| false);
    let rows = keyboard_locals(&view, 2, None, "");
    let alpha = RootId("/w/alpha".to_string());
    match handle_keys(false, &rows, &roots, Some(&alpha), Some("fix"), keys(false, false, true, false)) {
        KeyEffect::Checkout { root, branch } => {
            assert_eq!(root, alpha);
            assert_eq!(branch.name, "fix");
        }
        other => panic!("unexpected {other:?}"),
    }
    match handle_keys(false, &rows, &roots, Some(&alpha), Some("fix"), keys(false, false, false, true)) {
        KeyEffect::AskDelete { branch, .. } => assert_eq!(branch.name, "fix"),
        other => panic!("unexpected {other:?}"),
    }
    assert_eq!(
        handle_keys(false, &rows, &roots, Some(&alpha), Some("main"), keys(false, false, false, true)),
        KeyEffect::Nothing
    );
    assert_eq!(
        handle_keys(false, &rows, &roots, Some(&alpha), Some("nope"), keys(false, false, true, false)),
        KeyEffect::Nothing
    );
}

fn branches_ui() -> BranchesUi {
    BranchesUi {
        selected: Some("fix".to_string()),
        selected_root: None,
        overflow: Some((RootId("/w/alpha".to_string()), "fix".to_string())),
        local_open: true,
        tags_open: true,
        collapsed_remotes: vec![],
        show_remotes: false,
        renaming: None,
        rename_draft: String::new(),
        filter: String::new(),
    }
}

#[test]
fn checkout_refuses_worktrees_asks_when_dirty_and_switches_otherwise() {
    let roots = project();
    let fix = local("fix", Some(50));
    let mut recents = vec!["main".to_string()];
    let wts = vec![("fix".to_string(), "/w/alpha-wt".to_string())];
    assert_eq!(
        checkout_branch(&mut recents, Some(&roots[0]), &wts, &fix),
        CheckoutDecision::InWorktree { branch: "fix".to_string(), worktree: "/w/alpha-wt".to_string() }
    );
    assert_eq!(recents, vec!["main".to_string()]);
    let mut dirty = roots[0].clone();
    dirty.status.modified = 2;
    assert_eq!(
        checkout_branch(&mut recents, Some(&dirty), &[], &fix),
        CheckoutDecision::Dirty { root: RootId("/w/alpha".to_string()), target: "fix".to_string(), kind: BranchKind::Local }
    );
    assert_eq!(
        checkout_branch(&mut recents, Some(&roots[0]), &[], &fix),
        CheckoutDecision::Switch { kind: BranchKind::Local, name: "fix".to_string() }
    );
    assert_eq!(recents, vec!["fix".to_string(), "main".to_string()]);
    assert_eq!(checkout_branch(&mut recents, None, &[], &fix), CheckoutDecision::Nothing);
}

#[test]
fn branch_actions_close_the_menu_and_hand_off_their_work() {
    let roots = project();
    let alpha = RootId("/w/alpha".to_string());
    let fix = local("fix", Some(50));
    let mut recents: Vec<String> = vec![];
    let mut ui = branches_ui();
    assert_eq!(
        apply_action(&mut ui, &mut recents, &alpha, Some(&roots[0]), &[], &fix, BranchAction::Rebase),
        ActionEffect::Rebase { root: alpha.clone(), branch: "fix".to_string(), onto: "main".to_string() }
    );
    assert_eq!(ui.overflow, None);
    assert_eq!(
        apply_action(&mut ui, &mut recents, &alpha, None, &[], &fix, BranchAction::Rebase),
        ActionEffect::Nothing
    );
    assert_eq!(
        apply_action(&mut ui, &mut recents, &alpha, Some(&roots[0]), &[], &fix, BranchAction::Merge),
        ActionEffect::Merge { root: alpha.clone(), branch: "fix".to_string() }
    );
    apply_action(&mut ui, &mut recents, &alpha, Some(&roots[0]), &[], &fix, BranchAction::Rename);
    assert_eq!(ui.renaming.as_deref(), Some("fix"));
    assert_eq!(ui.rename_draft, "fix");
    assert_eq!(ui.selected_root, Some(alpha.clone()));
    assert_eq!(
        apply_action(&mut ui, &mut recents, &alpha, Some(&roots[0]), &[], &fix, BranchAction::Delete),
        ActionEffect::DeleteLocal { name: "fix".to_string() }
    );
    let wts = vec![("fix".to_string(), "/wt".to_string())];
    assert_eq!(
        apply_action(&mut ui, &mut recents, &alpha, Some(&roots[0]), &wts, &fix, BranchAction::Delete),
        ActionEffect::InWorktree { branch: "fix".to_string(), worktree: "/wt".to_string() }
    );
    let upstream = remote("upstream/feature/x");
    assert_eq!(
        apply_action(&mut ui, &mut recents, &alpha, Some(&roots[0]), &[], &upstream, BranchAction::Delete),
        ActionEffect::DeleteRemote { remote: "upstream".to_string(), name: "feature/x".to_string() }
    );
    let bare = remote("orphan");
    assert_eq!(
        apply_action(&mut ui, &mut recents, &alpha, Some(&roots[0]), &[], &bare, BranchAction::Delete),
        ActionEffect::DeleteRemote { remote: "origin".to_string(), name: "orphan".to_string() }
    );
    match apply_action(&mut ui, &mut recents, &alpha, Some(&roots[0]), &[], &fix, BranchAction::Checkout) {
        ActionEffect::Checkout(CheckoutDecision::Switch { name, .. }) => assert_eq!(name, "fix"),
        other => panic!("unexpected {other:?}"),
    }
    assert_eq!(recents, vec!["fix".to_string()]);
}

#[test]
fn detail_actions_follow_the_branch_kind_and_current_branch() {
    let roots = project();
    let acts = detail_actions(&roots[0], &local("fix", None), 2);
    let got: Vec<(BranchAction, &str, KitButton)> = acts.iter().map(|(a, l, k)| (*a, l.as_str(), *k)).collect();
    assert_eq!(
        got,
        vec![
            (BranchAction::Checkout, "Checkout in alpha", KitButton::Primary),
            (BranchAction::Merge, "Merge into main", KitButton::Secondary),
            (BranchAction::Rebase, "Rebase onto main", KitButton::Secondary),
            (BranchAction::Compare, "Compare with main", KitButton::Secondary),
            (BranchAction::Rename, "Rename", KitButton::Quiet),
            (BranchAction::Delete, "Delete", KitButton::Danger),
        ]
    );
    let current = detail_actions(&roots[0], &local("main", None), 1);
    let got: Vec<(BranchAction, &str)> = current.iter().map(|(a, l, _)| (*a, l.as_str())).collect();
    assert_eq!(got, vec![(BranchAction::Checkout, "Checkout"), (BranchAction::Rename, "Rename")]);
    let rem = detail_actions(&roots[0], &remote("origin/x"), 1);
    let got: Vec<BranchAction> = rem.iter().map(|(a, _, _)| *a).collect();
    assert_eq!(got, vec![BranchAction::Checkout, BranchAction::Compare, BranchAction::Delete]);
}

#[test]
fn scope_chip_names_the_scope() {
    let alpha = RootId("/w/alpha".to_string());
    assert_eq!(scope_chip_label(Some(&alpha), 3), ("filtered to alpha".to_string(), Palette::STATE_WARNING));
    assert_eq!(scope_chip_label(None, 3), ("all 3 repos".to_string(), Palette::T_MUTED));
}

#[test]
fn accent_and_icon_tints_are_palette_tokens() {
    assert_eq!(accent(), Palette::BRAND);
    assert_eq!(accent(), 0x3574_f0ff);
    assert_eq!(icon_color(), Palette::INK_2);
}
