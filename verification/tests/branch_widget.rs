use std::time::Duration;

use turbogit_ui::branch_widget::{
    entry_exists, popup_keys, PopupAction, PopupKeys,
    delete_gate, popup_entries, push_recent, remote_marker, rename_gate, row_actions, stale_badge,
    sync_notice, PopupEntry, RowActions,
};
use turbogit_ui::domain::{Branch, BranchKind};

fn local(name: &str, favorite: bool) -> Branch {
    Branch {
        name: name.to_string(),
        kind: BranchKind::Local,
        tracking: None,
        favorite,
        protected: false,
        exists: true,
        ahead: 0,
        behind: 0,
        gone: false,
        last_touched: None,
        tip: None,
        remote: None,
    }
}

fn remote(name: &str) -> Branch {
    Branch {
        kind: BranchKind::Remote,
        ..local(name, false)
    }
}

fn labels(entries: &[PopupEntry]) -> Vec<String> {
    entries.iter().map(|e| format!("{}:{}", e.section(), e.label())).collect()
}

#[test]
fn popup_groups_recent_local_remote_tags_in_order() {
    let mut followed = local("feature", false);
    followed.tracking = Some("origin/feature".to_string());
    followed.ahead = 2;
    let mut gone = local("stale-work", false);
    gone.tracking = Some("origin/stale-work".to_string());
    gone.gone = true;
    let locals = vec![
        local("main", false),
        local("zeta", true),
        followed,
        gone,
        local("alpha", false),
    ];
    let remotes = vec![remote("main"), remote("feature")];
    let tags = vec!["v2".to_string(), "v1".to_string()];
    let recents = vec!["alpha".to_string(), "main".to_string(), "zeta".to_string()];
    let entries = popup_entries(&locals, &remotes, &tags, &recents, Some("main"), "");
    assert_eq!(
        labels(&entries),
        vec![
            "RECENT:zeta",
            "RECENT:alpha",
            "LOCAL:zeta",
            "LOCAL:alpha",
            "LOCAL:feature",
            "LOCAL:stale-work",
            "REMOTE:origin/feature",
            "REMOTE:origin/main",
            "REMOTE:origin/stale-work",
            "TAGS:v1",
            "TAGS:v2",
        ]
    );
    match &entries[6] {
        PopupEntry::Remote { ahead, .. } => assert_eq!(*ahead, 2),
        other => panic!("unexpected {other:?}"),
    }
    match &entries[8] {
        PopupEntry::Remote { gone, .. } => assert!(*gone),
        other => panic!("unexpected {other:?}"),
    }
}

#[test]
fn popup_filter_is_case_insensitive_on_the_label() {
    let locals = vec![local("Feature-X", false), local("main", false)];
    let remotes = vec![remote("feature-x")];
    let entries = popup_entries(&locals, &remotes, &[], &[], None, "FEAT");
    assert_eq!(labels(&entries), vec!["LOCAL:Feature-X", "REMOTE:origin/feature-x"]);
    let by_prefix = popup_entries(&locals, &remotes, &[], &[], None, "origin/");
    assert_eq!(labels(&by_prefix), vec!["REMOTE:origin/feature-x"]);
}

#[test]
fn push_recent_dedups_newest_first_capped_at_five() {
    let mut r: Vec<String> = ["a", "b", "c", "d", "e"].iter().map(|s| s.to_string()).collect();
    push_recent(&mut r, "c");
    assert_eq!(r, vec!["c", "a", "b", "d", "e"]);
    push_recent(&mut r, "f");
    assert_eq!(r, vec!["f", "c", "a", "b", "d"]);
    let mut empty: Vec<String> = Vec::new();
    push_recent(&mut empty, "x");
    assert_eq!(empty, vec!["x"]);
}

#[test]
fn notices_and_markers() {
    assert_eq!(sync_notice(3), "Synchronous branch operations across 3 repositories");
    assert_eq!(remote_marker(0, 0, true).as_deref(), Some("gone"));
    assert_eq!(remote_marker(2, 1, false).as_deref(), Some("↑2 ↓1"));
    assert_eq!(remote_marker(0, 0, false), None);
}

#[test]
fn stale_badge_units() {
    assert_eq!(stale_badge(Duration::from_secs(59)), "now");
    assert_eq!(stale_badge(Duration::from_secs(125)), "2m");
    assert_eq!(stale_badge(Duration::from_secs(7_200)), "2h");
    assert_eq!(stale_badge(Duration::from_secs(3 * 86_400)), "3d");
    assert_eq!(stale_badge(Duration::from_secs(21 * 86_400)), "3w");
    assert_eq!(stale_badge(Duration::from_secs(60 * 86_400)), "2mo");
    assert_eq!(stale_badge(Duration::from_secs(800 * 86_400)), "2y");
}

#[test]
fn row_action_gates() {
    let local_row = PopupEntry::Local {
        name: "feature".to_string(),
        favorite: false,
        ahead: 0,
        behind: 0,
        gone: false,
        last_touched: None,
    };
    let tag = PopupEntry::Tag { name: "v1".to_string() };
    let remote_row = PopupEntry::Remote {
        name: "feature".to_string(),
        ahead: 0,
        behind: 0,
        gone: false,
        last_touched: None,
    };
    assert_eq!(
        row_actions(&local_row, Some("main"), false, true),
        RowActions { delete: true, rename: true, protected: false }
    );
    assert_eq!(
        row_actions(&local_row, Some("feature"), false, true),
        RowActions { delete: false, rename: false, protected: false }
    );
    assert_eq!(delete_gate(&local_row, Some("feature"), false, true), Some("check out another branch first"));
    assert_eq!(delete_gate(&local_row, None, true, true), Some("protected branches cannot be deleted"));
    assert_eq!(delete_gate(&local_row, None, false, false), Some("this branch no longer exists"));
    assert_eq!(delete_gate(&tag, None, false, true), Some("tags are not deleted from here"));
    assert_eq!(delete_gate(&local_row, None, false, true), None);
    assert_eq!(rename_gate(&remote_row, None, false, true), Some("remote branches cannot be renamed"));
    assert_eq!(rename_gate(&tag, None, false, true), Some("tags cannot be renamed"));
    assert_eq!(rename_gate(&local_row, None, false, false), Some("this branch no longer exists"));
    assert_eq!(
        rename_gate(&local_row, Some("feature"), false, true),
        Some("the current branch cannot be renamed from here")
    );
}

fn keys(escape: bool, up: bool, down: bool, enter: bool) -> PopupKeys {
    PopupKeys { escape, up, down, enter }
}

#[test]
fn popup_keyboard_moves_within_the_list() {
    assert_eq!(popup_keys(false, 2, keys(true, false, false, true), 5), (false, 2, PopupAction::Nothing));
    assert_eq!(popup_keys(true, 2, keys(true, false, true, true), 5), (false, 2, PopupAction::Close));
    assert_eq!(popup_keys(true, 2, keys(false, false, true, false), 5), (true, 3, PopupAction::Nothing));
    assert_eq!(popup_keys(true, 4, keys(false, false, true, false), 5), (true, 4, PopupAction::Nothing));
    assert_eq!(popup_keys(true, 0, keys(false, true, false, false), 5), (true, 0, PopupAction::Nothing));
    assert_eq!(popup_keys(true, 9, keys(false, false, false, false), 5), (true, 4, PopupAction::Nothing));
    assert_eq!(popup_keys(true, 1, keys(false, false, false, true), 5), (false, 1, PopupAction::Checkout(1)));
    assert_eq!(popup_keys(true, 3, keys(false, false, false, true), 0), (true, 0, PopupAction::Nothing));
}

#[test]
fn entry_exists_for_listed_locals_and_all_remotes() {
    let locals = vec![local("main", false)];
    assert!(entry_exists(
        &PopupEntry::Local { name: "main".to_string(), favorite: false, ahead: 0, behind: 0, gone: false, last_touched: None },
        &locals
    ));
    assert!(!entry_exists(
        &PopupEntry::Recent { name: "gone".to_string(), favorite: false, ahead: 0, behind: 0, gone: false, last_touched: None },
        &locals
    ));
    assert!(entry_exists(&PopupEntry::Tag { name: "v1".to_string() }, &[]));
}

#[test]
fn stale_badge_grows_with_age() {
    let rank = |s: &str| ["now", "m", "h", "d", "w", "mo", "y"]
        .iter()
        .position(|u| s.trim_start_matches(|c: char| c.is_ascii_digit()) == *u)
        .unwrap();
    let num = |s: &str| s.trim_end_matches(|c: char| c.is_ascii_alphabetic()).parse::<u64>().unwrap_or(0);
    let mut prev = (0usize, 0u64);
    for secs in (0u64..40_000_000).step_by(997) {
        let b = stale_badge(Duration::from_secs(secs));
        let cur = (rank(&b), num(&b));
        assert!(cur >= prev, "{secs}: {b}");
        prev = cur;
    }
}
