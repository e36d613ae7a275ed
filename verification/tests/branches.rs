use turbogit_ui::branches::{
    branch_matches, fuzzy_word, is_stale, list_state, matches_query, ordered_locals, row_meta,
    sync_chips, ListState, STALE_THRESHOLD,
};
use turbogit_ui::components::SyncKind;
use turbogit_ui::domain::{Branch, BranchKind, BranchTip, Root, RootId, RootStatus};

fn branch(name: &str, touched: Option<i64>) -> Branch {
    Branch {
        name: name.to_string(),
        kind: BranchKind::Local,
        tracking: None,
        favorite: false,
        protected: false,
        exists: true,
        ahead: 0,
        behind: 0,
        gone: false,
        last_touched: touched,
        tip: None,
        remote: None,
    }
}

fn names(bs: &[Branch]) -> Vec<&str> {
    bs.iter().map(|b| b.name.as_str()).collect()
}

#[test]
fn ordered_locals_current_first_then_recency_then_name() {
    let locals = vec![
        branch("old", Some(10)),
        branch("b-new", Some(50)),
        branch("a-new", Some(50)),
        branch("main", Some(1)),
        branch("never", None),
    ];
    let ordered = ordered_locals(&locals, Some("main"));
    assert_eq!(names(&ordered), vec!["main", "a-new", "b-new", "old", "never"]);
    let no_current = ordered_locals(&locals, None);
    assert_eq!(names(&no_current), vec!["a-new", "b-new", "old", "main", "never"]);
}

#[test]
fn staleness_past_four_weeks() {
    let now = 10_000_000;
    assert!(is_stale(&branch("x", Some(now - STALE_THRESHOLD - 1)), now));
    assert!(!is_stale(&branch("x", Some(now - STALE_THRESHOLD)), now));
    assert!(!is_stale(&branch("x", None), now));
}

#[test]
fn row_meta_badges_only_tracked_rows() {
    let mut b = branch("feature", Some(0));
    assert_eq!(row_meta(&b, 0).badge, None);
    b.tracking = Some("origin/feature".to_string());
    b.ahead = 2;
    let meta = row_meta(&b, 0);
    assert_eq!(meta.upstream.as_deref(), Some("origin/feature"));
    assert_eq!(meta.badge, Some((SyncKind::Ahead, "↑2".to_string())));
    assert!(!meta.stale);
    b.ahead = 0;
    assert_eq!(row_meta(&b, 0).badge, None);
    b.gone = true;
    assert_eq!(row_meta(&b, 0).badge, Some((SyncKind::Gone, "gone".to_string())));
}

#[test]
fn sync_chips_per_direction() {
    assert_eq!(sync_chips(0, 0, true), vec![(SyncKind::Gone, "gone".to_string())]);
    assert_eq!(
        sync_chips(3, 1, false),
        vec![(SyncKind::Ahead, "3".to_string()), (SyncKind::Behind, "1".to_string())]
    );
    assert!(sync_chips(0, 0, false).is_empty());
}

#[test]
fn fuzzy_search_is_case_insensitive_subsequence() {
    assert!(fuzzy_word("multi-root-executor", "mre"));
    assert!(fuzzy_word("Multi-Root", "MR"));
    assert!(!fuzzy_word("main", "mx"));
    assert!(fuzzy_word("anything", "   "));
    assert!(matches_query("feature/login-form", "feat login"));
    assert!(!matches_query("feature/login-form", "feat zebra"));
    assert!(matches_query("x", "  "));
}

#[test]
fn branch_matches_name_or_tip_message() {
    let mut b = branch("topic", None);
    assert!(!branch_matches(&b, "cache"));
    b.tip = Some(BranchTip {
        short_hash: "abc1234".to_string(),
        message: "Add cache layer".to_string(),
        author: "me".to_string(),
        time: 0,
    });
    assert!(branch_matches(&b, "cache"));
    assert!(branch_matches(&b, "tpc"));
}

#[test]
fn list_state_reading_empty_populated() {
    let mut root = Root {
        id: RootId("/r".to_string()),
        remotes: vec![],
        branches: vec![],
        current_branch: None,
        head: None,
        status: RootStatus::default(),
    };
    assert_eq!(list_state(&root, true), ListState::Reading);
    assert_eq!(list_state(&root, false), ListState::Empty);
    root.head = Some("abc".to_string());
    assert_eq!(list_state(&root, true), ListState::Populated);
}

#[test]
fn query_word_order_and_repeats_do_not_matter() {
    for h in ["feature/multi-root", "main", "fix/parser"] {
        assert_eq!(matches_query(h, "feat root"), matches_query(h, "  root feat root "));
        assert_eq!(matches_query(h, "fix"), matches_query(h, "fix fix"));
    }
    assert!(matches_query("anything", "   "));
}
