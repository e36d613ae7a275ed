use turbogit_ui::branch_tree_view::{toggle_collapsed, TreeEvent, TreeGroup};
use turbogit_ui::branches::{apply_tree_event, BranchesUi, TreeEffect};
use turbogit_ui::domain::RootId;
use turbogit_ui::log_window::{apply_log_tree_event, LogTreeUi};

fn rid(s: &str) -> RootId {
    RootId(s.to_string())
}

fn fresh() -> BranchesUi {
    BranchesUi {
        selected: None,
        selected_root: None,
        overflow: Some((rid("/a"), "x".to_string())),
        local_open: true,
        tags_open: false,
        collapsed_remotes: vec![],
        show_remotes: false,
        renaming: None,
        rename_draft: String::new(),
        filter: "fe".to_string(),
    }
}

#[test]
fn clicking_a_row_selects_it_and_clicking_again_clears() {
    let mut ui = fresh();
    let click = || TreeEvent::RowClicked { root: rid("/a"), branch: "main".to_string() };
    assert_eq!(apply_tree_event(&mut ui, click()), TreeEffect::Nothing);
    assert_eq!(ui.selected.as_deref(), Some("main"));
    assert_eq!(ui.selected_root, Some(rid("/a")));
    assert_eq!(ui.overflow, None);
    apply_tree_event(&mut ui, click());
    assert_eq!(ui.selected, None);
    assert_eq!(ui.selected_root, None);
}

#[test]
fn tree_events_hand_work_to_the_application() {
    let mut ui = fresh();
    assert_eq!(
        apply_tree_event(&mut ui, TreeEvent::RowActivated { root: rid("/a"), branch: "dev".to_string() }),
        TreeEffect::Checkout { root: rid("/a"), branch: "dev".to_string() }
    );
    assert_eq!(apply_tree_event(&mut ui, TreeEvent::FetchRequested { root: rid("/a") }), TreeEffect::Fetch);
    assert_eq!(
        apply_tree_event(&mut ui, TreeEvent::CreateBranchRequested { name: "feat".to_string() }),
        TreeEffect::NewBranch { name: "feat".to_string() }
    );
    apply_tree_event(&mut ui, TreeEvent::ClearFilterRequested);
    assert_eq!(ui.filter, "");
}

#[test]
fn toggles_flip_groups_menus_and_remote_collapse() {
    let mut ui = fresh();
    apply_tree_event(&mut ui, TreeEvent::GroupToggled(TreeGroup::Tags));
    assert!(ui.tags_open && ui.local_open);
    apply_tree_event(&mut ui, TreeEvent::OverflowToggled { root: rid("/a"), branch: "x".to_string() });
    assert_eq!(ui.overflow, None);
    apply_tree_event(&mut ui, TreeEvent::OverflowToggled { root: rid("/a"), branch: "y".to_string() });
    assert_eq!(ui.overflow, Some((rid("/a"), "y".to_string())));
    apply_tree_event(&mut ui, TreeEvent::RemoteToggled { root: rid("/a"), remote: "origin".to_string() });
    assert_eq!(ui.collapsed_remotes, vec![(rid("/a"), "origin".to_string())]);
    apply_tree_event(&mut ui, TreeEvent::RemoteToggled { root: rid("/a"), remote: "origin".to_string() });
    assert!(ui.collapsed_remotes.is_empty());
    apply_tree_event(&mut ui, TreeEvent::RemotesVisibleChanged { visible: true });
    assert!(ui.show_remotes);
}

#[test]
fn renaming_follows_the_selection() {
    let mut ui = fresh();
    ui.selected = Some("old".to_string());
    apply_tree_event(&mut ui, TreeEvent::RenameStarted { root: rid("/b"), branch: "old".to_string() });
    assert_eq!(ui.renaming.as_deref(), Some("old"));
    assert_eq!(ui.rename_draft, "old");
    assert_eq!(ui.selected_root, Some(rid("/b")));
    assert_eq!(ui.overflow, None);
    let same = TreeEvent::RenameCommitted { root: rid("/b"), old: "old".to_string(), new: "old".to_string() };
    assert_eq!(apply_tree_event(&mut ui, same), TreeEffect::Nothing);
    assert_eq!(ui.renaming, None);
    let renamed = TreeEvent::RenameCommitted { root: rid("/b"), old: "old".to_string(), new: "new".to_string() };
    assert_eq!(
        apply_tree_event(&mut ui, renamed),
        TreeEffect::Rename { root: rid("/b"), old: "old".to_string(), new: "new".to_string() }
    );
    assert_eq!(ui.selected.as_deref(), Some("new"));
    let empty = TreeEvent::RenameCommitted { root: rid("/b"), old: "new".to_string(), new: String::new() };
    assert_eq!(apply_tree_event(&mut ui, empty), TreeEffect::Nothing);
    assert_eq!(ui.selected.as_deref(), Some("new"));
}

#[test]
fn collapsed_remote_toggles_keep_other_groups() {
    let mut pairs = vec![(rid("/a"), "origin".to_string()), (rid("/b"), "origin".to_string())];
    toggle_collapsed(&mut pairs, &rid("/a"), "origin");
    assert_eq!(pairs, vec![(rid("/b"), "origin".to_string())]);
    toggle_collapsed(&mut pairs, &rid("/a"), "upstream");
    assert_eq!(pairs.len(), 2);
}

#[test]
fn log_tree_clicks_scope_the_graph_unless_a_dialog_is_up() {
    let mut ui = LogTreeUi {
        ref_scope: None,
        selected_root: None,
        selected_commit: Some("abc".to_string()),
        selected_file: Some("a.rs".to_string()),
        local_open: true,
        tags_open: true,
        collapsed_remotes: vec![],
        show_remotes: false,
    };
    let click = || TreeEvent::RowClicked { root: rid("/a"), branch: "dev".to_string() };
    assert!(!apply_log_tree_event(&mut ui, true, click()));
    assert_eq!(ui.ref_scope, None);
    assert!(!apply_log_tree_event(&mut ui, false, click()));
    assert_eq!(ui.ref_scope, Some((rid("/a"), "dev".to_string())));
    assert_eq!(ui.selected_root, Some(rid("/a")));
    assert_eq!(ui.selected_commit, None);
    assert_eq!(ui.selected_file, None);
    assert!(apply_log_tree_event(&mut ui, false, TreeEvent::FetchRequested { root: rid("/a") }));
    assert!(!apply_log_tree_event(&mut ui, false, TreeEvent::RenameCancelled));
    apply_log_tree_event(&mut ui, false, TreeEvent::GroupToggled(TreeGroup::Local));
    assert!(!ui.local_open);
}
