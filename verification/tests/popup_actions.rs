use turbogit_ui::branch_widget::{
    checkout_entry, delete_confirm, widget_label, CheckoutCommand, DeleteConfirm, PopupEntry,
};

fn local(name: &str) -> PopupEntry {
    PopupEntry::Local { name: name.to_string(), favorite: false, ahead: 0, behind: 0, gone: false, last_touched: None }
}

#[test]
fn status_bar_widget_names_the_current_branch() {
    assert_eq!(widget_label(Some("main")), "⎇ main");
    assert_eq!(widget_label(None), "⎇ <detached>");
}

#[test]
fn checkout_rows_update_recents_and_pick_the_git_work() {
    let mut recents = vec!["dev".to_string(), "main".to_string()];
    let (label, cmd) = checkout_entry(&mut recents, &local("main"));
    assert_eq!(label, "Checkout main");
    assert_eq!(cmd, CheckoutCommand::Branch { name: "main".to_string() });
    assert_eq!(recents, vec!["main".to_string(), "dev".to_string()]);

    let remote = PopupEntry::Remote { name: "feat".to_string(), ahead: 0, behind: 0, gone: false, last_touched: None };
    let (label, cmd) = checkout_entry(&mut recents, &remote);
    assert_eq!(label, "Checkout feat (new local)");
    assert_eq!(
        cmd,
        CheckoutCommand::CreateFrom { name: "feat".to_string(), start: "origin/feat".to_string() }
    );
    assert_eq!(recents[0], "feat");

    let tag = PopupEntry::Tag { name: "v1.0".to_string() };
    let before = recents.clone();
    let (label, cmd) = checkout_entry(&mut recents, &tag);
    assert_eq!(label, "Checkout v1.0");
    assert_eq!(cmd, CheckoutCommand::Tag { name: "v1.0".to_string() });
    assert_eq!(recents, before);
}

#[test]
fn delete_routes_through_the_right_confirmation() {
    assert_eq!(delete_confirm(&local("old")), Some(DeleteConfirm::LocalBranch { name: "old".to_string() }));
    let remote = PopupEntry::Remote { name: "old".to_string(), ahead: 0, behind: 0, gone: true, last_touched: None };
    assert_eq!(
        delete_confirm(&remote),
        Some(DeleteConfirm::RemoteBranch { remote: "origin".to_string(), name: "old".to_string() })
    );
    assert_eq!(delete_confirm(&PopupEntry::Tag { name: "v1".to_string() }), None);
}
