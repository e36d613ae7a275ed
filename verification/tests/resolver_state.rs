use turbogit_ui::conflict_resolver::{
    advance_active, apply_to_all_remaining, conflict_counter, edit_manually, open_resolver, remaining, resolve,
    resolver_footer, step_active, undo_resolution,
    CHOICE_BOTH_THEIRS_FIRST, CHOICE_OURS, CHOICE_THEIRS,
};

fn segs() -> Vec<(String, String, bool)> {
    vec![
        ("head\n".to_string(), String::new(), false),
        ("a1\n".to_string(), "b1\n".to_string(), true),
        ("mid\n".to_string(), String::new(), false),
        ("a2\n".to_string(), "b2\n".to_string(), true),
        ("a3\n".to_string(), "b3\n".to_string(), true),
    ]
}

#[test]
fn opening_leaves_every_conflict_open_on_our_side() {
    let st = open_resolver(segs(), true);
    assert_eq!(st.res, vec![None, None, None]);
    assert_eq!(st.undo, vec![None, None, None]);
    assert_eq!(st.text, "head\na1\nmid\na2\na3\n");
    assert!(!st.edited);
    assert_eq!(st.active, 0);
}

#[test]
fn resolving_records_undo_recomposes_and_advances() {
    let mut st = open_resolver(segs(), true);
    resolve(&mut st, 0, CHOICE_THEIRS);
    assert_eq!(st.res, vec![Some(CHOICE_THEIRS), None, None]);
    assert_eq!(st.undo, vec![None, None, None]);
    assert_eq!(st.text, "head\nb1\nmid\na2\na3\n");
    assert_eq!(st.active, 1);
    resolve(&mut st, 0, CHOICE_BOTH_THEIRS_FIRST);
    assert_eq!(st.undo[0], Some(CHOICE_THEIRS));
    assert_eq!(st.text, "head\nb1\na1\nmid\na2\na3\n");
    assert_eq!(st.active, 2);
}

#[test]
fn resolving_without_auto_advance_keeps_the_cursor_and_hand_edits() {
    let mut st = open_resolver(segs(), false);
    st.text = "typed".to_string();
    st.edited = true;
    resolve(&mut st, 2, CHOICE_THEIRS);
    assert_eq!(st.active, 0);
    assert_eq!(st.text, "typed");
}

#[test]
fn undo_always_reopens_the_conflict() {
    let mut st = open_resolver(segs(), false);
    resolve(&mut st, 1, CHOICE_THEIRS);
    undo_resolution(&mut st, 1);
    assert_eq!(st.res, vec![None, None, None]);
    assert_eq!(st.text, "head\na1\nmid\na2\na3\n");
}

#[test]
fn apply_to_all_remaining_uses_the_active_choice() {
    let mut st = open_resolver(segs(), false);
    resolve(&mut st, 0, CHOICE_THEIRS);
    apply_to_all_remaining(&mut st);
    assert_eq!(st.res, vec![Some(CHOICE_THEIRS), Some(CHOICE_THEIRS), Some(CHOICE_THEIRS)]);
    assert_eq!(st.text, "head\nb1\nmid\nb2\nb3\n");
    let mut fresh = open_resolver(segs(), false);
    apply_to_all_remaining(&mut fresh);
    assert_eq!(fresh.res, vec![Some(CHOICE_OURS); 3]);
}

#[test]
fn advancing_wraps_and_stays_when_all_resolved() {
    let mut st = open_resolver(segs(), false);
    st.active = 2;
    advance_active(&mut st);
    assert_eq!(st.active, 0);
    apply_to_all_remaining(&mut st);
    advance_active(&mut st);
    assert_eq!(st.active, 0);
}

#[test]
fn footer_gates_apply_on_every_conflict_being_resolved() {
    let mut st = open_resolver(segs(), false);
    assert_eq!(conflict_counter(&st.res), "3 conflicts remaining");
    let f = resolver_footer(&st);
    assert_eq!(f.label, "Conflict 1");
    assert!(!f.prev && f.next && !f.apply);
    assert_eq!(f.apply_all.as_deref(), Some("Apply to all 3 remaining"));
    resolve(&mut st, 0, CHOICE_THEIRS);
    resolve(&mut st, 1, CHOICE_THEIRS);
    assert_eq!(conflict_counter(&st.res), "1 conflict remaining");
    assert_eq!(remaining(&st.res), 1);
    apply_to_all_remaining(&mut st);
    let f = resolver_footer(&st);
    assert!(f.apply);
    assert_eq!(f.apply_all, None);
    assert_eq!(conflict_counter(&[]), "0 conflicts");
}

#[test]
fn prev_and_next_stop_at_the_ends() {
    let mut st = open_resolver(segs(), false);
    step_active(&mut st, false);
    assert_eq!(st.active, 0);
    step_active(&mut st, true);
    step_active(&mut st, true);
    step_active(&mut st, true);
    assert_eq!(st.active, 2);
    step_active(&mut st, false);
    assert_eq!(st.active, 1);
    edit_manually(&mut st);
    assert!(st.edited);
}
