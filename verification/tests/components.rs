use turbogit_ui::components::{
    middle_truncate, mid_op_label, row_fill, row_ink, section_label, sync_badge, sync_ink,
    KitButton, RowState, SyncKind, WidgetState,
};
use turbogit_ui::theme::{Palette, RepoState};

#[test]
fn row_fill_and_ink_follow_tokens() {
    assert_eq!(row_fill(RowState::Default), Palette::TRANSPARENT);
    assert_eq!(row_fill(RowState::Hover), Palette::SURFACE_2);
    assert_eq!(row_fill(RowState::Selected), Palette::SELECTION);
    assert_eq!(row_ink(true), Palette::T_MUTED);
    assert_eq!(row_ink(false), Palette::T_PRIMARY);
}

#[test]
fn labels_read_as_designed() {
    assert_eq!(mid_op_label("merging"), "merging…");
    assert_eq!(section_label("local", 3), "LOCAL 3");
    assert_eq!(section_label("Remote", 0), "REMOTE 0");
}

#[test]
fn sync_badge_each_kind() {
    assert_eq!(sync_badge(0, 0, true), Some((SyncKind::Gone, "gone".to_string())));
    assert_eq!(sync_badge(2, 3, false), Some((SyncKind::Diverged, "↑2 ↓3".to_string())));
    assert_eq!(sync_badge(4, 0, false), Some((SyncKind::Ahead, "↑4".to_string())));
    assert_eq!(sync_badge(0, 1, false), Some((SyncKind::Behind, "↓1".to_string())));
    assert_eq!(sync_badge(0, 0, false), Some((SyncKind::InSync, "in sync".to_string())));
    assert_eq!(sync_ink(SyncKind::Gone), Palette::DANGER);
    assert_eq!(sync_ink(SyncKind::Diverged), Palette::BEHIND);
    assert_eq!(sync_ink(SyncKind::InSync), Palette::AHEAD);
}

#[test]
fn middle_truncate_keeps_both_ends() {
    assert_eq!(middle_truncate("feature/multi-root-executor", 22), "feature/multi…executor");
    assert_eq!(middle_truncate("short", 22), "short");
    assert_eq!(middle_truncate("abcdef", 3), "abc");
    assert_eq!(middle_truncate("abcdef", 5), "ab…ef");
}

#[test]
fn kit_button_ink_dims_when_disabled() {
    assert_eq!(KitButton::Primary.ink(WidgetState::Disabled), Palette::T_MUTED);
    assert_eq!(KitButton::Danger.ink(WidgetState::Disabled), Palette::T_MUTED);
}

#[test]
fn repo_state_words_and_colors_agree() {
    assert_eq!(RepoState::Clean.words(), "in sync");
    assert_eq!(RepoState::Dirty.words(), "dirty worktree");
    assert_eq!(RepoState::Conflict.color(), Palette::STATUS_DIVERGED);
    assert_eq!(RepoState::Unpulled.color(), Palette::COUNTER);
}

/// Middle truncation computed the floating-point way.
fn float_truncate(name: &str, max_chars: usize) -> String {
    if max_chars < 4 {
        return name.chars().take(max_chars).collect();
    }
    if name.chars().count() <= max_chars {
        return name.to_string();
    }
    let keep = max_chars - 1;
    let head = ((keep as f32 * 0.62).round() as usize).clamp(1, keep - 1);
    let tail = keep - head;
    let head_s: String = name.chars().take(head).collect();
    let tail_s: String = name.chars().skip(name.chars().count() - tail).collect();
    format!("{head_s}…{tail_s}")
}

#[test]
fn middle_truncate_agrees_with_float_split() {
    let short: String = (0..3000u32).map(|i| char::from(b'a' + (i % 26) as u8)).collect();
    for budget in 0..3000usize {
        assert_eq!(middle_truncate(&short, budget), float_truncate(&short, budget), "budget {budget}");
    }
    let long: String = (0..1_200_000u32).map(|i| char::from(b'a' + (i % 26) as u8)).collect();
    for budget in [440_001usize, 500_026, 777_777, 1_000_001, 1_048_577, 1_199_999] {
        assert_eq!(middle_truncate(&long, budget), float_truncate(&long, budget), "budget {budget}");
    }
}
