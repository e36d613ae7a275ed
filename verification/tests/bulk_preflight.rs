use turbogit_ui::bulk_preflight::{
    command_button, command_cell, run_header, run_label, skip_summary, CommandClick,
    branch_outcome_text, branch_row_status, outcome_text, row_status, skip_detail, BulkOp, CascadeAction, PreflightRow,
    SkipReason,
};
use turbogit_ui::theme::Palette;

fn row(skip: Option<SkipReason>, ahead: usize, behind: usize, dirty: usize) -> PreflightRow {
    PreflightRow { skip, ahead, behind, dirty }
}

#[test]
fn preflight_status_puts_divergence_first() {
    assert_eq!(row_status(&row(None, 2, 1, 3)), ("Diverged".to_string(), Palette::STATE_ERROR));
    assert_eq!(
        row_status(&row(Some(SkipReason::Diverged), 0, 0, 0)),
        ("Diverged".to_string(), Palette::STATE_ERROR)
    );
    assert_eq!(
        row_status(&row(Some(SkipReason::NoUpstream), 0, 0, 4)),
        ("No upstream".to_string(), Palette::STATE_WARNING)
    );
    assert_eq!(row_status(&row(None, 3, 0, 1)), ("Dirty".to_string(), Palette::STATE_WARNING));
    assert_eq!(row_status(&row(None, 0, 5, 0)), ("Clean".to_string(), Palette::STATE_SUCCESS));
}

#[test]
fn preflight_outcome_names_each_operation() {
    assert_eq!(outcome_text(BulkOp::FetchAll, false, ""), "Fetch from all remotes");
    assert_eq!(outcome_text(BulkOp::PullAll, true, ""), "Rebase onto upstream");
    assert_eq!(outcome_text(BulkOp::PullAll, false, ""), "Merge upstream");
    assert_eq!(outcome_text(BulkOp::PushAll, false, ""), "Push to upstream");
    assert_eq!(outcome_text(BulkOp::StashAll, false, ""), "Stash local changes");
    assert_eq!(outcome_text(BulkOp::Commit, false, "x"), "");
    assert_eq!(outcome_text(BulkOp::Merge, false, "  feature/x \t"), "Merge feature/x");
    assert_eq!(outcome_text(BulkOp::Merge, false, "   "), "Merge <no source branch>");
}

#[test]
fn preflight_skip_details() {
    assert_eq!(skip_detail(SkipReason::DirtyWorktree), "commit or stash first");
    assert_eq!(skip_detail(SkipReason::Diverged), "requires manual resolve");
    assert_eq!(skip_detail(SkipReason::NoUpstream), "nothing to sync with");
    assert_eq!(skip_detail(SkipReason::CleanTree), "nothing to stash");
}

#[test]
fn cascade_row_status_per_action() {
    assert_eq!(
        branch_row_status(&CascadeAction::Skip(SkipReason::DirtyWorktree)),
        ("Dirty".to_string(), Palette::STATE_WARNING)
    );
    assert_eq!(
        branch_row_status(&CascadeAction::Skip(SkipReason::Diverged)),
        ("Diverged".to_string(), Palette::STATE_ERROR)
    );
    assert_eq!(
        branch_row_status(&CascadeAction::CreateFromUpstream { from: "origin/x".to_string() }),
        ("Rebase".to_string(), Palette::STATE_INFO)
    );
    assert_eq!(
        branch_row_status(&CascadeAction::CheckoutExisting),
        ("Clean".to_string(), Palette::STATE_SUCCESS)
    );
}

#[test]
fn cascade_outcome_per_action() {
    assert_eq!(branch_outcome_text(&CascadeAction::CheckoutExisting, ""), "Check out existing branch");
    assert_eq!(branch_outcome_text(&CascadeAction::CreateFromHead, ""), "Create from HEAD, checkout");
    assert_eq!(
        branch_outcome_text(&CascadeAction::CreateFromUpstream { from: "origin/x".to_string() }, ""),
        "Rebase onto origin/x, then create"
    );
    assert_eq!(
        branch_outcome_text(&CascadeAction::Skip(SkipReason::DirtyWorktree), "dirty worktree"),
        "Skipped (dirty worktree) — commit or stash first"
    );
}

#[test]
fn modal_header_and_run_button() {
    assert_eq!(
        run_header(3, 3),
        ("Will run on all 3 repositories.".to_string(), "3 of 3 will run".to_string())
    );
    assert_eq!(
        run_header(2, 5),
        ("Will run on 2 repositories. 3 will be skipped.".to_string(), "2 of 5 will run".to_string())
    );
    assert_eq!(run_label(2, 5), "Run on 2 of 5");
}

#[test]
fn destructive_commands_arm_before_running() {
    assert_eq!(command_button("git status", false, false, 2, 3), (true, "Run on 2 of 3".to_string(), CommandClick::Dispatch));
    assert_eq!(command_button(" git clean -fd ", true, false, 2, 3), (true, "Run on 2 of 3".to_string(), CommandClick::Arm));
    assert_eq!(
        command_button(" git clean -fd ", true, true, 2, 3),
        (true, "Yes, run git clean -fd".to_string(), CommandClick::Dispatch)
    );
    assert_eq!(command_button("   ", false, false, 2, 3).2, CommandClick::Nothing);
    assert_eq!(command_button("ls", false, false, 0, 3).0, false);
    assert_eq!(command_cell("  git fetch "), "> git fetch");
    assert_eq!(command_cell(""), "—");
}

#[test]
fn cascade_skip_summary() {
    assert_eq!(skip_summary(&[]), "Nothing will be skipped.");
    assert_eq!(
        skip_summary(&[("dirty worktree".to_string(), 2), ("diverged".to_string(), 1)]),
        "2 skipped (dirty worktree) · 1 skipped (diverged) · will skip worktrees with local changes"
    );
}
