use turbogit_ui::diff_panes::{pane_labels, DiffComparison};
use turbogit_ui::interactive_rebase::{counts_badge, dropped_line, fold_line, short, verb, RebaseAction};

#[test]
fn plan_rows_show_short_shas_and_verbs() {
    assert_eq!(short("0123456789abcdef"), "0123456");
    assert_eq!(short("abc"), "abc");
    assert_eq!(verb(&RebaseAction::Fixup), "fixup");
    assert_eq!(verb(&RebaseAction::Reword), "reword");
}

#[test]
fn result_preview_lines() {
    assert_eq!(counts_badge(5, 3), "5 → 3 COMMITS");
    let folded = vec!["aaaaaaa111".to_string(), "bbbbbbb222".to_string()];
    assert_eq!(fold_line(&folded, "ccccccc333"), "aaaaaaa + bbbbbbb folded into ccccccc");
    assert_eq!(fold_line(&[], "ccccccc333"), " folded into ccccccc");
    assert_eq!(dropped_line(0), None);
    assert_eq!(dropped_line(1).as_deref(), Some("1 commit dropped"));
    assert_eq!(dropped_line(4).as_deref(), Some("4 commits dropped"));
}

#[test]
fn pane_labels_document_the_pair() {
    assert_eq!(pane_labels(DiffComparison::Repo), ("HEAD", "Working tree"));
    assert_eq!(pane_labels(DiffComparison::Staged), ("HEAD", "Index"));
    assert_eq!(pane_labels(DiffComparison::Local), ("Index", "Working tree"));
}
