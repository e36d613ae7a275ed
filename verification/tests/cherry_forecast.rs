use turbogit_ui::cherry_across::{
    cherry_button, commit_visible, selection_note, target_rows,
    applies_text, outcome_text, risk_color, risk_text, PickForecast, TargetForecast, TargetRisk,
};
use turbogit_ui::domain::{Commit, RootId};
use turbogit_ui::theme::Palette;

fn forecast(blocked: Option<&str>, risk: TargetRisk, picks: Vec<PickForecast>) -> TargetForecast {
    TargetForecast { applies: 2, total: 3, risk, blocked: blocked.map(|b| b.to_string()), picks }
}

#[test]
fn forecast_columns() {
    let t = forecast(None, TargetRisk::Medium, vec![]);
    assert_eq!(applies_text(&t), "2/3");
    assert_eq!(risk_text(&t), "Medium");
    assert_eq!(risk_color(&t), Palette::STATE_WARNING);
    let skipped = forecast(Some("working tree is dirty"), TargetRisk::High, vec![]);
    assert_eq!(risk_text(&skipped), "—");
    assert_eq!(risk_color(&skipped), Palette::STATE_ERROR);
    assert_eq!(risk_color(&forecast(None, TargetRisk::Low, vec![])), Palette::STATE_SUCCESS);
}

#[test]
fn forecast_outcome_examples() {
    let clean = forecast(None, TargetRisk::Low, vec![PickForecast::CleanApply, PickForecast::CleanApply]);
    assert_eq!(outcome_text(&clean), "clean apply");
    let overlap = forecast(None, TargetRisk::High, vec![PickForecast::Conflict { failed_hunks: 1 }]);
    assert_eq!(outcome_text(&overlap), "1 hunk overlaps — will stop for manual resolve");
    let present = forecast(None, TargetRisk::Low, vec![PickForecast::AlreadyPresent]);
    assert_eq!(outcome_text(&present), "1 skipped — already present in history");
    let dirty = forecast(Some("working tree is dirty"), TargetRisk::Low, vec![PickForecast::CleanApply]);
    assert_eq!(outcome_text(&dirty), "skipped — working tree is dirty");
    assert_eq!(outcome_text(&forecast(None, TargetRisk::Low, vec![])), "—");
}

#[test]
fn forecast_outcome_joins_every_part_in_order() {
    let mixed = forecast(
        None,
        TargetRisk::High,
        vec![
            PickForecast::AlreadyPresent,
            PickForecast::Conflict { failed_hunks: 3 },
            PickForecast::CleanApplyDrifted,
            PickForecast::CleanApply,
            PickForecast::Conflict { failed_hunks: 1 },
            PickForecast::CleanApplyDrifted,
            PickForecast::AlreadyPresent,
        ],
    );
    assert_eq!(
        outcome_text(&mixed),
        "clean apply · 2 apply with drift · 3 hunks overlap — will stop for manual resolve · 2 skipped — already present in history"
    );
}

#[test]
fn cherry_dialog_targets_and_button() {
    let roots = vec![RootId("/w/api".to_string()), RootId("/w/web".to_string()), RootId("/w/docs".to_string())];
    let rows = target_rows(&roots, &RootId("/w/web".to_string()), &[RootId("/w/docs".to_string())]);
    let got: Vec<(&str, &str, bool)> = rows.iter().map(|(id, n, c)| (id.0.as_str(), n.as_str(), *c)).collect();
    assert_eq!(got, vec![("/w/api", "api", false), ("/w/docs", "docs", true)]);
    assert_eq!(selection_note(2, 5), "will apply in order · 2 of 5 selected");
    assert_eq!(cherry_button(1, 1), (true, "Cherry-pick to 1 repo".to_string()));
    assert_eq!(cherry_button(0, 3), (false, "Cherry-pick to 3 repos".to_string()));
}

#[test]
fn candidate_search_matches_message_author_or_id_prefix() {
    let c = Commit {
        id: "abc1234".to_string(),
        parents: vec![],
        author: "Ann Lee".to_string(),
        time: 0,
        message: "Fix Parser".to_string(),
    };
    assert!(commit_visible(&c, ""));
    assert!(commit_visible(&c, "PARSER"));
    assert!(commit_visible(&c, "lee"));
    assert!(commit_visible(&c, "ABC"));
    assert!(!commit_visible(&c, "1234"));
    assert!(!commit_visible(&c, "zzz"));
}
