use turbogit_ui::activity::{
    take_banner_action,
    kind_color, next_repo_filter, repo_label, severity_color, window_label, ActivityKind,
    BannerSeverity, TimeWindow,
};
use turbogit_ui::theme::Palette;

#[test]
fn activity_and_banner_colors() {
    assert_eq!(kind_color(ActivityKind::Success), Palette::STATE_SUCCESS);
    assert_eq!(kind_color(ActivityKind::Warning), Palette::STATE_WARNING);
    assert_eq!(kind_color(ActivityKind::Error), Palette::STATE_ERROR);
    assert_eq!(severity_color(BannerSeverity::Info), Palette::STATE_INFO);
    assert_eq!(severity_color(BannerSeverity::Warning), Palette::STATE_WARNING);
    assert_eq!(severity_color(BannerSeverity::Error), Palette::STATE_ERROR);
    assert_eq!(severity_color(BannerSeverity::Success), Palette::STATE_SUCCESS);
}

#[test]
fn activity_labels() {
    assert_eq!(window_label(TimeWindow::All), "All time");
    assert_eq!(window_label(TimeWindow::Last30Min), "Last 30 min");
    assert_eq!(repo_label(&None), "All repos");
    assert_eq!(repo_label(&Some("api".to_string())), "api");
}

#[test]
fn repo_filter_cycles_through_every_repository_and_back() {
    let labels = vec!["api".to_string(), "web".to_string(), "docs".to_string()];
    let mut filter: Option<String> = None;
    let mut seen = Vec::new();
    for _ in 0..4 {
        filter = next_repo_filter(&labels, &filter);
        seen.push(filter.clone());
    }
    assert_eq!(
        seen,
        vec![Some("api".to_string()), Some("web".to_string()), Some("docs".to_string()), None]
    );
}

#[test]
fn repo_filter_with_unknown_or_no_repositories_returns_to_all() {
    let labels = vec!["api".to_string()];
    assert_eq!(next_repo_filter(&labels, &Some("gone".to_string())), None);
    assert_eq!(next_repo_filter(&[], &None), None);
}

#[test]
fn banner_action_fires_once() {
    let mut labels = vec!["Retry".to_string(), "Dismiss".to_string(), "Retry".to_string()];
    assert_eq!(take_banner_action(&mut labels, "Retry"), Some(0));
    assert_eq!(labels, vec!["Dismiss".to_string(), "Retry".to_string()]);
    assert_eq!(take_banner_action(&mut labels, "Open log"), None);
    assert_eq!(labels, vec!["Dismiss".to_string(), "Retry".to_string()]);
    assert_eq!(take_banner_action(&mut labels, "Retry"), Some(1));
    assert_eq!(take_banner_action(&mut labels, "Dismiss"), Some(0));
    assert!(labels.is_empty());
}
