use turbogit_ui::commit_window::{row_display, status_chip_label, status_color};
use turbogit_ui::domain::ChangeStatus;
use turbogit_ui::theme::Palette;

#[test]
fn status_color_maps_the_redesign_letters_to_their_tokens() {
    assert_eq!(status_color(ChangeStatus::Modified), Palette::STATUS_MODIFIED);
    assert_eq!(status_color(ChangeStatus::Added), Palette::STATUS_ADDED);
    assert_eq!(status_color(ChangeStatus::Unversioned), Palette::STATUS_UNVERSIONED);
    assert_eq!(status_color(ChangeStatus::Deleted), Palette::STATE_ERROR);
    assert_eq!(status_color(ChangeStatus::Renamed), Palette::BRAND);
    assert_eq!(status_color(ChangeStatus::Copied), Palette::STATUS_ADDED);
    assert_eq!(status_color(ChangeStatus::Ignored), Palette::INK_3);
    assert_eq!(status_color(ChangeStatus::Conflicted), Palette::STATE_ERROR);
}

#[test]
fn row_display_splits_filename_from_dim_location() {
    assert_eq!(row_display("base.txt"), ("base.txt".to_owned(), None));
    assert_eq!(
        row_display("src/app.rs"),
        ("app.rs".to_owned(), Some("src/".to_owned()))
    );
    assert_eq!(
        row_display("a/b/c.txt"),
        ("c.txt".to_owned(), Some("a/b/".to_owned()))
    );
}

#[test]
fn row_display_ignores_trailing_and_doubled_separators() {
    assert_eq!(row_display("a//b/"), ("b".to_owned(), Some("a/".to_owned())));
    assert_eq!(row_display(".."), ("..".to_owned(), None));
}

#[test]
fn status_chip_words() {
    assert_eq!(status_chip_label(ChangeStatus::Modified), "Modified");
    assert_eq!(status_chip_label(ChangeStatus::Conflicted), "Conflicted");
    assert_eq!(status_chip_label(ChangeStatus::Unversioned), "Unversioned");
}

/// The row split as `std::path` gives it.
fn path_split(path: &str) -> (String, Option<String>) {
    let p = std::path::Path::new(path);
    let name = p.file_name().map(|s| s.to_string_lossy().into_owned()).unwrap_or_else(|| p.display().to_string());
    let location = p.parent().filter(|q| !q.as_os_str().is_empty()).map(|q| format!("{}/", q.display()));
    (name, location)
}

fn all_paths(alphabet: &[char], max_len: usize) -> Vec<String> {
    let mut out = vec![String::new()];
    let mut layer = vec![String::new()];
    for _ in 0..max_len {
        let mut next = Vec::new();
        for s in &layer {
            for c in alphabet {
                let mut t = s.clone();
                t.push(*c);
                next.push(t);
            }
        }
        out.extend(next.iter().cloned());
        layer = next;
    }
    out
}

#[test]
fn row_display_agrees_with_std_path() {
    for p in all_paths(&['a', '.', '/'], 7) {
        assert_eq!(row_display(&p), path_split(&p), "{p:?}");
    }
    assert_eq!(row_display("foo.txt/."), ("foo.txt".to_string(), None));
    assert_eq!(row_display("a/./b.txt"), ("b.txt".to_string(), Some("a/".to_string())));
    assert_eq!(row_display("/a"), ("a".to_string(), Some("//".to_string())));
}
