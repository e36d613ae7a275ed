use turbogit_ui::diff_model::{
    build_model, parse, parsed_rows, pane_kind, rename_header_text, scan_files, split_git_paths,
    DiffModelMemo, DisplayRow, FileMeta, PaneKind, RowKind,
};

/// Rename with content edits: headers plus one hunk.
const RENAME_WITH_SIMILARITY: &str = "diff --git a/src/old.rs b/src/new.rs\n\
     similarity index 92%\n\
     rename from src/old.rs\n\
     rename to src/new.rs\n\
     --- a/src/old.rs\n\
     +++ b/src/new.rs\n\
     @@ -1 +1 @@\n\
     -a\n\
     +b\n";

#[test]
fn diff_rename_header_extracts_similarity() {
    let files = scan_files(RENAME_WITH_SIMILARITY);
    assert_eq!(files.len(), 1);
    assert!(files[0].renamed);
    assert_eq!(files[0].similarity, Some(92));
    assert_eq!(files[0].old_path.as_deref(), Some("a/src/old.rs"));
    assert_eq!(files[0].new_path.as_deref(), Some("b/src/new.rs"));
    assert_eq!(
        rename_header_text(&files[0]).as_deref(),
        Some("Renamed from src/old.rs · 92% similar")
    );
}

#[test]
fn diff_rename_header_omits_missing_similarity() {
    let text = "diff --git a/x.txt b/y.txt\n\
                rename from x.txt\n\
                rename to y.txt\n";
    let files = scan_files(text);
    assert_eq!(files.len(), 1);
    assert!(files[0].renamed);
    assert_eq!(files[0].similarity, None);
    assert_eq!(
        rename_header_text(&files[0]).as_deref(),
        Some("Renamed from x.txt")
    );
}

#[test]
fn diff_pure_rename_renders_header_without_hunks() {
    let text = "diff --git a/old.rs b/new.rs\n\
                similarity index 100%\n\
                rename from old.rs\n\
                rename to new.rs\n";
    let model = build_model(parse(text), scan_files(text));
    assert!(model.pure_rename());
    assert_eq!(pane_kind(&scan_files(text)), PaneKind::Text);
    assert_eq!(model.hunk_count(), 0);
    assert_eq!(model.raw_count, 5);
    let DisplayRow::Full(row) = &model.display[0] else {
        panic!("rename header must be a full-width row");
    };
    assert_eq!(row.kind, RowKind::RenameHeader);
    assert_eq!(row.text, "Renamed from old.rs · 100% similar");
}

#[test]
fn diff_binary_section_detected_single_and_mixed() {
    let binary = "diff --git a/logo.png b/logo.png\n\
                  index 1111111..2222222 100644\n\
                  Binary files a/logo.png and b/logo.png differ\n";
    assert_eq!(pane_kind(&scan_files(binary)), PaneKind::Image);

    let bin_txt = "diff --git a/data.bin b/data.bin\n\
                   index 1111111..2222222 100644\n\
                   Binary files a/data.bin and b/data.bin differ\n";
    assert_eq!(pane_kind(&scan_files(bin_txt)), PaneKind::Binary);

    let mixed = format!("{bin_txt}diff --git a/x.rs b/x.rs\n@@ -1 +1 @@\n-a\n+b\n");
    let files = scan_files(&mixed);
    assert_eq!(files.len(), 2);
    assert!(files[0].binary);
    assert!(!files[1].binary);
    assert_eq!(pane_kind(&files), PaneKind::Text);
}

#[test]
fn diff_rename_header_keeps_hunk_navigation_aligned() {
    let model = build_model(
        parse(RENAME_WITH_SIMILARITY),
        scan_files(RENAME_WITH_SIMILARITY),
    );
    assert_eq!(model.hunk_count(), 1);
    assert_eq!(model.raw_to_display[0], 0);
    assert_eq!(model.hunk_first_display[0], 7);
    assert_eq!(model.first_row_for_hunk(0, true), Some(7));
    assert_eq!(model.first_row_for_hunk(0, false), Some(7));

    let mut ords = Vec::with_capacity(model.raw_count);
    for disp in &model.display {
        match disp {
            DisplayRow::Full(row) => ords.push(row.ord),
            DisplayRow::Pair(del, add) => {
                for row in del.iter().chain(add.iter()) {
                    ords.push(row.ord);
                }
            }
        }
    }
    ords.sort_unstable();
    assert_eq!(ords, (0..model.raw_count).collect::<Vec<_>>());
}

#[test]
fn diff_sections_split_per_file_with_mode_flags() {
    let text = "commit header noise\n\
                diff --git a/added.bin b/added.bin\n\
                new file mode 100644\n\
                diff --git a/gone.txt b/gone.txt\n\
                deleted file mode 100644\n";
    let files = scan_files(text);
    assert_eq!(files.len(), 2);
    assert!(files[0].new_file && !files[0].deleted_file);
    assert!(files[1].deleted_file && !files[1].renamed);
    assert_eq!(files[1].old_path.as_deref(), Some("a/gone.txt"));
}

#[test]
fn diff_git_paths_parse_quoted_and_plain() {
    assert_eq!(
        split_git_paths("a/src/lib.rs b/src/lib.rs"),
        (
            Some("a/src/lib.rs".to_owned()),
            Some("b/src/lib.rs".to_owned())
        )
    );
    assert_eq!(
        split_git_paths("\"a/we ird\" \"b/ot her\""),
        (Some("a/we ird".to_owned()), Some("b/ot her".to_owned()))
    );
    assert_eq!(split_git_paths("nothing"), (None, None));
}

#[test]
fn diff_pane_kind_sniffs_image_extensions() {
    let meta = |old: &str, new: &str| FileMeta {
        old_path: Some(old.to_owned()),
        new_path: Some(new.to_owned()),
        ..FileMeta::default()
    };
    assert_eq!(pane_kind(&[meta("a/x.PNG", "b/x.png")]), PaneKind::Image);
    let mut svg_bin = meta("a/logo.svg", "b/logo.svg");
    svg_bin.binary = true;
    assert_eq!(pane_kind(&[svg_bin]), PaneKind::Binary);
    assert_eq!(
        pane_kind(&[meta("a/logo.svg", "b/logo.svg")]),
        PaneKind::Text
    );
    assert_eq!(pane_kind(&[meta("a/x.rs", "b/x.rs")]), PaneKind::Text);
    assert_eq!(pane_kind(&[]), PaneKind::Text);
}

#[test]
fn parsed_rows_track_line_numbers_and_kinds() {
    let text = "diff --git a/f b/f\n--- a/f\n+++ b/f\n@@ -10,3 +20,4 @@ fn x\n ctx\n-old\n+new\n+more\n\\ No newline at end of file\n";
    let rows = parsed_rows(text);
    let kinds: Vec<&str> = rows.iter().map(|r| r.kind).collect();
    assert_eq!(
        kinds,
        vec!["meta", "meta", "meta", "hunk", "context", "del", "add", "add", "meta"]
    );
    assert_eq!((rows[4].old_no, rows[4].new_no), (10, 20));
    assert_eq!(rows[4].text, "ctx");
    assert_eq!((rows[5].old_no, rows[5].new_no), (11, 0));
    assert_eq!(rows[5].text, "old");
    assert_eq!((rows[6].old_no, rows[6].new_no), (0, 21));
    assert_eq!((rows[7].old_no, rows[7].new_no), (0, 22));
    assert_eq!((rows[3].old_no, rows[3].new_no), (0, 0));
}

#[test]
fn parse_tracks_hunk_and_changed_line_ordinals() {
    let text = "@@ -1,2 +1,2 @@\n-a\n+b\n c\n@@ -9 +9 @@\n-x\n";
    let rows = parse(text);
    assert_eq!(rows.len(), 6);
    assert_eq!(rows[0].hunk, 0);
    assert_eq!((rows[1].hunk, rows[1].line_ord), (0, 0));
    assert_eq!((rows[2].hunk, rows[2].line_ord), (0, 1));
    assert_eq!(rows[4].hunk, 1);
    assert_eq!((rows[5].hunk, rows[5].line_ord, rows[5].old_no), (1, 0, 9));
}

#[test]
fn parse_strips_crlf_and_defaults_missing_starts() {
    let rows = parse("@@ garbage @@\r\n ctx\r\n");
    assert_eq!(rows.len(), 2);
    assert_eq!(rows[0].text, "@@ garbage @@");
    assert_eq!((rows[1].old_no, rows[1].new_no), (1, 1));
    assert_eq!(rows[1].text, "ctx");
}

#[test]
fn model_pairs_changed_runs_side_by_side() {
    let text = "@@ -1,3 +1,2 @@\n-a\n-b\n+c\n ctx\n";
    let model = build_model(parse(text), scan_files(text));
    assert_eq!(model.display.len(), 4);
    match &model.display[1] {
        DisplayRow::Pair(Some(d), Some(a)) => {
            assert_eq!(d.text, "a");
            assert_eq!(a.text, "c");
        }
        _ => panic!("first pair"),
    }
    match &model.display[2] {
        DisplayRow::Pair(Some(d), None) => assert_eq!(d.text, "b"),
        _ => panic!("second pair"),
    }
    assert_eq!(model.raw_to_display, vec![0, 1, 2, 1, 3]);
    assert_eq!(model.first_row_for_hunk(0, false), Some(0));
    assert_eq!(model.first_row_for_hunk(1, true), None);
}

#[test]
fn memo_reuses_the_model_for_the_same_text() {
    let mut memo = DiffModelMemo::new();
    let a = memo.model("@@ -1 +1 @@\n-a\n+b\n");
    let b = memo.model("@@ -1 +1 @@\n-a\n+b\n");
    assert!(std::rc::Rc::ptr_eq(&a, &b));
    let c = memo.model("@@ -1 +1 @@\n-x\n");
    assert!(!std::rc::Rc::ptr_eq(&a, &c));
    assert_eq!(c.hunk_count(), 1);
}

#[test]
fn image_sniff_agrees_with_std_path_extension() {
    let mut paths = vec![String::new()];
    let mut layer = vec![String::new()];
    for _ in 0..6 {
        let mut next = Vec::new();
        for s in &layer {
            for c in ['a', '.', '/', 'P'] {
                let mut t = s.clone();
                t.push(c);
                next.push(t);
            }
        }
        paths.extend(next.iter().cloned());
        layer = next;
    }
    for ext in ["png", "JPG", "jpeg", "gif", "WebP", "svg"] {
        for base in ["x.", "a/x.", "x./", "a/.x.", ".", "x.", "d/x./.", "/x."] {
            paths.push(format!("{base}{ext}"));
        }
    }
    for p in paths {
        let expect = std::path::Path::new(&p)
            .extension()
            .and_then(|e| e.to_str())
            .map(|e| e.to_ascii_lowercase())
            .is_some_and(|e| ["png", "jpg", "jpeg", "gif", "webp"].contains(&e.as_str()));
        let got = pane_kind(&[FileMeta {
            old_path: Some(p.clone()),
            new_path: Some(p.clone()),
            binary: false,
            new_file: false,
            deleted_file: false,
            similarity: None,
            renamed: false,
        }]) == PaneKind::Image;
        assert_eq!(got, expect, "{p:?}");
    }
}
