use turbogit_ui::bulk_monitor::{
    cherry_header, first_line, footer_actions, progress_caption, run_row_cells, tally, tally_line, RunState,
};
use turbogit_ui::theme::Palette;

#[test]
fn run_rows_say_where_each_step_stands() {
    assert_eq!(
        run_row_cells(&RunState::Queued { slot: 3 }, 4, "git pull"),
        ("Queued — waiting for worker slot 3/4".to_string(), Palette::STATE_WARNING, String::new(), false)
    );
    assert_eq!(
        run_row_cells(&RunState::Running, 4, "git pull"),
        ("Running".to_string(), Palette::STATE_INFO, "git pull".to_string(), false)
    );
    assert_eq!(
        run_row_cells(&RunState::Done, 4, "x"),
        ("Done".to_string(), Palette::STATE_SUCCESS, String::new(), false)
    );
    assert_eq!(
        run_row_cells(&RunState::Skipped { reason: "dirty".to_string() }, 4, "x"),
        ("Skipped (dirty)".to_string(), Palette::INK_3, String::new(), false)
    );
    assert_eq!(
        run_row_cells(&RunState::Failed { error: "conflict\nmore".to_string() }, 4, "x"),
        ("Failed".to_string(), Palette::STATE_ERROR, "conflict".to_string(), true)
    );
}

#[test]
fn tallies_and_captions() {
    let rows = vec![
        RunState::Done,
        RunState::Failed { error: "e".to_string() },
        RunState::Queued { slot: 1 },
        RunState::Queued { slot: 2 },
        RunState::Running,
        RunState::Skipped { reason: "r".to_string() },
        RunState::Done,
    ];
    assert_eq!(tally(&rows), (2, 1, 2, 1, 1));
    assert_eq!(tally(&[]), (0, 0, 0, 0, 0));
    assert_eq!(progress_caption(3, 7), "3 of 7 done");
    assert_eq!(tally_line(2, 1, 2, 1, 1), "2 done · 1 running · 2 queued · 1 skipped · 1 failed");
    assert_eq!(footer_actions(1, 0), ("Retry 1 skipped".to_string(), true, false));
    assert_eq!(footer_actions(0, 2), ("Retry 0 skipped".to_string(), false, true));
    assert_eq!(first_line("a\nb"), "a");
}

#[test]
fn cherry_header_names_commits_and_policy() {
    assert_eq!(cherry_header(1, true), "1 commit · stop on first conflict");
    assert_eq!(cherry_header(3, false), "3 commits · continue past conflicts");
    assert_eq!(cherry_header(0, false), "0 commits · continue past conflicts");
}
