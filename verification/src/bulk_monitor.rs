//! The bulk-run monitors' words: each row's state cell and colour, the
//! progress caption and tallies, the footer's actions, and the header of the
//! cherry-pick-across run.

use vstd::prelude::*;

use crate::text::{decimal, first_line_of, first_line_spec, push_decimal, push_str, string_from};
use crate::theme::Palette;

verus! {

/// The first line of `s`, empty when there is none.
pub fn first_line(s: &str) -> (r: String)
    ensures
        r@ == first_line_spec(s@),
{
    first_line_of(s)
}


/// Where one repository's step stands in a run.
pub enum RunState {
    /// Waiting for a worker; `slot` is its place in the queue.
    Queued { slot: usize },
    Running,
    Done,
    Skipped { reason: String },
    Failed { error: String },
}

/// The state cell of a row: its words, their colour, and the detail shown
/// beside them.
pub open spec fn row_cells_spec(st: RunState, workers: nat, running_command: Seq<char>) -> (Seq<char>, u32, Seq<char>) {
    match st {
        RunState::Queued { slot } => (
            "Queued — waiting for worker slot "@ + decimal(slot as nat) + "/"@ + decimal(workers),
            Palette::STATE_WARNING,
            seq![],
        ),
        RunState::Running => ("Running"@, Palette::STATE_INFO, running_command),
        RunState::Done => ("Done"@, Palette::STATE_SUCCESS, seq![]),
        RunState::Skipped { reason } => ("Skipped ("@ + reason@ + ")"@, Palette::INK_3, seq![]),
        RunState::Failed { error } => ("Failed"@, Palette::STATE_ERROR, first_line_spec(error@)),
    }
}

/// A row's state cell, colour and detail: a queued row names its worker
/// slot, a running row shows the running command, a skipped row its reason,
/// a failed row the first line of its error. The flag says whether the row
/// offers "Resolve" (only a failed one does).
pub fn run_row_cells(st: &RunState, workers: usize, running_command: &str) -> (r: (String, u32, String, bool))
    ensures
        (r.0@, r.1, r.2@) == row_cells_spec(*st, workers as nat, running_command@),
        r.3 == st is Failed,
{
    match st {
        RunState::Queued { slot } => {
            let mut s = string_from("Queued — waiting for worker slot ");
            push_decimal(&mut s, *slot as u64);
            push_str(&mut s, "/");
            push_decimal(&mut s, workers as u64);
            (s, Palette::STATE_WARNING, String::new(), false)
        },
        RunState::Running => (string_from("Running"), Palette::STATE_INFO, string_from(running_command), false),
        RunState::Done => (string_from("Done"), Palette::STATE_SUCCESS, String::new(), false),
        RunState::Skipped { reason } => {
            let mut s = string_from("Skipped (");
            push_str(&mut s, reason.as_str());
            push_str(&mut s, ")");
            (s, Palette::INK_3, String::new(), false)
        },
        RunState::Failed { error } => (string_from("Failed"), Palette::STATE_ERROR, first_line(error.as_str()), true),
    }
}

/// The rows in each state: (done, running, queued, skipped, failed).
pub open spec fn tally_spec(sts: Seq<RunState>) -> (nat, nat, nat, nat, nat)
    decreases sts.len(),
{
    if sts.len() == 0 {
        (0, 0, 0, 0, 0)
    } else {
        let (d, r, q, s, f) = tally_spec(sts.drop_last());
        match sts.last() {
            RunState::Done => (d + 1, r, q, s, f),
            RunState::Running => (d, r + 1, q, s, f),
            RunState::Queued { .. } => (d, r, q + 1, s, f),
            RunState::Skipped { .. } => (d, r, q, s + 1, f),
            RunState::Failed { .. } => (d, r, q, s, f + 1),
        }
    }
}

proof fn lemma_tally_bound(sts: Seq<RunState>)
    ensures
        ({
            let (d, r, q, s, f) = tally_spec(sts);
            d + r + q + s + f == sts.len()
        }),
    decreases sts.len(),
{
    if sts.len() > 0 {
        lemma_tally_bound(sts.drop_last());
    }
}

/// How many rows are done, running, queued, skipped and failed.
pub fn tally(sts: &[RunState]) -> (r: (usize, usize, usize, usize, usize))
    ensures
        (r.0 as nat, r.1 as nat, r.2 as nat, r.3 as nat, r.4 as nat) == tally_spec(sts@),
{
    let mut d: usize = 0;
    let mut ru: usize = 0;
    let mut q: usize = 0;
    let mut sk: usize = 0;
    let mut f: usize = 0;
    let mut i: usize = 0;
    while i < sts.len()
        invariant
            0 <= i <= sts@.len(),
            (d as nat, ru as nat, q as nat, sk as nat, f as nat) == tally_spec(sts@.take(i as int)),
        decreases sts@.len() - i,
    {
        proof {
            assert(sts@.take(i as int + 1).drop_last() =~= sts@.take(i as int));
            lemma_tally_bound(sts@.take(i as int));
        }
        match &sts[i] {
            RunState::Done => d = d + 1,
            RunState::Running => ru = ru + 1,
            RunState::Queued { .. } => q = q + 1,
            RunState::Skipped { .. } => sk = sk + 1,
            RunState::Failed { .. } => f = f + 1,
        }
        i = i + 1;
    }
    assert(sts@.take(sts@.len() as int) =~= sts@);
    (d, ru, q, sk, f)
}

/// The progress bar's caption: "N of M done", where the settled rows are
/// the done and the failed ones.
pub fn progress_caption(settled: usize, total: usize) -> (r: String)
    ensures
        r@ == decimal(settled as nat) + " of "@ + decimal(total as nat) + " done"@,
{
    let mut s = String::new();
    push_decimal(&mut s, settled as u64);
    push_str(&mut s, " of ");
    push_decimal(&mut s, total as u64);
    push_str(&mut s, " done");
    s
}

/// The footer's live tallies.
pub fn tally_line(done: usize, running: usize, queued: usize, skipped: usize, failed: usize) -> (r: String)
    ensures
        r@ == decimal(done as nat) + " done · "@ + decimal(running as nat) + " running · "@ + decimal(queued as nat)
            + " queued · "@ + decimal(skipped as nat) + " skipped · "@ + decimal(failed as nat) + " failed"@,
{
    let mut s = String::new();
    push_decimal(&mut s, done as u64);
    push_str(&mut s, " done · ");
    push_decimal(&mut s, running as u64);
    push_str(&mut s, " running · ");
    push_decimal(&mut s, queued as u64);
    push_str(&mut s, " queued · ");
    push_decimal(&mut s, skipped as u64);
    push_str(&mut s, " skipped · ");
    push_decimal(&mut s, failed as u64);
    push_str(&mut s, " failed");
    s
}

/// The footer's run actions: the retry button's label, whether it is
/// enabled (some rows were skipped), and whether "Stop remaining" is
/// enabled (some rows are still queued).
pub fn footer_actions(skipped: usize, queued: usize) -> (r: (String, bool, bool))
    ensures
        r.0@ == "Retry "@ + decimal(skipped as nat) + " skipped"@,
        r.1 == (skipped > 0),
        r.2 == (queued > 0),
{
    let mut s = string_from("Retry ");
    push_decimal(&mut s, skipped as u64);
    push_str(&mut s, " skipped");
    (s, skipped > 0, queued > 0)
}

/// The cherry-pick-across run's header: how many commits travel, and the
/// conflict policy.
pub fn cherry_header(commits: usize, stop_on_conflict: bool) -> (r: String)
    ensures
        r@ == decimal(commits as nat) + " commit"@ + (if commits == 1 {
            seq![]
        } else {
            "s"@
        }) + " · "@ + (if stop_on_conflict {
            "stop on first conflict"@
        } else {
            "continue past conflicts"@
        }),
{
    let mut s = String::new();
    push_decimal(&mut s, commits as u64);
    push_str(&mut s, " commit");
    if commits != 1 {
        push_str(&mut s, "s");
    }
    push_str(&mut s, " · ");
    push_str(&mut s, if stop_on_conflict {
        "stop on first conflict"
    } else {
        "continue past conflicts"
    });
    proof {
        reveal_strlit("");
    }
    s
}

} // verus!
