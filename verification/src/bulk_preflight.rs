//! The bulk-operation preflight's wording: each row's status and color, the
//! outcome a will-run row announces, and the detail of each skip.

use vstd::prelude::*;

use crate::text::{chars_of, decimal, join, join_strings, push_str, span_trim, string_from, string_of, trim};
use crate::theme::Palette;

verus! {

/// A repository-wide operation run across the project.
#[derive(Clone, Copy, Debug, PartialEq, Eq, Structural)]
pub enum BulkOp {
    FetchAll,
    PullAll,
    PushAll,
    StashAll,
    CreateBranch,
    Custom,
    Commit,
    Merge,
}

/// Why a repository sits a bulk operation out.
#[derive(Clone, Copy, Debug, PartialEq, Eq, Structural)]
pub enum SkipReason {
    DirtyWorktree,
    Diverged,
    NoUpstream,
    CleanTree,
}

/// What the preflight read of one repository: whether it will be skipped
/// (and why), its divergence from upstream, and its dirty file count.
#[derive(Clone, Copy, Debug, PartialEq, Eq)]
pub struct PreflightRow {
    pub skip: Option<SkipReason>,
    pub ahead: usize,
    pub behind: usize,
    pub dirty: usize,
}

/// What a branch cascade does in one repository.
#[derive(Clone, Debug, PartialEq, Eq)]
pub enum CascadeAction {
    CheckoutExisting,
    CreateFromHead,
    CreateFromUpstream { from: String },
    Skip(SkipReason),
}

/// The status word of a row: divergence first, then a missing upstream,
/// then local edits.
pub open spec fn row_status_spec(row: PreflightRow) -> (Seq<char>, u32) {
    if row.skip == Some(SkipReason::Diverged) || (row.ahead > 0 && row.behind > 0) {
        ("Diverged"@, Palette::STATE_ERROR)
    } else if row.skip == Some(SkipReason::NoUpstream) {
        ("No upstream"@, Palette::STATE_WARNING)
    } else if row.dirty > 0 {
        ("Dirty"@, Palette::STATE_WARNING)
    } else {
        ("Clean"@, Palette::STATE_SUCCESS)
    }
}

/// The STATUS column text and color for one row.
pub fn row_status(row: &PreflightRow) -> (r: (String, u32))
    ensures
        (r.0@, r.1) == row_status_spec(*row),
{
    if row.skip == Some(SkipReason::Diverged) || (row.ahead > 0 && row.behind > 0) {
        (string_from("Diverged"), Palette::STATE_ERROR)
    } else if row.skip == Some(SkipReason::NoUpstream) {
        (string_from("No upstream"), Palette::STATE_WARNING)
    } else if row.dirty > 0 {
        (string_from("Dirty"), Palette::STATE_WARNING)
    } else {
        (string_from("Clean"), Palette::STATE_SUCCESS)
    }
}

/// The outcome a will-run row announces; the operations whose rows render
/// elsewhere announce nothing.
pub open spec fn outcome_text_spec(op: BulkOp, rebase: bool, merge_target: Seq<char>) -> Seq<char> {
    match op {
        BulkOp::FetchAll => "Fetch from all remotes"@,
        BulkOp::PullAll => if rebase {
            "Rebase onto upstream"@
        } else {
            "Merge upstream"@
        },
        BulkOp::PushAll => "Push to upstream"@,
        BulkOp::StashAll => "Stash local changes"@,
        BulkOp::CreateBranch | BulkOp::Custom | BulkOp::Commit => seq![],
        BulkOp::Merge => if trim(merge_target).len() == 0 {
            "Merge <no source branch>"@
        } else {
            "Merge "@ + trim(merge_target)
        },
    }
}

/// The OUTCOME column text for a will-run row. `merge_target` is the merge
/// dialog's picked source branch.
pub fn outcome_text(op: BulkOp, rebase: bool, merge_target: &str) -> (r: String)
    ensures
        r@ == outcome_text_spec(op, rebase, merge_target@),
{
    match op {
        BulkOp::FetchAll => string_from("Fetch from all remotes"),
        BulkOp::PullAll => if rebase {
            string_from("Rebase onto upstream")
        } else {
            string_from("Merge upstream")
        },
        BulkOp::PushAll => string_from("Push to upstream"),
        BulkOp::StashAll => string_from("Stash local changes"),
        BulkOp::CreateBranch | BulkOp::Custom | BulkOp::Commit => String::new(),
        BulkOp::Merge => {
            let v = chars_of(merge_target);
            let (a, b) = span_trim(&v, 0, v.len());
            assert(v@.subrange(0, v@.len() as int) =~= v@);
            if a == b {
                string_from("Merge <no source branch>")
            } else {
                let mut s = string_from("Merge ");
                let t = string_of(&v, a, b);
                push_str(&mut s, t.as_str());
                s
            }
        },
    }
}

/// The trailing detail of a skip.
pub open spec fn skip_detail_spec(reason: SkipReason) -> Seq<char> {
    match reason {
        SkipReason::DirtyWorktree => "commit or stash first"@,
        SkipReason::Diverged => "requires manual resolve"@,
        SkipReason::NoUpstream => "nothing to sync with"@,
        SkipReason::CleanTree => "nothing to stash"@,
    }
}

/// The trailing detail of a skip outcome.
pub fn skip_detail(reason: SkipReason) -> (r: &'static str)
    ensures
        r@ == skip_detail_spec(reason),
{
    match reason {
        SkipReason::DirtyWorktree => "commit or stash first",
        SkipReason::Diverged => "requires manual resolve",
        SkipReason::NoUpstream => "nothing to sync with",
        SkipReason::CleanTree => "nothing to stash",
    }
}

/// The STATUS column text and color for one cascade row.
pub fn branch_row_status(action: &CascadeAction) -> (r: (String, u32))
    ensures
        (r.0@, r.1) == match action {
            CascadeAction::Skip(SkipReason::DirtyWorktree) => ("Dirty"@, Palette::STATE_WARNING),
            CascadeAction::Skip(_) => ("Diverged"@, Palette::STATE_ERROR),
            CascadeAction::CreateFromUpstream { .. } => ("Rebase"@, Palette::STATE_INFO),
            _ => ("Clean"@, Palette::STATE_SUCCESS),
        },
{
    match action {
        CascadeAction::Skip(SkipReason::DirtyWorktree) => (string_from("Dirty"), Palette::STATE_WARNING),
        CascadeAction::Skip(_) => (string_from("Diverged"), Palette::STATE_ERROR),
        CascadeAction::CreateFromUpstream { .. } => (string_from("Rebase"), Palette::STATE_INFO),
        CascadeAction::CheckoutExisting | CascadeAction::CreateFromHead => (
            string_from("Clean"),
            Palette::STATE_SUCCESS,
        ),
    }
}

/// The OUTCOME text of a skipped row: the reason's label and its detail.
pub open spec fn skipped_text(label: Seq<char>, reason: SkipReason) -> Seq<char> {
    "Skipped ("@ + label + ") — "@ + skip_detail_spec(reason)
}

/// The OUTCOME column text for one cascade row; `skip_label` is the label
/// of the row's skip reason (the reason's own wording), used for a skip.
pub fn branch_outcome_text(action: &CascadeAction, skip_label: &str) -> (r: String)
    ensures
        r@ == match action {
            CascadeAction::CheckoutExisting => "Check out existing branch"@,
            CascadeAction::CreateFromHead => "Create from HEAD, checkout"@,
            CascadeAction::CreateFromUpstream { from } => "Rebase onto "@ + from@ + ", then create"@,
            CascadeAction::Skip(reason) => skipped_text(skip_label@, *reason),
        },
{
    match action {
        CascadeAction::CheckoutExisting => string_from("Check out existing branch"),
        CascadeAction::CreateFromHead => string_from("Create from HEAD, checkout"),
        CascadeAction::CreateFromUpstream { from } => {
            let mut s = string_from("Rebase onto ");
            push_str(&mut s, from.as_str());
            push_str(&mut s, ", then create");
            s
        },
        CascadeAction::Skip(reason) => {
            let mut s = string_from("Skipped (");
            push_str(&mut s, skip_label);
            push_str(&mut s, ") — ");
            push_str(&mut s, skip_detail(*reason));
            s
        },
    }
}

// --- the modal's header, footer and summaries -------------------------------------------

/// The modal's header: on the left "Will run on all N repositories." or
/// "Will run on W repositories. S will be skipped.", on the right "W of N
/// will run".
pub fn run_header(will_run: usize, total: usize) -> (r: (String, String))
    requires
        will_run <= total,
    ensures
        r.0@ == if will_run == total {
            "Will run on all "@ + decimal(total as nat) + " repositories."@
        } else {
            "Will run on "@ + decimal(will_run as nat) + " repositories. "@ + decimal((total - will_run) as nat)
                + " will be skipped."@
        },
        r.1@ == decimal(will_run as nat) + " of "@ + decimal(total as nat) + " will run"@,
{
    let mut left = String::new();
    if will_run == total {
        push_str(&mut left, "Will run on all ");
        crate::text::push_decimal(&mut left, total as u64);
        push_str(&mut left, " repositories.");
    } else {
        push_str(&mut left, "Will run on ");
        crate::text::push_decimal(&mut left, will_run as u64);
        push_str(&mut left, " repositories. ");
        crate::text::push_decimal(&mut left, (total - will_run) as u64);
        push_str(&mut left, " will be skipped.");
    }
    let mut right = String::new();
    crate::text::push_decimal(&mut right, will_run as u64);
    push_str(&mut right, " of ");
    crate::text::push_decimal(&mut right, total as u64);
    push_str(&mut right, " will run");
    (left, right)
}

/// The Run button's label: "Run on W of N".
pub fn run_label(will_run: usize, total: usize) -> (r: String)
    ensures
        r@ == "Run on "@ + decimal(will_run as nat) + " of "@ + decimal(total as nat),
{
    let mut s = string_from("Run on ");
    crate::text::push_decimal(&mut s, will_run as u64);
    push_str(&mut s, " of ");
    crate::text::push_decimal(&mut s, total as u64);
    s
}

/// What a click on the custom command's Run button does.
#[derive(Clone, Copy, Debug, PartialEq, Eq, Structural)]
pub enum CommandClick {
    /// Nothing: the button is disabled.
    Nothing,
    /// Arm the explicit confirmation of a destructive command.
    Arm,
    /// Run the command.
    Dispatch,
}

/// The custom command's Run button: enabled with a command and at least
/// one repository that will run; a destructive command's first click only
/// arms the explicit "Yes, run <command>" confirmation, whose click runs it.
pub fn command_button(command: &str, destructive: bool, armed: bool, will_run: usize, total: usize) -> (r: (
    bool,
    String,
    CommandClick,
))
    ensures
        r.0 == (will_run > 0 && trim(command@).len() > 0),
        r.1@ == if armed && destructive {
            "Yes, run "@ + trim(command@)
        } else {
            "Run on "@ + decimal(will_run as nat) + " of "@ + decimal(total as nat)
        },
        r.2 == if !r.0 {
            CommandClick::Nothing
        } else if destructive && !armed {
            CommandClick::Arm
        } else {
            CommandClick::Dispatch
        },
{
    let v = chars_of(command);
    let (a, b) = span_trim(&v, 0, v.len());
    assert(v@.subrange(0, v@.len() as int) =~= v@);
    let trimmed = string_of(&v, a, b);
    let enabled = will_run > 0 && a < b;
    let label = if armed && destructive {
        let mut s = string_from("Yes, run ");
        push_str(&mut s, trimmed.as_str());
        s
    } else {
        run_label(will_run, total)
    };
    let click = if !enabled {
        CommandClick::Nothing
    } else if destructive && !armed {
        CommandClick::Arm
    } else {
        CommandClick::Dispatch
    };
    (enabled, label, click)
}

/// The custom command's COMMAND cell: "> <command>", or a dash without one.
pub fn command_cell(command: &str) -> (r: String)
    ensures
        r@ == if trim(command@).len() == 0 {
            "—"@
        } else {
            "> "@ + trim(command@)
        },
{
    let v = chars_of(command);
    let (a, b) = span_trim(&v, 0, v.len());
    assert(v@.subrange(0, v@.len() as int) =~= v@);
    if a == b {
        string_from("—")
    } else {
        let mut s = string_from("> ");
        let t = string_of(&v, a, b);
        push_str(&mut s, t.as_str());
        s
    }
}

/// The cascade's skip summary from each skip reason's label and count:
/// "N skipped (label)" parts joined by " · ", then " · will skip worktrees
/// with local changes"; "Nothing will be skipped." without skips.
pub open spec fn skip_summary_spec(parts: Seq<Seq<char>>) -> Seq<char> {
    if parts.len() == 0 {
        "Nothing will be skipped."@
    } else {
        join(parts, " · "@) + " · will skip worktrees with local changes"@
    }
}

/// One skip total's part: "N skipped (label)".
pub open spec fn skip_part(label: Seq<char>, n: nat) -> Seq<char> {
    decimal(n) + " skipped ("@ + label + ")"@
}

/// The cascade's skip summary over `(reason label, count)` totals.
pub fn skip_summary(totals: &[(String, usize)]) -> (r: String)
    ensures
        r@ == skip_summary_spec(totals@.map_values(|t: (String, usize)| skip_part(t.0@, t.1 as nat))),
{
    let ghost parts = totals@.map_values(|t: (String, usize)| skip_part(t.0@, t.1 as nat));
    let mut out: Vec<String> = Vec::new();
    let mut i: usize = 0;
    while i < totals.len()
        invariant
            0 <= i <= totals@.len(),
            parts == totals@.map_values(|t: (String, usize)| skip_part(t.0@, t.1 as nat)),
            crate::sorting::views(out@) == parts.take(i as int),
        decreases totals@.len() - i,
    {
        let mut p = String::new();
        crate::text::push_decimal(&mut p, totals[i].1 as u64);
        push_str(&mut p, " skipped (");
        push_str(&mut p, totals[i].0.as_str());
        push_str(&mut p, ")");
        let ghost before = crate::sorting::views(out@);
        out.push(p);
        assert(crate::sorting::views(out@) =~= before.push(parts[i as int]));
        assert(parts.take(i + 1) =~= parts.take(i as int).push(parts[i as int]));
        i += 1;
    }
    assert(parts.take(i as int) =~= parts);
    if out.len() == 0 {
        string_from("Nothing will be skipped.")
    } else {
        let mut s = join_strings(&out, " · ");
        push_str(&mut s, " · will skip worktrees with local changes");
        s
    }
}

} // verus!
