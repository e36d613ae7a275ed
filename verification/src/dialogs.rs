//! The dialogs' rules: what each dialog shows and what its confirming button
//! dispatches — the new-branch start point, the rename target, the tag to
//! create and its picker rows, the merge and rebase wording, and the branch
//! comparison listing.

use vstd::prelude::*;

use crate::domain::{Branch, BranchKind, BranchValue, Commit, CommitValue};
use crate::sorting::views;
use crate::diff_model::copy_string;
use crate::text::{
    byte_cut, byte_cut_ok, chars_of, decimal, push_decimal, trim, cut_at_byte, first_line_of, first_line_spec, push_str, span_words, string_from, string_of, take_chars, truncate_chars,
    words, is_ws, run_end_from, ws_lead_from, str_eq, trimmed,
};

verus! {

/// The commit-ish of a target row: its first whitespace-separated word, or
/// the whole row when it has none.
pub open spec fn target_commitish_spec(row: Seq<char>) -> Seq<char> {
    if words(row).len() > 0 {
        words(row)[0]
    } else {
        row
    }
}

/// The commit-ish dispatched for a picked target row: the short SHA prefix.
pub fn target_commitish(row: &str) -> (r: String)
    ensures
        r@ == target_commitish_spec(row@),
{
    let v = chars_of(row);
    let w = span_words(&v, 0, v.len());
    assert(v@.subrange(0, v@.len() as int) =~= v@);
    if w.len() > 0 {
        let (a, b) = w[0];
        string_of(&v, a, b)
    } else {
        string_from(row)
    }
}

/// The signing-key chip: the first seventeen characters, with an ellipsis
/// when the key is longer.
pub open spec fn shorten_key_spec(key: Seq<char>) -> Seq<char> {
    if key.len() > 17 {
        key.take(17) + "…"@
    } else {
        key
    }
}

/// The signing-key chip: at most the first groups of the fingerprint or key
/// id.
pub fn shorten_key(key: &str) -> (r: String)
    ensures
        r@ == shorten_key_spec(key@),
{
    let mut head = truncate_chars(key, 17);
    let n = chars_of(key).len();
    if n > 17 {
        push_str(&mut head, "…");
    }
    head
}

/// The target picker row for a commit: "<short-sha>  <subject>", the SHA cut
/// at its seventh byte.
pub fn commit_row_label(c: &Commit) -> (r: String)
    requires
        byte_cut_ok(c.id@, 7),
    ensures
        r@ == byte_cut(c.id@, 7) + "  "@ + first_line_spec(c.message@),
{
    let mut out = cut_at_byte(c.id.as_str(), 7);
    push_str(&mut out, "  ");
    let subject = first_line_of(c.message.as_str());
    push_str(&mut out, subject.as_str());
    proof {
        reveal_strlit("  ");
    }
    out
}

// --- merge and rebase wording ---------------------------------------------------------

/// The operation label of a merge: "Merge <target> (N commits)" when the
/// preview counted incoming commits, else "Merge <target>".
pub fn merge_label(target: &str, commits: usize) -> (r: String)
    ensures
        r@ == "Merge "@ + target@ + if commits > 0 {
            " ("@ + decimal(commits as nat) + " commits)"@
        } else {
            seq![]
        },
{
    let mut s = string_from("Merge ");
    push_str(&mut s, target);
    if commits > 0 {
        push_str(&mut s, " (");
        push_decimal(&mut s, commits as u64);
        push_str(&mut s, " commits)");
    }
    proof {
        reveal_strlit("");
    }
    s
}

/// The cascade banner of the merge dialog.
pub fn cascade_banner_text(siblings: usize) -> (r: String)
    ensures
        r@ == "⚠ Cascade with "@ + decimal(siblings as nat) + " other "@ + (if siblings == 1 {
            "repo"@
        } else {
            "repos"@
        }) + " after this merge"@,
{
    let mut s = string_from("⚠ Cascade with ");
    push_decimal(&mut s, siblings as u64);
    push_str(&mut s, " other ");
    push_str(&mut s, if siblings == 1 {
        "repo"
    } else {
        "repos"
    });
    push_str(&mut s, " after this merge");
    s
}

/// The cross-repository banner of the rebase dialog.
pub fn rebase_banner_text(commits: usize, repos: usize) -> (r: String)
    ensures
        r@ == "⚠ Rewrites "@ + decimal(commits as nat) + " commits across "@ + decimal(repos as nat) + " "@ + (if repos
            == 1 {
            "repo"@
        } else {
            "repos"@
        }),
{
    let mut s = string_from("⚠ Rewrites ");
    push_decimal(&mut s, commits as u64);
    push_str(&mut s, " commits across ");
    push_decimal(&mut s, repos as u64);
    push_str(&mut s, " ");
    push_str(&mut s, if repos == 1 {
        "repo"
    } else {
        "repos"
    });
    s
}

/// How a rebase runs.
#[derive(Clone, Copy, Debug, PartialEq, Eq, Structural)]
pub enum RebaseMode {
    Interactive,
    Standard,
    Autosquash,
}

/// The rebase dialog's start button and the operation's label, per mode.
pub fn rebase_start(mode: RebaseMode, onto: &str) -> (r: (&'static str, String))
    ensures
        (r.0@, r.1@) == match mode {
            RebaseMode::Interactive => ("Start interactive rebase"@, "Interactive rebase"@),
            RebaseMode::Standard => ("Start rebase"@, "Rebase onto "@ + onto@),
            RebaseMode::Autosquash => ("Start autosquash rebase"@, "Autosquash rebase onto "@ + onto@),
        },
{
    match mode {
        RebaseMode::Interactive => ("Start interactive rebase", string_from("Interactive rebase")),
        RebaseMode::Standard => {
            let mut s = string_from("Rebase onto ");
            push_str(&mut s, onto);
            ("Start rebase", s)
        },
        RebaseMode::Autosquash => {
            let mut s = string_from("Autosquash rebase onto ");
            push_str(&mut s, onto);
            ("Start autosquash rebase", s)
        },
    }
}

/// Whether the rebase can start, and why not: an onto branch must be picked
/// (`onto` has more than whitespace) and the current branch must not be
/// protected (history rewrites are blocked there). The hint names the
/// protected branch (or "…" without one), else asks for an onto branch.
pub fn rebase_gate(onto: &str, protected: bool, current: Option<&str>) -> (r: (bool, String))
    ensures
        r.0 == (trim(onto@).len() > 0 && !protected),
        r.1@ == if protected {
            "'"@ + match current {
                Some(c) => c@,
                None => "…"@,
            } + "' is a protected branch — rebasing it is not allowed"@
        } else {
            "Pick an onto branch first"@
        },
{
    let v = chars_of(onto);
    let (a, b) = crate::text::span_trim(&v, 0, v.len());
    assert(v@.subrange(0, v@.len() as int) =~= v@);
    let hint = if protected {
        let mut s = string_from("'");
        match current {
            Some(c) => push_str(&mut s, c),
            None => push_str(&mut s, "…"),
        }
        push_str(&mut s, "' is a protected branch — rebasing it is not allowed");
        s
    } else {
        string_from("Pick an onto branch first")
    };
    (a < b && !protected, hint)
}

// --- branch comparison ---------------------------------------------------------------

/// The comparison dialog's heading: how many commits of `left` the `right`
/// branch lacks.
pub fn compare_heading(count: usize, left: &str, right: &str) -> (r: String)
    ensures
        r@ == decimal(count as nat) + " commit(s) in '"@ + left@ + "' missing from '"@ + right@ + "'"@,
{
    let mut s = String::new();
    push_decimal(&mut s, count as u64);
    push_str(&mut s, " commit(s) in '");
    push_str(&mut s, left);
    push_str(&mut s, "' missing from '");
    push_str(&mut s, right);
    push_str(&mut s, "'");
    s
}

/// The subject a loaded log gives a commit: the message of the last log
/// entry with that id, empty when the log holds none.
pub open spec fn log_subject(log: Seq<CommitValue>, id: Seq<char>) -> Seq<char>
    decreases log.len(),
{
    if log.len() == 0 {
        seq![]
    } else if log.last().id == id {
        log.last().message
    } else {
        log_subject(log.drop_last(), id)
    }
}

/// One listed commit of the comparison: the SHA cut at its seventh byte,
/// then two spaces and the subject when the log knows one.
pub open spec fn compare_line_spec(id: Seq<char>, subject: Seq<char>) -> Seq<char> {
    if subject.len() == 0 {
        byte_cut(id, 7)
    } else {
        byte_cut(id, 7) + "  "@ + subject
    }
}

/// The subject of commit `id` in `log`.
fn subject_in_log(log: &[Commit], id: &str) -> (r: String)
    ensures
        r@ == log_subject(views(log@), id@),
{
    let ghost lv = views(log@);
    let mut found = String::new();
    let mut i: usize = 0;
    while i < log.len()
        invariant
            0 <= i <= log@.len(),
            lv == views(log@),
            found@ == log_subject(lv.take(i as int), id@),
        decreases log@.len() - i,
    {
        assert(lv.take(i as int + 1).drop_last() =~= lv.take(i as int));
        assert(lv.take(i as int + 1).last() == log@[i as int]@);
        if str_eq(log[i].id.as_str(), id) {
            found = copy_string(&log[i].message);
        }
        i = i + 1;
    }
    assert(lv.take(log@.len() as int) =~= lv);
    found
}

/// The comparison dialog's commit lines, one per listed commit, each subject
/// taken from the loaded log.
pub fn compare_lines(commits: &Vec<String>, log: &[Commit]) -> (r: Vec<String>)
    requires
        forall|k: int| 0 <= k < commits@.len() ==> byte_cut_ok(#[trigger] commits@[k]@, 7),
    ensures
        r@.len() == commits@.len(),
        forall|k: int|
            0 <= k < commits@.len() ==> #[trigger] r@[k]@ == compare_line_spec(
                commits@[k]@,
                log_subject(views(log@), commits@[k]@),
            ),
{
    let mut out: Vec<String> = Vec::new();
    let mut i: usize = 0;
    while i < commits.len()
        invariant
            0 <= i <= commits@.len(),
            out@.len() == i,
            forall|k: int| 0 <= k < commits@.len() ==> byte_cut_ok(#[trigger] commits@[k]@, 7),
            forall|k: int|
                0 <= k < i ==> #[trigger] out@[k]@ == compare_line_spec(
                    commits@[k]@,
                    log_subject(views(log@), commits@[k]@),
                ),
        decreases commits@.len() - i,
    {
        let c = commits[i].as_str();
        let subject = subject_in_log(log, c);
        let mut line = cut_at_byte(c, 7);
        if subject.as_str().unicode_len() > 0 {
            push_str(&mut line, "  ");
            push_str(&mut line, subject.as_str());
        }
        proof {
            reveal_strlit("  ");
        }
        out.push(line);
        i = i + 1;
    }
    out
}

// --- new branch, rename, tag -----------------------------------------------------------

/// The start point shown for a new branch: the typed base, or the current
/// branch while none is typed.
pub fn new_branch_base(base: &str, current: Option<&str>) -> (r: String)
    ensures
        r@ == if base@.len() == 0 {
            match current {
                Some(c) => c@,
                None => base@,
            }
        } else {
            base@
        },
{
    if base.unicode_len() == 0 {
        if let Some(c) = current {
            return string_from(c);
        }
    }
    string_from(base)
}

/// The names of the local branches among `bs`, in order.
pub open spec fn local_names(bs: Seq<BranchValue>) -> Seq<Seq<char>>
    decreases bs.len(),
{
    if bs.len() == 0 {
        seq![]
    } else if bs.last().kind == BranchKind::Local {
        local_names(bs.drop_last()).push(bs.last().name)
    } else {
        local_names(bs.drop_last())
    }
}

/// The new-branch base picker: the root's local branch names, in order.
pub fn local_branch_names(branches: &[Branch]) -> (r: Vec<String>)
    ensures
        views(r@) == local_names(views(branches@)),
{
    let ghost bv = views(branches@);
    let mut out: Vec<String> = Vec::new();
    let mut i: usize = 0;
    while i < branches.len()
        invariant
            0 <= i <= branches@.len(),
            bv == views(branches@),
            views(out@) == local_names(bv.take(i as int)),
        decreases branches@.len() - i,
    {
        assert(bv.take(i as int + 1).drop_last() =~= bv.take(i as int));
        assert(bv.take(i as int + 1).last() == branches@[i as int]@);
        if branches[i].kind == BranchKind::Local {
            let name = copy_string(&branches[i].name);
            let ghost before = out@;
            out.push(name);
            assert(views(out@) =~= views(before).push(branches@[i as int].name@));
        }
        i = i + 1;
    }
    assert(bv.take(branches@.len() as int) =~= bv);
    out
}

/// What Create dispatches for a new branch: the operation's label and the
/// start point, none when the base is blank.
pub fn new_branch_request(name: &str, base: &str) -> (r: (String, Option<String>))
    ensures
        r.0@ == "Create branch "@ + name@,
        match r.1 {
            Some(b) => trim(base@).len() > 0 && b@ == base@,
            None => trim(base@).len() == 0,
        },
{
    let mut label = string_from("Create branch ");
    push_str(&mut label, name);
    let t = trimmed(base);
    let start = if t.as_str().unicode_len() == 0 {
        None
    } else {
        Some(string_from(base))
    };
    (label, start)
}

/// The rename dialog's prompt.
pub fn rename_prompt(old: &str) -> (r: String)
    ensures
        r@ == "Rename '"@ + old@ + "' to:"@,
{
    let mut s = string_from("Rename '");
    push_str(&mut s, old);
    push_str(&mut s, "' to:");
    s
}

/// The new name a Rename press dispatches: the trimmed input, or nothing
/// (the dialog stays open) when it is blank or unchanged.
pub fn rename_target(old: &str, input: &str) -> (r: Option<String>)
    ensures
        match r {
            Some(n) => n@ == trim(input@) && trim(input@).len() > 0 && trim(input@) != old@,
            None => trim(input@).len() == 0 || trim(input@) == old@,
        },
{
    let new = trimmed(input);
    if new.as_str().unicode_len() > 0 && !str_eq(new.as_str(), old) {
        Some(new)
    } else {
        None
    }
}

/// A tag's type.
#[derive(Clone, Copy, Debug, PartialEq, Eq, Structural)]
pub enum TagKind {
    Lightweight,
    Annotated,
}

/// What Create tag asks for.
pub struct TagRequest {
    pub name: String,
    /// The commit-ish to tag; HEAD when absent.
    pub target: Option<String>,
    pub message: Option<String>,
    pub tagger: Option<String>,
    pub sign: bool,
}

/// The tag a Create press asks for: the trimmed name; the picked target
/// row's commit-ish (HEAD when none was picked); for an annotated tag its
/// message unless blank, its trimmed tagger unless blank, and the signing
/// choice. A lightweight tag carries none of the three.
pub fn tag_request(
    name: &str,
    target_row: &str,
    kind: TagKind,
    message: &str,
    tagger: &str,
    sign: bool,
) -> (r: TagRequest)
    ensures
        r.name@ == trim(name@),
        match r.target {
            Some(t) => target_row@.len() > 0 && t@ == target_commitish_spec(target_row@),
            None => target_row@.len() == 0,
        },
        match r.message {
            Some(m) => kind == TagKind::Annotated && trim(message@).len() > 0 && m@ == message@,
            None => !(kind == TagKind::Annotated && trim(message@).len() > 0),
        },
        match r.tagger {
            Some(t) => kind == TagKind::Annotated && trim(tagger@).len() > 0 && t@ == trim(tagger@),
            None => !(kind == TagKind::Annotated && trim(tagger@).len() > 0),
        },
        r.sign == (kind == TagKind::Annotated && sign),
{
    let annotated = kind == TagKind::Annotated;
    let target = if target_row.unicode_len() > 0 {
        Some(target_commitish(target_row))
    } else {
        None
    };
    let message = if annotated && trimmed(message).as_str().unicode_len() > 0 {
        Some(string_from(message))
    } else {
        None
    };
    let t = trimmed(tagger);
    let tagger = if annotated && t.as_str().unicode_len() > 0 {
        Some(t)
    } else {
        None
    };
    TagRequest { name: trimmed(name), target, message, tagger, sign: annotated && sign }
}

/// The operation label of creating tag `name`.
pub fn tag_label(name: &str) -> (r: String)
    ensures
        r@ == "Create tag "@ + trim(name@),
{
    let mut s = string_from("Create tag ");
    let t = trimmed(name);
    push_str(&mut s, t.as_str());
    s
}

/// The tag dialog's TARGET line: "HEAD on <current branch>" (or "…"
/// without one) until a commit is picked, then the picked row.
pub fn tag_target_caption(target_row: &str, current: Option<&str>) -> (r: String)
    ensures
        r@ == if target_row@.len() == 0 {
            "HEAD on "@ + match current {
                Some(c) => c@,
                None => "…"@,
            }
        } else {
            target_row@
        },
{
    if target_row.unicode_len() == 0 {
        let mut s = string_from("HEAD on ");
        match current {
            Some(c) => push_str(&mut s, c),
            None => push_str(&mut s, "…"),
        }
        s
    } else {
        string_from(target_row)
    }
}

/// The tag name's validation chip: "✓ valid" when the name passed, else the
/// reason it failed; the flag says whether it passed (and so whether Create
/// tag is enabled).
pub fn tag_validation(v: &Result<(), String>) -> (r: (String, bool))
    ensures
        r.1 == v is Ok,
        r.0@ == match v {
            Ok(_) => "✓ valid"@,
            Err(reason) => reason@,
        },
{
    match v {
        Ok(_) => (string_from("✓ valid"), true),
        Err(reason) => (copy_string(reason), false),
    }
}

proof fn lemma_run_to(s: Seq<char>, i: int, e: int)
    requires
        0 <= i <= e < s.len(),
        forall|k: int| i <= k < e ==> !is_ws(#[trigger] s[k]),
        is_ws(s[e]),
    ensures
        run_end_from(s, i) == e,
    decreases e - i,
{
    if i < e {
        lemma_run_to(s, i + 1, e);
    }
}

/// A picked target row dispatches the commit's short SHA: when the SHA's
/// first seven bytes hold no whitespace, the commit-ish of the commit's row
/// label is exactly that short SHA.
pub proof fn lemma_row_dispatches_sha(id: Seq<char>, subject: Seq<char>)
    requires
        byte_cut(id, 7).len() > 0,
        forall|k: int| 0 <= k < byte_cut(id, 7).len() ==> !is_ws(#[trigger] byte_cut(id, 7)[k]),
    ensures
        target_commitish_spec(byte_cut(id, 7) + "  "@ + subject) == byte_cut(id, 7),
{
    reveal_strlit("  ");
    let c = byte_cut(id, 7);
    let s = c + "  "@ + subject;
    assert(s[c.len() as int] == ' ');
    assert forall|k: int| 0 <= k < c.len() implies !is_ws(#[trigger] s[k]) by {
        assert(s[k] == c[k]);
    }
    assert(!is_ws(s[0]));
    assert(ws_lead_from(s, 0) == 0);
    lemma_run_to(s, 0, c.len() as int);
    assert(s.subrange(0, c.len() as int) =~= c);
    assert(words(s)[0] == c);
}

} // verus!
