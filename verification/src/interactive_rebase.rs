//! The interactive-rebase editor's plan vocabulary and the result
//! preview's lines.

use vstd::prelude::*;

use crate::sorting::views;
use crate::text::{byte_cut, byte_cut_ok, cut_at_byte, decimal, join, push_decimal, push_str, string_from};

verus! {

/// What a rebase plan does with one commit.
#[derive(Clone, Copy, Debug, PartialEq, Eq, Structural)]
pub enum RebaseAction {
    Pick,
    Reword,
    Edit,
    Squash,
    Fixup,
    Drop,
}

/// The lowercase verb of an action.
pub open spec fn verb_spec(action: RebaseAction) -> Seq<char> {
    match action {
        RebaseAction::Pick => "pick"@,
        RebaseAction::Reword => "reword"@,
        RebaseAction::Edit => "edit"@,
        RebaseAction::Squash => "squash"@,
        RebaseAction::Fixup => "fixup"@,
        RebaseAction::Drop => "drop"@,
    }
}

/// The lowercase verb a plan action renders as.
pub fn verb(action: &RebaseAction) -> (r: &'static str)
    ensures
        r@ == verb_spec(*action),
{
    match action {
        RebaseAction::Pick => "pick",
        RebaseAction::Reword => "reword",
        RebaseAction::Edit => "edit",
        RebaseAction::Squash => "squash",
        RebaseAction::Fixup => "fixup",
        RebaseAction::Drop => "drop",
    }
}

/// The first seven bytes of a commit SHA: the plan rows' short form.
pub fn short(sha: &str) -> (r: String)
    requires
        byte_cut_ok(sha@, 7),
    ensures
        r@ == byte_cut(sha@, 7),
{
    cut_at_byte(sha, 7)
}

/// The result preview's counts badge: "N → M COMMITS".
pub fn counts_badge(before: usize, after: usize) -> (r: String)
    ensures
        r@ == decimal(before as nat) + " → "@ + decimal(after as nat) + " COMMITS"@,
{
    let mut s = String::new();
    push_decimal(&mut s, before as u64);
    push_str(&mut s, " → ");
    push_decimal(&mut s, after as u64);
    push_str(&mut s, " COMMITS");
    s
}

/// The short forms of a fold group's commits.
pub open spec fn short_forms(shas: Seq<Seq<char>>) -> Seq<Seq<char>> {
    shas.map_values(|s: Seq<char>| byte_cut(s, 7))
}

/// One fold group of the preview: "a + b folded into c", each SHA short.
pub fn fold_line(folded: &[String], into: &str) -> (r: String)
    requires
        forall|k: int| 0 <= k < folded@.len() ==> byte_cut_ok(#[trigger] folded@[k]@, 7),
        byte_cut_ok(into@, 7),
    ensures
        r@ == join(short_forms(views(folded@)), " + "@) + " folded into "@ + byte_cut(into@, 7),
{
    let ghost fv = views(folded@);
    let mut parts: Vec<String> = Vec::new();
    let mut i: usize = 0;
    while i < folded.len()
        invariant
            0 <= i <= folded@.len(),
            fv == views(folded@),
            forall|k: int| 0 <= k < folded@.len() ==> byte_cut_ok(#[trigger] folded@[k]@, 7),
            views(parts@) == short_forms(fv.take(i as int)),
        decreases folded@.len() - i,
    {
        let ghost before = views(parts@);
        parts.push(short(folded[i].as_str()));
        assert(short_forms(fv.take(i + 1)) =~= short_forms(fv.take(i as int)).push(byte_cut(fv[i as int], 7)));
        assert(views(parts@) =~= before.push(byte_cut(fv[i as int], 7)));
        i += 1;
    }
    assert(fv.take(i as int) =~= fv);
    let mut s = crate::text::join_strings(&parts, " + ");
    push_str(&mut s, " folded into ");
    let tail = short(into);
    push_str(&mut s, tail.as_str());
    s
}

/// The preview's dropped count: "1 commit dropped", "N commits dropped",
/// nothing when none is dropped.
pub fn dropped_line(dropped: usize) -> (r: Option<String>)
    ensures
        dropped == 0 ==> r is None,
        dropped > 0 ==> (r matches Some(s) && s@ == decimal(dropped as nat) + (if dropped == 1 {
            " commit"@
        } else {
            " commits"@
        }) + " dropped"@),
{
    if dropped == 0 {
        return None;
    }
    let mut s = String::new();
    push_decimal(&mut s, dropped as u64);
    push_str(&mut s, if dropped == 1 {
        " commit"
    } else {
        " commits"
    });
    push_str(&mut s, " dropped");
    Some(s)
}

} // verus!
