//! The cherry-pick-across dialog's text: a commit's subject, a short SHA, and
//! a patch split into its per-file sections for the preview.

use vstd::prelude::*;

use crate::domain::RootId;
use crate::sorting::views;
use crate::theme::Palette;
use crate::text::{
    chars_of, decimal, find, lowercase, to_lower, join, join_strings, push_decimal, first_line_of, first_line_spec, lemma_find_from, line_bounds, lines, push_char,
    push_str, span_find, span_starts_with, starts_with, string_from, string_of, take_chars,
    truncate_chars,
};

verus! {

broadcast use vstd::std_specs::vec::group_vec_axioms;

/// A commit's subject: the first line of its message.
pub fn subject(message: &str) -> (r: String)
    ensures
        r@ == first_line_spec(message@),
{
    first_line_of(message)
}

/// The short form of a SHA: its first seven characters.
pub fn short(sha: &str) -> (r: String)
    ensures
        r@ == take_chars(sha@, 7),
{
    truncate_chars(sha, 7)
}

/// One `diff --git` section of a patch: the new path, its hunk count, and
/// the verbatim section body.
pub struct PatchFile {
    pub path: String,
    pub hunks: usize,
    pub body: String,
}

/// The mathematical value of a [`PatchFile`].
pub struct PatchValue {
    pub path: Seq<char>,
    pub hunks: nat,
    pub body: Seq<char>,
}

impl View for PatchFile {
    type V = PatchValue;

    open spec fn view(&self) -> PatchValue {
        PatchValue { path: self.path@, hunks: self.hunks as nat, body: self.body@ }
    }
}

/// The new path of a `diff --git` header's remainder: what follows the
/// first ` b/`, or the whole remainder.
pub open spec fn header_path(rest: Seq<char>) -> Seq<char> {
    match find(rest, " b/"@) {
        Some(k) => rest.skip(k + 3),
        None => rest,
    }
}

/// One line read into the sections so far: a header starts a section, any
/// other line joins the last section (counting `@@ ` hunk headers), and
/// lines before the first header are dropped.
pub open spec fn patch_step(files: Seq<PatchValue>, line: Seq<char>) -> Seq<PatchValue> {
    if starts_with(line, "diff --git "@) {
        files.push(PatchValue { path: header_path(line.skip(11)), hunks: 0, body: line + "\n"@ })
    } else if files.len() > 0 {
        let f = files.last();
        files.update(
            files.len() - 1,
            PatchValue {
                path: f.path,
                hunks: if starts_with(line, "@@ "@) {
                    f.hunks + 1
                } else {
                    f.hunks
                },
                body: f.body + line + "\n"@,
            },
        )
    } else {
        files
    }
}

/// The sections of a sequence of lines.
pub open spec fn patch_sections(ls: Seq<Seq<char>>) -> Seq<PatchValue>
    decreases ls.len(),
{
    if ls.len() == 0 {
        seq![]
    } else {
        patch_step(patch_sections(ls.drop_last()), ls.last())
    }
}

/// Splits a patch into its `diff --git` sections.
pub fn split_patch(patch: &str) -> (r: Vec<PatchFile>)
    ensures
        views(r@) == patch_sections(lines(patch@)),
{
    let v = chars_of(patch);
    let bounds = line_bounds(&v);
    let ghost ls = lines(patch@);
    proof {
        reveal_strlit("diff --git ");
        reveal_strlit("@@ ");
        reveal_strlit(" b/");
        reveal_strlit("\n");
    }
    let hs = chars_of("diff --git ");
    let ks = chars_of("@@ ");
    let bs = chars_of(" b/");
    let mut files: Vec<PatchFile> = Vec::new();
    let mut i: usize = 0;
    assert(hs@.len() == 11 && ks@.len() == 3 && bs@.len() == 3);
    assert("\n"@ =~= seq!['\n']);
    while i < bounds.len()
        invariant
            0 <= i <= bounds@.len(),
            bounds@.len() == ls.len(),
            ls == lines(v@),
            v@ == patch@,
            hs@ == "diff --git "@,
            ks@ == "@@ "@,
            bs@ == " b/"@,
            hs@.len() == 11,
            ks@.len() == 3,
            bs@.len() == 3,
            "\n"@ == seq!['\n'],
            forall|k: int|
                0 <= k < bounds@.len() ==> {
                    let (a, b) = #[trigger] bounds@[k];
                    &&& a <= b <= v@.len()
                    &&& v@.subrange(a as int, b as int) == ls[k]
                },
            views(files@) == patch_sections(ls.take(i as int)),
            forall|k: int| 0 <= k < files@.len() ==> #[trigger] files@[k].hunks <= i,
        decreases bounds@.len() - i,
    {
        let (a, b) = bounds[i];
        let ghost line = ls[i as int];
        let ghost before = views(files@);
        assert(ls.take(i + 1).drop_last() =~= ls.take(i as int));
        assert(ls.take(i + 1).last() == line);
        let is_header = span_starts_with(&v, a, b, &hs);
        if is_header {
            let rest_from = a + hs.len();
            assert(v@.subrange(rest_from as int, b as int) =~= line.skip(11));
            let found = span_find(&v, rest_from, b, &bs);
            proof {
                lemma_find_from(line.skip(11), " b/"@, 0);
            }
            let path = match found {
                Some(k) => {
                    assert(v@.subrange(rest_from + k + 3, b as int) =~= line.skip(11).skip(k + 3));
                    string_of(&v, rest_from + k + 3, b)
                },
                None => string_of(&v, rest_from, b),
            };
            let mut body = string_of(&v, a, b);
            push_char(&mut body, '\n');
            assert(body@ =~= line + "\n"@);
            files.push(PatchFile { path, hunks: 0, body });
            assert(views(files@) =~= before.push(views(files@).last()));
        } else if files.len() > 0 {
            let is_hunk = span_starts_with(&v, a, b, &ks);
            let mut f = files.pop().unwrap();
            let ghost fv = f@;
            assert(before.last() == fv);
            if is_hunk {
                f.hunks = f.hunks + 1;
            }
            push_chars_of(&mut f.body, &v, a, b);
            push_char(&mut f.body, '\n');
            assert(f.body@ =~= fv.body + line + "\n"@);
            files.push(f);
            assert(views(files@) =~= before.update(before.len() - 1, views(files@).last()));
        }
        i += 1;
    }
    assert(ls.take(i as int) =~= ls);
    files
}

fn push_chars_of(s: &mut String, v: &Vec<char>, from: usize, to: usize)
    requires
        from <= to <= v@.len(),
    ensures
        final(s)@ == old(s)@ + v@.subrange(from as int, to as int),
{
    crate::text::push_chars(s, v, from, to);
}

// --- target forecasts ----------------------------------------------------------------

/// How risky a target looks.
#[derive(Clone, Copy, Debug, PartialEq, Eq, Structural)]
pub enum TargetRisk {
    Low,
    Medium,
    High,
}

/// The predicted fate of one pick in one target.
#[derive(Clone, Copy, Debug, PartialEq, Eq, Structural)]
pub enum PickForecast {
    CleanApply,
    CleanApplyDrifted,
    AlreadyPresent,
    Conflict { failed_hunks: usize },
}

/// The forecast of one target repository: how many picks apply of how
/// many, the risk, why the target is skipped (if it is), and each pick's
/// predicted fate in order.
#[derive(Clone, Debug, PartialEq, Eq)]
pub struct TargetForecast {
    pub applies: usize,
    pub total: usize,
    pub risk: TargetRisk,
    pub blocked: Option<String>,
    pub picks: Vec<PickForecast>,
}

/// The APPLIES column: "applies/total".
pub fn applies_text(t: &TargetForecast) -> (r: String)
    ensures
        r@ == decimal(t.applies as nat) + "/"@ + decimal(t.total as nat),
{
    let mut s = String::new();
    push_decimal(&mut s, t.applies as u64);
    push_str(&mut s, "/");
    push_decimal(&mut s, t.total as u64);
    s
}

/// The RISK column: the risk's word, or a dash for a skipped target.
pub fn risk_text(t: &TargetForecast) -> (r: &'static str)
    ensures
        r@ == if t.blocked is Some {
            "—"@
        } else {
            match t.risk {
                TargetRisk::Low => "Low"@,
                TargetRisk::Medium => "Medium"@,
                TargetRisk::High => "High"@,
            }
        },
{
    if t.blocked.is_some() {
        "—"
    } else {
        match t.risk {
            TargetRisk::Low => "Low",
            TargetRisk::Medium => "Medium",
            TargetRisk::High => "High",
        }
    }
}

/// The color the risk is painted with.
pub fn risk_color(t: &TargetForecast) -> (r: u32)
    ensures
        r == match t.risk {
            TargetRisk::Low => Palette::STATE_SUCCESS,
            TargetRisk::Medium => Palette::STATE_WARNING,
            TargetRisk::High => Palette::STATE_ERROR,
        },
{
    match t.risk {
        TargetRisk::Low => Palette::STATE_SUCCESS,
        TargetRisk::Medium => Palette::STATE_WARNING,
        TargetRisk::High => Palette::STATE_ERROR,
    }
}

/// How many picks of `ps` have the fate `f` (conflicts counted apart).
pub open spec fn count_fate(ps: Seq<PickForecast>, f: PickForecast) -> nat
    decreases ps.len(),
{
    if ps.len() == 0 {
        0
    } else {
        count_fate(ps.drop_last(), f) + if ps.last() == f {
            1nat
        } else {
            0nat
        }
    }
}

/// The failed-hunk count of the first conflicting pick.
pub open spec fn first_conflict(ps: Seq<PickForecast>) -> Option<nat>
    decreases ps.len(),
{
    if ps.len() == 0 {
        None
    } else {
        match first_conflict(ps.drop_last()) {
            Some(h) => Some(h),
            None => match ps.last() {
                PickForecast::Conflict { failed_hunks } => Some(failed_hunks as nat),
                _ => None,
            },
        }
    }
}

/// A one-element list when `b` holds, else an empty one.
pub open spec fn part_if(b: bool, part: Seq<char>) -> Seq<Seq<char>> {
    if b {
        seq![part]
    } else {
        seq![]
    }
}

/// The parts of a forecast's outcome: clean applies, applies with drift,
/// the first conflict's overlapping hunks, and picks already present.
pub open spec fn outcome_parts(ps: Seq<PickForecast>) -> Seq<Seq<char>> {
    let clean = count_fate(ps, PickForecast::CleanApply);
    let drifted = count_fate(ps, PickForecast::CleanApplyDrifted);
    let present = count_fate(ps, PickForecast::AlreadyPresent);
    part_if(clean > 0, "clean apply"@) + part_if(drifted > 0, decimal(drifted) + " apply with drift"@) + match first_conflict(ps) {
        Some(h) => seq![
            if h == 1 {
                "1 hunk overlaps — will stop for manual resolve"@
            } else {
                decimal(h) + " hunks overlap — will stop for manual resolve"@
            },
        ],
        None => seq![],
    } + part_if(present > 0, decimal(present) + " skipped — already present in history"@)
}

/// A forecast's display-ready outcome: why a skipped target is skipped, or
/// the outcome's parts joined by " · ", or a dash when there are none.
pub open spec fn forecast_outcome_spec(blocked: Option<Seq<char>>, ps: Seq<PickForecast>) -> Seq<char> {
    match blocked {
        Some(b) => "skipped — "@ + b,
        None => if outcome_parts(ps).len() == 0 {
            "—"@
        } else {
            join(outcome_parts(ps), " · "@)
        },
    }
}

/// The forecast's display-ready outcome, as in "clean apply", "1 hunk
/// overlaps — will stop for manual resolve", "skipped — already present in
/// history", "skipped — working tree is dirty".
pub fn outcome_text(t: &TargetForecast) -> (r: String)
    ensures
        r@ == forecast_outcome_spec(crate::diff_model::opt_view(t.blocked), t.picks@),
{
    if let Some(blocked) = &t.blocked {
        let mut s = string_from("skipped — ");
        push_str(&mut s, blocked.as_str());
        return s;
    }
    let ps = &t.picks;
    let mut clean: usize = 0;
    let mut drifted: usize = 0;
    let mut present: usize = 0;
    let mut conflict: Option<usize> = None;
    let mut i: usize = 0;
    while i < ps.len()
        invariant
            0 <= i <= ps@.len(),
            clean == count_fate(ps@.take(i as int), PickForecast::CleanApply),
            drifted == count_fate(ps@.take(i as int), PickForecast::CleanApplyDrifted),
            present == count_fate(ps@.take(i as int), PickForecast::AlreadyPresent),
            clean + drifted + present <= i,
            match conflict {
                Some(h) => first_conflict(ps@.take(i as int)) == Some(h as nat),
                None => first_conflict(ps@.take(i as int)) is None,
            },
        decreases ps@.len() - i,
    {
        assert(ps@.take(i + 1).drop_last() =~= ps@.take(i as int));
        assert(ps@.take(i + 1).last() == ps@[i as int]);
        match ps[i] {
            PickForecast::CleanApply => clean += 1,
            PickForecast::CleanApplyDrifted => drifted += 1,
            PickForecast::AlreadyPresent => present += 1,
            PickForecast::Conflict { failed_hunks } => {
                if conflict.is_none() {
                    conflict = Some(failed_hunks);
                }
            },
        }
        i += 1;
    }
    assert(ps@.take(i as int) =~= ps@);
    let mut parts: Vec<String> = Vec::new();
    if clean > 0 {
        parts.push(string_from("clean apply"));
    }
    if drifted > 0 {
        let mut p = String::new();
        push_decimal(&mut p, drifted as u64);
        push_str(&mut p, " apply with drift");
        parts.push(p);
    }
    match conflict {
        Some(h) => {
            if h == 1 {
                parts.push(string_from("1 hunk overlaps — will stop for manual resolve"));
            } else {
                let mut p = String::new();
                push_decimal(&mut p, h as u64);
                push_str(&mut p, " hunks overlap — will stop for manual resolve");
                parts.push(p);
            }
        },
        None => {},
    }
    if present > 0 {
        let mut p = String::new();
        push_decimal(&mut p, present as u64);
        push_str(&mut p, " skipped — already present in history");
        parts.push(p);
    }
    assert(views(parts@) =~= outcome_parts(ps@));
    if parts.len() == 0 {
        string_from("—")
    } else {
        join_strings(&parts, " · ")
    }
}

// --- the dialog's body ---------------------------------------------------------------

/// The target rows of the dialog: every repository but the source, in
/// order, with its display name and whether it is checked.
pub open spec fn target_rows_spec(roots: Seq<RootId>, source: Seq<char>, targets: Seq<RootId>) -> Seq<
    (Seq<char>, Seq<char>, bool),
>
    decreases roots.len(),
{
    if roots.len() == 0 {
        seq![]
    } else {
        let rest = target_rows_spec(roots.drop_last(), source, targets);
        let r = roots.last();
        if r.0@ == source {
            rest
        } else {
            rest.push(
                (
                    r.0@,
                    crate::domain::root_name_spec(r.0@),
                    exists|i: int| 0 <= i < targets.len() && (#[trigger] targets[i]).0@ == r.0@,
                ),
            )
        }
    }
}

fn id_listed(ids: &[RootId], id: &RootId) -> (r: bool)
    ensures
        r == exists|i: int| 0 <= i < ids@.len() && (#[trigger] ids@[i]).0@ == id.0@,
{
    let mut i: usize = 0;
    while i < ids.len()
        invariant
            0 <= i <= ids@.len(),
            forall|j: int| 0 <= j < i ==> (#[trigger] ids@[j]).0@ != id.0@,
        decreases ids@.len() - i,
    {
        if ids[i].same(id) {
            return true;
        }
        i += 1;
    }
    false
}

/// The TARGETS rows: every repository but the source, with its name and
/// whether it is checked as a target.
pub fn target_rows(roots: &[RootId], source: &RootId, targets: &[RootId]) -> (r: Vec<(RootId, String, bool)>)
    ensures
        r@.map_values(|t: (RootId, String, bool)| (t.0.0@, t.1@, t.2)) == target_rows_spec(roots@, source.0@, targets@),
{
    let mut out: Vec<(RootId, String, bool)> = Vec::new();
    let mut i: usize = 0;
    while i < roots.len()
        invariant
            0 <= i <= roots@.len(),
            out@.map_values(|t: (RootId, String, bool)| (t.0.0@, t.1@, t.2)) == target_rows_spec(
                roots@.take(i as int),
                source.0@,
                targets@,
            ),
        decreases roots@.len() - i,
    {
        assert(roots@.take(i + 1).drop_last() =~= roots@.take(i as int));
        assert(roots@.take(i + 1).last() == roots@[i as int]);
        if !roots[i].same(source) {
            let ghost before = out@.map_values(|t: (RootId, String, bool)| (t.0.0@, t.1@, t.2));
            let checked = id_listed(targets, &roots[i]);
            let name = roots[i].name();
            out.push((RootId(string_from(roots[i].0.as_str())), name, checked));
            assert(out@.map_values(|t: (RootId, String, bool)| (t.0.0@, t.1@, t.2)) =~= before.push(
                (roots@[i as int].0@, crate::domain::root_name_spec(roots@[i as int].0@), checked),
            ));
        }
        i += 1;
    }
    assert(roots@.take(i as int) =~= roots@);
    out
}

/// The header's note: "will apply in order · S of C selected".
pub fn selection_note(selected: usize, candidates: usize) -> (r: String)
    ensures
        r@ == "will apply in order · "@ + decimal(selected as nat) + " of "@ + decimal(candidates as nat) + " selected"@,
{
    let mut s = string_from("will apply in order · ");
    push_decimal(&mut s, selected as u64);
    push_str(&mut s, " of ");
    push_decimal(&mut s, candidates as u64);
    push_str(&mut s, " selected");
    s
}

/// The dialog's action button: enabled with at least one commit selected and
/// one target repository; "Cherry-pick to 1 repo" or "Cherry-pick to N
/// repos".
pub fn cherry_button(selected: usize, targets: usize) -> (r: (bool, String))
    ensures
        r.0 == (selected > 0 && targets > 0),
        r.1@ == if targets == 1 {
            "Cherry-pick to 1 repo"@
        } else {
            "Cherry-pick to "@ + decimal(targets as nat) + " repos"@
        },
{
    let label = if targets == 1 {
        string_from("Cherry-pick to 1 repo")
    } else {
        let mut s = string_from("Cherry-pick to ");
        push_decimal(&mut s, targets as u64);
        push_str(&mut s, " repos");
        s
    };
    (selected > 0 && targets > 0, label)
}

/// Whether a candidate commit shows under the lower-cased search `q`: with
/// no search every commit does; otherwise one whose lower-cased message or
/// author contains it, or whose id starts with it.
pub open spec fn candidate_visible(c: crate::domain::CommitValue, q: Seq<char>) -> bool {
    q.len() == 0 || find(to_lower(c.message), q) is Some || find(to_lower(c.author), q) is Some || starts_with(c.id, q)
}

/// Whether a candidate commit shows under the search text (see
/// [`candidate_visible`]; the search is lower-cased first).
pub fn commit_visible(c: &crate::domain::Commit, search: &str) -> (r: bool)
    ensures
        r == candidate_visible(c@, to_lower(search@)),
{
    let q = lowercase(search);
    let qv = chars_of(q.as_str());
    if qv.len() == 0 {
        return true;
    }
    let m = lowercase(c.message.as_str());
    let mv = chars_of(m.as_str());
    assert(mv@.subrange(0, mv@.len() as int) =~= mv@);
    if span_find(&mv, 0, mv.len(), &qv).is_some() {
        return true;
    }
    let a = lowercase(c.author.as_str());
    let av = chars_of(a.as_str());
    assert(av@.subrange(0, av@.len() as int) =~= av@);
    if span_find(&av, 0, av.len(), &qv).is_some() {
        return true;
    }
    let iv = chars_of(c.id.as_str());
    assert(iv@.subrange(0, iv@.len() as int) =~= iv@);
    span_starts_with(&iv, 0, iv.len(), &qv)
}

} // verus!
