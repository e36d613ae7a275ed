//! The log window's rules: which commits the graph lists and in what order,
//! character-safe truncation and short ids.

use vstd::prelude::*;

use crate::clock::{age_at, fmt_time, four_digit_years, is_date_time_text, local_date_time, now_secs, offset_ok, relative_age};
use crate::branch_tree_view::{pair_listed, toggle_collapsed, TreeEvent, TreeGroup};
use crate::domain::{Change, ChangeStatus, ChangeValue, Commit, CommitValue, RootId};
use crate::sorting::{lemma_sort_sorted, sort_by_spec, sorted_by, stable_sort, strict_weak_order, views, ViewOrder};
use crate::text::{
    decimal, join, join_strings, push_decimal, push_str, string_from,
    chars_of, find, lemma_str_less_order, lowercase, span_eq, span_find, str_less, str_lt, take_chars, to_lower,
    truncate_chars,
};

verus! {

/// Truncates a string to at most `n` characters without splitting one.
pub fn truncate(s: &str, n: usize) -> (r: String)
    ensures
        r@ == take_chars(s@, n as nat),
{
    truncate_chars(s, n)
}

/// The short form of a commit id: its first seven characters.
pub fn short(id: &str) -> (r: String)
    ensures
        r@ == take_chars(id@, 7),
{
    truncate(id, 7)
}

/// Newest first, ties by id.
pub open spec fn newest_first(a: CommitValue, b: CommitValue) -> bool {
    a.time > b.time || (a.time == b.time && str_less(a.id, b.id))
}

/// A commit matches the lower-cased search text when its message, id or
/// author contains it, case-insensitively.
pub open spec fn commit_matches(c: CommitValue, f: Seq<char>) -> bool {
    find(to_lower(c.message), f) is Some || find(to_lower(c.id), f) is Some || find(
        to_lower(c.author),
        f,
    ) is Some
}

/// The commits of `s` that match `f`, in order.
pub open spec fn keep_commits(s: Seq<CommitValue>, f: Seq<char>) -> Seq<CommitValue>
    decreases s.len(),
{
    if s.len() == 0 {
        s
    } else if commit_matches(s.last(), f) {
        keep_commits(s.drop_last(), f).push(s.last())
    } else {
        keep_commits(s.drop_last(), f)
    }
}

/// Whether some commit of `s` has id `id`.
pub open spec fn has_id(s: Seq<CommitValue>, id: Seq<char>) -> bool {
    exists|i: int| 0 <= i < s.len() && (#[trigger] s[i]).id == id
}

/// The code-change hits appended in order, each unless its id is listed.
pub open spec fn add_hits(s: Seq<CommitValue>, hits: Seq<CommitValue>) -> Seq<CommitValue>
    decreases hits.len(),
{
    if hits.len() == 0 {
        s
    } else {
        let t = add_hits(s, hits.drop_last());
        if has_id(t, hits.last().id) {
            t
        } else {
            t.push(hits.last())
        }
    }
}

/// The commits the graph lists: the listing newest first; with search text,
/// only the matching ones plus (outside a path scope) the code-change hits
/// not already listed, newest first again.
pub open spec fn visible_spec(
    listed: Seq<CommitValue>,
    filter: Seq<char>,
    hits: Seq<CommitValue>,
    path_scoped: bool,
) -> Seq<CommitValue> {
    let order = |a: CommitValue, b: CommitValue| newest_first(a, b);
    let sorted = sort_by_spec(listed, order);
    let f = to_lower(filter);
    if f.len() == 0 {
        sorted
    } else if path_scoped {
        keep_commits(sorted, f)
    } else {
        sort_by_spec(add_hits(keep_commits(sorted, f), hits), order)
    }
}

proof fn lemma_newest_first_order()
    ensures
        strict_weak_order(|a: CommitValue, b: CommitValue| newest_first(a, b)),
{
    let less = |a: CommitValue, b: CommitValue| newest_first(a, b);
    assert forall|a: CommitValue| !#[trigger] less(a, a) by {
        lemma_str_less_order(a.id, a.id, a.id);
    }
    assert forall|a: CommitValue, b: CommitValue, c: CommitValue| #![trigger less(a, b), less(b, c)]
        less(a, b) && less(b, c) implies less(a, c) by {
        lemma_str_less_order(a.id, b.id, c.id);
    }
    assert forall|a: CommitValue, b: CommitValue, c: CommitValue| #![trigger less(a, b), less(b, c), less(a, c)]
        !less(a, b) && !less(b, c) implies !less(a, c) by {
        lemma_str_less_order(a.id, b.id, c.id);
        lemma_str_less_order(b.id, a.id, c.id);
        lemma_str_less_order(a.id, c.id, b.id);
        lemma_str_less_order(c.id, b.id, a.id);
        lemma_str_less_order(b.id, c.id, a.id);
        lemma_str_less_order(c.id, a.id, b.id);
    }
}

proof fn lemma_keep_sorted(s: Seq<CommitValue>, f: Seq<char>)
    requires
        sorted_by(s, |a: CommitValue, b: CommitValue| newest_first(a, b)),
    ensures
        sorted_by(keep_commits(s, f), |a: CommitValue, b: CommitValue| newest_first(a, b)),
        forall|k: int| 0 <= k < keep_commits(s, f).len() ==> s.contains(#[trigger] keep_commits(s, f)[k]),
    decreases s.len(),
{
    let less = |a: CommitValue, b: CommitValue| newest_first(a, b);
    if s.len() > 0 {
        let d = s.drop_last();
        assert(sorted_by(d, less)) by {
            assert forall|i: int, j: int| 0 <= i < j < d.len() implies !less(d[j], d[i]) by {
                assert(d[i] == s[i] && d[j] == s[j]);
            }
        }
        lemma_keep_sorted(d, f);
        let kd = keep_commits(d, f);
        assert forall|k: int| 0 <= k < kd.len() implies s.contains(#[trigger] kd[k]) by {
            let q = choose|q: int| 0 <= q < d.len() && d[q] == kd[k];
            assert(s[q] == d[q]);
        }
        if commit_matches(s.last(), f) {
            let r = kd.push(s.last());
            assert forall|i: int, j: int| 0 <= i < j < r.len() implies !less(r[j], r[i]) by {
                if j == r.len() - 1 {
                    let q = choose|q: int| 0 <= q < d.len() && d[q] == kd[i];
                    assert(s[q] == kd[i]);
                    assert(!less(s[s.len() - 1], s[q]));
                }
            }
            assert forall|k: int| 0 <= k < r.len() implies s.contains(#[trigger] r[k]) by {
                if k == r.len() - 1 {
                    assert(s[s.len() - 1] == r[k]);
                } else {
                    assert(r[k] == kd[k]);
                }
            }
        }
    }
}

/// The graph lists its commits newest first, ties by id: whatever the
/// listing, search and code-change hits, the visible commits are sorted by
/// time, newest first, and then by id.
pub proof fn lemma_visible_sorted(
    listed: Seq<CommitValue>,
    filter: Seq<char>,
    hits: Seq<CommitValue>,
    path_scoped: bool,
)
    ensures
        sorted_by(visible_spec(listed, filter, hits, path_scoped), |a: CommitValue, b: CommitValue| newest_first(a, b)),
{
    let less = |a: CommitValue, b: CommitValue| newest_first(a, b);
    lemma_newest_first_order();
    lemma_sort_sorted(listed, less);
    let sorted = sort_by_spec(listed, less);
    let f = to_lower(filter);
    if f.len() > 0 {
        if path_scoped {
            lemma_keep_sorted(sorted, f);
        } else {
            lemma_sort_sorted(add_hits(keep_commits(sorted, f), hits), less);
        }
    }
}

/// No two commits of `s` share an id.
pub open spec fn ids_unique(s: Seq<CommitValue>) -> bool {
    forall|i: int, j: int| 0 <= i < j < s.len() ==> (#[trigger] s[i]).id != (#[trigger] s[j]).id
}

/// Code-change hits never repeat a listed commit: adding them to a listing
/// whose ids are distinct keeps the ids distinct, and every commit of the
/// listing stays.
pub proof fn lemma_hits_not_repeated(s: Seq<CommitValue>, hits: Seq<CommitValue>)
    requires
        ids_unique(s),
    ensures
        ids_unique(add_hits(s, hits)),
        add_hits(s, hits).len() >= s.len(),
        forall|k: int| 0 <= k < s.len() ==> #[trigger] add_hits(s, hits)[k] == s[k],
    decreases hits.len(),
{
    if hits.len() > 0 {
        lemma_hits_not_repeated(s, hits.drop_last());
        let t = add_hits(s, hits.drop_last());
        let h = hits.last();
        if !has_id(t, h.id) {
            let r = t.push(h);
            assert forall|i: int, j: int| 0 <= i < j < r.len() implies (#[trigger] r[i]).id != (#[trigger] r[j]).id by {
                if j == r.len() - 1 {
                    assert(r[i] == t[i]);
                    if t[i].id == h.id {
                        assert(has_id(t, h.id));
                    }
                }
            }
            assert forall|k: int| 0 <= k < s.len() implies #[trigger] r[k] == s[k] by {
                assert(r[k] == t[k]);
            }
        }
    }
}

/// A commit ordered newest first.
struct NewestFirst(Commit);

impl View for NewestFirst {
    type V = CommitValue;

    closed spec fn view(&self) -> CommitValue {
        self.0@
    }
}

impl ViewOrder for NewestFirst {
    open spec fn view_less(a: CommitValue, b: CommitValue) -> bool {
        newest_first(a, b)
    }

    fn lt(&self, other: &Self) -> (r: bool) {
        self.0.time > other.0.time || (self.0.time == other.0.time && str_lt(
            self.0.id.as_str(),
            other.0.id.as_str(),
        ))
    }
}

fn newest_first_sorted(v: Vec<Commit>) -> (r: Vec<Commit>)
    ensures
        views(r@) == sort_by_spec(views(v@), |a: CommitValue, b: CommitValue| newest_first(a, b)),
{
    let mut wrapped: Vec<NewestFirst> = Vec::new();
    let ghost vv = views(v@);
    let ghost orig = v@;
    for c in it: v.into_iter()
        invariant
            orig == it.seq(),
            vv == views(orig),
            views(wrapped@) == vv.take(it.index() as int),
    {
        let ghost k = it.index();
        let ghost before = views(wrapped@);
        assert(vv[k as int] == c@);
        let w = NewestFirst(c);
        assert(w@ == vv[k as int]);
        wrapped.push(w);
        assert(views(wrapped@) =~= before.push(vv[k as int]));
        assert(vv.take(k + 1) =~= vv.take(k as int).push(vv[k as int]));
    }
    assert(vv.take(vv.len() as int) =~= vv);
    let sorted = stable_sort(wrapped);
    assert((|a: CommitValue, b: CommitValue| NewestFirst::view_less(a, b)) =~= (|
        a: CommitValue,
        b: CommitValue,
    | newest_first(a, b)));
    let ghost sv = views(sorted@);
    let mut out: Vec<Commit> = Vec::new();
    let ghost orig2 = sorted@;
    for w in it: sorted.into_iter()
        invariant
            orig2 == it.seq(),
            sv == views(orig2),
            views(out@) == sv.take(it.index() as int),
    {
        let ghost k = it.index();
        let ghost before = views(out@);
        assert(sv[k as int] == w@);
        let c = w.0;
        assert(c@ == sv[k as int]);
        out.push(c);
        assert(views(out@) =~= before.push(sv[k as int]));
        assert(sv.take(k + 1) =~= sv.take(k as int).push(sv[k as int]));
    }
    assert(sv.take(sv.len() as int) =~= sv);
    out
}

fn contains_text(hay: &str, f: &Vec<char>) -> (r: bool)
    ensures
        r == (find(to_lower(hay@), f@) is Some),
{
    let l = lowercase(hay);
    let v = chars_of(l.as_str());
    assert(v@.subrange(0, v@.len() as int) =~= v@);
    span_find(&v, 0, v.len(), f).is_some()
}

fn matches_commit(c: &Commit, f: &Vec<char>) -> (r: bool)
    ensures
        r == commit_matches(c@, f@),
{
    contains_text(c.message.as_str(), f) || contains_text(c.id.as_str(), f) || contains_text(
        c.author.as_str(),
        f,
    )
}

fn listed_id(s: &Vec<Commit>, id: &String) -> (r: bool)
    ensures
        r == has_id(views(s@), id@),
{
    let ghost sv = views(s@);
    let mut i: usize = 0;
    while i < s.len()
        invariant
            0 <= i <= s@.len(),
            sv == views(s@),
            forall|k: int| 0 <= k < i ==> (#[trigger] sv[k]).id != id@,
        decreases s@.len() - i,
    {
        let x = chars_of(s[i].id.as_str());
        let y = chars_of(id.as_str());
        assert(x@.subrange(0, x@.len() as int) =~= x@);
        assert(sv[i as int] == s@[i as int]@);
        if span_eq(&x, 0, x.len(), &y) {
            return true;
        }
        i += 1;
    }
    false
}

/// The commits the graph lists, from the gathered listing (the union of the
/// visible repositories' logs, or the scoped listing), the search text, the
/// code-change hits of the visible repositories in order, and whether a path
/// scope is active.
pub fn visible_commits(listed: Vec<Commit>, filter: &str, hits: &[Commit], path_scoped: bool) -> (r: Vec<
    Commit,
>)
    ensures
        views(r@) == visible_spec(views(listed@), filter@, views(hits@), path_scoped),
{
    let sorted = newest_first_sorted(listed);
    let f = lowercase(filter);
    let fv = chars_of(f.as_str());
    if fv.len() == 0 {
        return sorted;
    }
    let ghost sv = views(sorted@);
    let mut kept: Vec<Commit> = Vec::new();
    let ghost orig = sorted@;
    for c in it: sorted.into_iter()
        invariant
            orig == it.seq(),
            sv == views(orig),
            fv@ == to_lower(filter@),
            views(kept@) == keep_commits(sv.take(it.index() as int), fv@),
    {
        let ghost k = it.index();
        let ghost before = views(kept@);
        assert(sv[k as int] == c@);
        assert(sv.take(k + 1).drop_last() =~= sv.take(k as int));
        assert(sv.take(k + 1).last() == c@);
        if matches_commit(&c, &fv) {
            kept.push(c);
            assert(views(kept@) =~= before.push(sv[k as int]));
        }
    }
    assert(sv.take(sv.len() as int) =~= sv);
    if path_scoped {
        return kept;
    }
    let ghost kv = views(kept@);
    let ghost hv = views(hits@);
    let mut i: usize = 0;
    while i < hits.len()
        invariant
            0 <= i <= hits@.len(),
            hv == views(hits@),
            views(kept@) == add_hits(kv, hv.take(i as int)),
        decreases hits@.len() - i,
    {
        assert(hv.take(i + 1).drop_last() =~= hv.take(i as int));
        assert(hv.take(i + 1).last() == hits@[i as int]@);
        if !listed_id(&kept, &hits[i].id) {
            let ghost before = views(kept@);
            kept.push(hits[i].copy());
            assert(views(kept@) =~= before.push(hv[i as int]));
        }
        i += 1;
    }
    assert(hv.take(i as int) =~= hv);
    newest_first_sorted(kept)
}

// --- scoped listings ----------------------------------------------------------------------

/// The repositories whose history is displayed: the one the roots filter
/// picks, else every repository in order.
pub fn visible_root_ids(roots: &[RootId], filter: Option<&RootId>) -> (r: Vec<RootId>)
    ensures
        r@.map_values(|id: RootId| id.0@) == match filter {
            Some(f) => seq![f.0@],
            None => roots@.map_values(|id: RootId| id.0@),
        },
{
    let mut out: Vec<RootId> = Vec::new();
    match filter {
        Some(f) => {
            out.push(RootId(crate::text::string_from(f.0.as_str())));
            assert(out@.map_values(|id: RootId| id.0@) =~= seq![f.0@]);
        },
        None => {
            let mut i: usize = 0;
            while i < roots.len()
                invariant
                    0 <= i <= roots@.len(),
                    out@.map_values(|id: RootId| id.0@) == roots@.take(i as int).map_values(|id: RootId| id.0@),
                decreases roots@.len() - i,
            {
                let ghost before = out@.map_values(|id: RootId| id.0@);
                out.push(RootId(crate::text::string_from(roots[i].0.as_str())));
                assert(out@.map_values(|id: RootId| id.0@) =~= before.push(roots@[i as int].0@));
                assert(roots@.take(i + 1).map_values(|id: RootId| id.0@) =~= roots@.take(i as int).map_values(
                    |id: RootId| id.0@,
                ).push(roots@[i as int].0@));
                i += 1;
            }
            assert(roots@.take(i as int) =~= roots@);
        },
    }
    out
}

/// The values of an optional listing.
pub open spec fn opt_listing(l: Option<&[Commit]>) -> Option<Seq<CommitValue>> {
    match l {
        Some(cs) => Some(views(cs@)),
        None => None,
    }
}

/// The commits the log shows for repository `root`: with an active ref scope
/// whose listing is loaded (`ref_scope`: the scoped repository and its
/// listing), that listing for the scoped repository and nothing for any
/// other; else with an active path scope whose listing is loaded
/// (`path_log`), that listing; else the repository's log when loaded.
pub open spec fn commits_for_spec(
    root: Seq<char>,
    ref_scope: Option<(Seq<char>, Seq<CommitValue>)>,
    path_log: Option<Seq<CommitValue>>,
    log: Option<Seq<CommitValue>>,
) -> Seq<CommitValue> {
    match ref_scope {
        Some((scope_root, listing)) => if scope_root == root {
            listing
        } else {
            seq![]
        },
        None => match path_log {
            Some(listing) => listing,
            None => match log {
                Some(listing) => listing,
                None => seq![],
            },
        },
    }
}

fn copy_commits(cs: &[Commit]) -> (r: Vec<Commit>)
    ensures
        views(r@) == views(cs@),
{
    let mut out: Vec<Commit> = Vec::new();
    let mut i: usize = 0;
    while i < cs.len()
        invariant
            0 <= i <= cs@.len(),
            views(out@) == views(cs@).take(i as int),
        decreases cs@.len() - i,
    {
        let ghost before = views(out@);
        out.push(cs[i].copy());
        assert(views(out@) =~= before.push(cs@[i as int]@));
        assert(views(cs@).take(i + 1) =~= views(cs@).take(i as int).push(cs@[i as int]@));
        i += 1;
    }
    assert(views(cs@).take(i as int) =~= views(cs@));
    out
}

/// The commits shown for repository `root`, honoring an active ref or path
/// scope (see [`commits_for_spec`]).
pub fn commits_for(
    root: &RootId,
    ref_scope: Option<(&RootId, &[Commit])>,
    path_log: Option<&[Commit]>,
    log: Option<&[Commit]>,
) -> (r: Vec<Commit>)
    ensures
        views(r@) == commits_for_spec(
            root.0@,
            match ref_scope {
                Some((id, cs)) => Some((id.0@, views(cs@))),
                None => None,
            },
            opt_listing(path_log),
            opt_listing(log),
        ),
{
    match ref_scope {
        Some((scope_root, listing)) => {
            if scope_root.same(root) {
                copy_commits(listing)
            } else {
                let out: Vec<Commit> = Vec::new();
                assert(views(out@) =~= Seq::<CommitValue>::empty());
                out
            }
        },
        None => match path_log {
            Some(listing) => copy_commits(listing),
            None => match log {
                Some(listing) => copy_commits(listing),
                None => {
                    let out: Vec<Commit> = Vec::new();
                    assert(views(out@) =~= Seq::<CommitValue>::empty());
                    out
                },
            },
        },
    }
}

/// The first commit of `cs` with id `id`.
pub open spec fn first_with_id(cs: Seq<CommitValue>, id: Seq<char>) -> Option<CommitValue>
    decreases cs.len(),
{
    if cs.len() == 0 {
        None
    } else if cs[0].id == id {
        Some(cs[0])
    } else {
        first_with_id(cs.skip(1), id)
    }
}

/// The commit `cid` as the log finds it: in the ref scope's listing when one
/// is active and loaded (whatever repository it belongs to), else in the
/// path scope's listing when loaded, else in the repository's log.
pub open spec fn find_commit_spec(
    ref_listing: Option<Seq<CommitValue>>,
    path_log: Option<Seq<CommitValue>>,
    log: Option<Seq<CommitValue>>,
    cid: Seq<char>,
) -> Option<CommitValue> {
    match ref_listing {
        Some(cs) => first_with_id(cs, cid),
        None => match path_log {
            Some(cs) => first_with_id(cs, cid),
            None => match log {
                Some(cs) => first_with_id(cs, cid),
                None => None,
            },
        },
    }
}

fn find_in(cs: &[Commit], cid: &str) -> (r: Option<Commit>)
    ensures
        match first_with_id(views(cs@), cid@) {
            Some(c) => r matches Some(x) && x@ == c,
            None => r is None,
        },
{
    let ghost cv = views(cs@);
    let mut i: usize = 0;
    assert(cv.skip(0) =~= cv);
    while i < cs.len()
        invariant
            0 <= i <= cs@.len(),
            cv == views(cs@),
            first_with_id(cv.skip(i as int), cid@) == first_with_id(cv, cid@),
        decreases cs@.len() - i,
    {
        assert(cv.skip(i as int)[0] == cs@[i as int]@);
        assert(cv.skip(i as int).skip(1) =~= cv.skip(i + 1));
        if crate::text::str_eq(cs[i].id.as_str(), cid) {
            return Some(cs[i].copy());
        }
        i += 1;
    }
    assert(cv.skip(i as int).len() == 0);
    None
}

/// The loaded commit `cid`, honoring an active ref or path scope like
/// [`commits_for`] (see [`find_commit_spec`]).
pub fn find_commit(
    ref_listing: Option<&[Commit]>,
    path_log: Option<&[Commit]>,
    log: Option<&[Commit]>,
    cid: &str,
) -> (r: Option<Commit>)
    ensures
        match find_commit_spec(opt_listing(ref_listing), opt_listing(path_log), opt_listing(log), cid@) {
            Some(c) => r matches Some(x) && x@ == c,
            None => r is None,
        },
{
    match ref_listing {
        Some(cs) => find_in(cs, cid),
        None => match path_log {
            Some(cs) => find_in(cs, cid),
            None => match log {
                Some(cs) => find_in(cs, cid),
                None => None,
            },
        },
    }
}

// --- branch tree events -----------------------------------------------------------------

/// The log window's branch-tree state: the ref the graph is scoped to, the
/// selected repository, commit and changed file, the Local and Tags groups'
/// open state, the collapsed remote groups (a set) and the remotes switch.
pub struct LogTreeUi {
    pub ref_scope: Option<(RootId, String)>,
    pub selected_root: Option<RootId>,
    pub selected_commit: Option<String>,
    pub selected_file: Option<String>,
    pub local_open: bool,
    pub tags_open: bool,
    pub collapsed_remotes: Vec<(RootId, String)>,
    pub show_remotes: bool,
}

/// Whether two log tree states agree on the fields an event leaves alone:
/// with `scope` false the scope and selection, with `groups` false the
/// groups, with `collapsed` false the collapsed set, with `remotes` false
/// the remotes switch.
pub open spec fn log_ui_same_except(a: LogTreeUi, b: LogTreeUi, scope: bool, groups: bool, collapsed: bool, remotes: bool) -> bool {
    &&& (!scope ==> crate::branches::opt_pair(a.ref_scope) == crate::branches::opt_pair(b.ref_scope)
        && crate::branches::opt_root(a.selected_root) == crate::branches::opt_root(b.selected_root)
        && crate::diff_model::opt_view(a.selected_commit) == crate::diff_model::opt_view(b.selected_commit)
        && crate::diff_model::opt_view(a.selected_file) == crate::diff_model::opt_view(b.selected_file))
    &&& (!groups ==> a.local_open == b.local_open && a.tags_open == b.tags_open)
    &&& (!collapsed ==> forall|r: Seq<char>, m: Seq<char>|
        pair_listed(a.collapsed_remotes@, r, m) == pair_listed(b.collapsed_remotes@, r, m))
    &&& (!remotes ==> a.show_remotes == b.show_remotes)
}

/// Applies one branch-tree event to the log window: ignored while a dialog
/// or confirmation is up; a click or double click scopes the graph to that
/// ref, selects its repository and clears the commit and file selection;
/// group and remote headers toggle; the remotes switch is set; Fetch asks
/// for a fetch of the scope (the result says whether to run it); the other
/// events do nothing here.
pub fn apply_log_tree_event(ui: &mut LogTreeUi, modal_open: bool, event: TreeEvent) -> (fetch: bool)
    ensures
        modal_open ==> !fetch && log_ui_same_except(*old(ui), *final(ui), false, false, false, false),
        !modal_open ==> match event {
            TreeEvent::RowClicked { root, branch } | TreeEvent::RowActivated { root, branch } => {
                &&& crate::branches::opt_pair(final(ui).ref_scope) == Some((root.0@, branch@))
                &&& crate::branches::opt_root(final(ui).selected_root) == Some(root.0@)
                &&& final(ui).selected_commit is None
                &&& final(ui).selected_file is None
                &&& log_ui_same_except(*old(ui), *final(ui), true, false, false, false)
                &&& !fetch
            },
            TreeEvent::GroupToggled(g) => {
                &&& final(ui).local_open == (if g == TreeGroup::Local {
                    !old(ui).local_open
                } else {
                    old(ui).local_open
                })
                &&& final(ui).tags_open == (if g == TreeGroup::Tags {
                    !old(ui).tags_open
                } else {
                    old(ui).tags_open
                })
                &&& log_ui_same_except(*old(ui), *final(ui), false, true, false, false)
                &&& !fetch
            },
            TreeEvent::RemoteToggled { root, remote } => {
                &&& pair_listed(final(ui).collapsed_remotes@, root.0@, remote@) == !pair_listed(
                    old(ui).collapsed_remotes@,
                    root.0@,
                    remote@,
                )
                &&& forall|x: Seq<char>, m: Seq<char>|
                    !(x == root.0@ && m == remote@) ==> pair_listed(final(ui).collapsed_remotes@, x, m)
                        == pair_listed(old(ui).collapsed_remotes@, x, m)
                &&& log_ui_same_except(*old(ui), *final(ui), false, false, true, false)
                &&& !fetch
            },
            TreeEvent::RemotesVisibleChanged { visible } => {
                &&& final(ui).show_remotes == visible
                &&& log_ui_same_except(*old(ui), *final(ui), false, false, false, true)
                &&& !fetch
            },
            TreeEvent::FetchRequested { .. } => fetch && log_ui_same_except(*old(ui), *final(ui), false, false, false, false),
            _ => !fetch && log_ui_same_except(*old(ui), *final(ui), false, false, false, false),
        },
{
    if modal_open {
        return false;
    }
    match event {
        TreeEvent::RowClicked { root, branch } | TreeEvent::RowActivated { root, branch } => {
            ui.ref_scope = Some((RootId(crate::text::string_from(root.0.as_str())), branch));
            ui.selected_root = Some(root);
            ui.selected_commit = None;
            ui.selected_file = None;
            false
        },
        TreeEvent::GroupToggled(group) => {
            match group {
                TreeGroup::Local => {
                    ui.local_open = !ui.local_open;
                },
                TreeGroup::Tags => {
                    ui.tags_open = !ui.tags_open;
                },
            }
            false
        },
        TreeEvent::RemoteToggled { root, remote } => {
            toggle_collapsed(&mut ui.collapsed_remotes, &root, remote.as_str());
            false
        },
        TreeEvent::RemotesVisibleChanged { visible } => {
            ui.show_remotes = visible;
            false
        },
        TreeEvent::FetchRequested { .. } => true,
        _ => false,
    }
}

// --- lane and root colors --------------------------------------------------------------

/// The number of distinct graph colors.
pub const GRAPH_COLOR_COUNT: usize = 8;

/// The graph's lane colors (RGBA), also the per-repository stripe palette.
pub open spec fn graph_color(k: int) -> u32 {
    if k == 0 {
        0x508c_e6ff
    } else if k == 1 {
        0xdc78_8cff
    } else if k == 2 {
        0x78c8_82ff
    } else if k == 3 {
        0xc8aa_5aff
    } else if k == 4 {
        0xaa82_dcff
    } else if k == 5 {
        0x5abe_c8ff
    } else if k == 6 {
        0xe696_5aff
    } else {
        0x96c8_dcff
    }
}

/// The deterministic color of the repository (or lane) at `idx`: the
/// palette repeats every [`GRAPH_COLOR_COUNT`] entries.
pub fn root_color(idx: usize) -> (r: u32)
    ensures
        r == graph_color((idx % GRAPH_COLOR_COUNT) as int),
{
    match idx % GRAPH_COLOR_COUNT {
        0 => 0x508c_e6ff,
        1 => 0xdc78_8cff,
        2 => 0x78c8_82ff,
        3 => 0xc8aa_5aff,
        4 => 0xaa82_dcff,
        5 => 0x5abe_c8ff,
        6 => 0xe696_5aff,
        _ => 0x96c8_dcff,
    }
}

// --- commit details ---------------------------------------------------------------------

/// The verification state of a commit's signature.
#[derive(Clone, Copy, Debug, PartialEq, Eq, Structural)]
pub enum SignatureState {
    Unsigned,
    Good,
    Bad,
    Unverified,
}

/// What the committer line adds for a signature state.
pub open spec fn signature_suffix(sig: SignatureState) -> Seq<char> {
    match sig {
        SignatureState::Unsigned => seq![],
        SignatureState::Good => " · signed ✓"@,
        SignatureState::Bad => " · signature BAD"@,
        SignatureState::Unverified => " · signed (unverified)"@,
    }
}

/// A person as the details pane writes one: "name <email>".
pub fn person_line(name: &str, email: &str) -> (r: String)
    ensures
        r@ == name@ + " <"@ + email@ + ">"@,
{
    let mut s = string_from(name);
    push_str(&mut s, " <");
    push_str(&mut s, email);
    push_str(&mut s, ">");
    s
}

/// The committer line: the committer, then the signature state when the
/// commit is signed.
pub fn committer_line(name: &str, email: &str, sig: SignatureState) -> (r: String)
    ensures
        r@ == name@ + " <"@ + email@ + ">"@ + signature_suffix(sig),
{
    let mut s = person_line(name, email);
    match sig {
        SignatureState::Unsigned => {},
        SignatureState::Good => push_str(&mut s, " · signed ✓"),
        SignatureState::Bad => push_str(&mut s, " · signature BAD"),
        SignatureState::Unverified => push_str(&mut s, " · signed (unverified)"),
    }
    proof {
        reveal_strlit("");
    }
    s
}

/// One part of the change summary: "N word", or nothing when N is zero.
pub open spec fn summary_part(n: nat, word: Seq<char>) -> Seq<Seq<char>> {
    if n > 0 {
        seq![decimal(n) + " "@ + word]
    } else {
        seq![]
    }
}

/// The commit's file summary ("2 modified · 1 added"): the non-zero counts
/// of modified, added and deleted files, joined by " · "; empty when all are
/// zero.
pub open spec fn change_summary_spec(modified: nat, added: nat, deleted: nat) -> Seq<char> {
    join(summary_part(modified, "modified"@) + summary_part(added, "added"@) + summary_part(deleted, "deleted"@), " · "@)
}

fn push_part(parts: &mut Vec<String>, n: usize, word: &str)
    ensures
        views(final(parts)@) == views(old(parts)@) + summary_part(n as nat, word@),
{
    if n > 0 {
        let mut s = String::new();
        push_decimal(&mut s, n as u64);
        push_str(&mut s, " ");
        push_str(&mut s, word);
        let ghost before = views(parts@);
        parts.push(s);
        assert(views(parts@) =~= before + summary_part(n as nat, word@));
    } else {
        assert(views(parts@) =~= views(parts@) + summary_part(n as nat, word@));
    }
}

/// The commit's file summary.
pub fn change_summary(modified: usize, added: usize, deleted: usize) -> (r: String)
    ensures
        r@ == change_summary_spec(modified as nat, added as nat, deleted as nat),
{
    let mut parts: Vec<String> = Vec::new();
    assert(views(parts@) =~= Seq::<Seq<char>>::empty());
    push_part(&mut parts, modified, "modified");
    push_part(&mut parts, added, "added");
    push_part(&mut parts, deleted, "deleted");
    assert(views(parts@) =~= summary_part(modified as nat, "modified"@) + summary_part(added as nat, "added"@)
        + summary_part(deleted as nat, "deleted"@));
    join_strings(&parts, " · ")
}

/// How many of `files` are in `status`.
pub open spec fn status_count(files: Seq<ChangeValue>, status: ChangeStatus) -> nat
    decreases files.len(),
{
    if files.len() == 0 {
        0
    } else {
        status_count(files.drop_last(), status) + if files.last().status == status {
            1nat
        } else {
            0nat
        }
    }
}

/// How many of a commit's files are modified, added and deleted.
pub fn status_counts(files: &[Change]) -> (r: (usize, usize, usize))
    ensures
        r.0 as nat == status_count(views(files@), ChangeStatus::Modified),
        r.1 as nat == status_count(views(files@), ChangeStatus::Added),
        r.2 as nat == status_count(views(files@), ChangeStatus::Deleted),
{
    let ghost fv = views(files@);
    let mut m: usize = 0;
    let mut a: usize = 0;
    let mut d: usize = 0;
    let mut i: usize = 0;
    while i < files.len()
        invariant
            0 <= i <= files@.len(),
            fv == views(files@),
            m as nat == status_count(fv.take(i as int), ChangeStatus::Modified),
            a as nat == status_count(fv.take(i as int), ChangeStatus::Added),
            d as nat == status_count(fv.take(i as int), ChangeStatus::Deleted),
            m <= i,
            a <= i,
            d <= i,
        decreases files@.len() - i,
    {
        assert(fv.take(i as int + 1).drop_last() =~= fv.take(i as int));
        assert(fv.take(i as int + 1).last() == files@[i as int]@);
        match files[i].status {
            ChangeStatus::Modified => m = m + 1,
            ChangeStatus::Added => a = a + 1,
            ChangeStatus::Deleted => d = d + 1,
            _ => {},
        }
        i = i + 1;
    }
    assert(fv.take(files@.len() as int) =~= fv);
    (m, a, d)
}

/// The details pane's action guards.
#[derive(Clone, Debug, PartialEq, Eq)]
pub struct DetailGuards {
    /// "Cherry-pick to…" and "Cherry-pick across…" are enabled.
    pub cherry_pick: bool,
    /// "Revert commit" is enabled.
    pub revert: bool,
    /// Why actions are blocked, painted under the buttons; empty when none is.
    pub reasons: String,
}

/// The guard reasons: a protected current branch blocks revert, a dirty
/// working tree blocks cherry-pick and revert; joined by " · ".
pub open spec fn guard_reasons(dirty: bool, protected_current: Option<Seq<char>>) -> Seq<char> {
    let p: Seq<Seq<char>> = match protected_current {
        Some(b) => seq!["'"@ + b + "' is a protected branch — revert blocked"@],
        None => seq![],
    };
    let d: Seq<Seq<char>> = if dirty {
        seq!["working tree is dirty — cherry-pick and revert blocked"@]
    } else {
        seq![]
    };
    join(p + d, " · "@)
}

/// The details pane's guardrails: a dirty working tree disables both
/// cherry-picks and revert; a protected current branch (given by name)
/// disables revert; each blocked reason is stated.
pub fn detail_guards(dirty: bool, protected_current: Option<&str>) -> (r: DetailGuards)
    ensures
        r.cherry_pick == !dirty,
        r.revert == (!dirty && protected_current is None),
        r.reasons@ == guard_reasons(dirty, match protected_current {
            Some(b) => Some(b@),
            None => None,
        }),
{
    let mut parts: Vec<String> = Vec::new();
    let ghost pv: Option<Seq<char>> = match protected_current {
        Some(b) => Some(b@),
        None => None,
    };
    if let Some(b) = protected_current {
        let mut s = string_from("'");
        push_str(&mut s, b);
        push_str(&mut s, "' is a protected branch — revert blocked");
        parts.push(s);
    }
    if dirty {
        parts.push(string_from("working tree is dirty — cherry-pick and revert blocked"));
    }
    proof {
        let p: Seq<Seq<char>> = match pv {
            Some(b) => seq!["'"@ + b + "' is a protected branch — revert blocked"@],
            None => seq![],
        };
        let d: Seq<Seq<char>> = if dirty {
            seq!["working tree is dirty — cherry-pick and revert blocked"@]
        } else {
            seq![]
        };
        assert(views(parts@) =~= p + d);
    }
    let reasons = join_strings(&parts, " · ");
    DetailGuards { cherry_pick: !dirty, revert: !dirty && protected_current.is_none(), reasons }
}

// --- dates ------------------------------------------------------------------------------

/// How the history views print dates.
#[derive(Clone, Copy, Debug, PartialEq, Eq, Structural)]
pub enum DateFormat {
    Iso,
    Absolute,
    Relative,
}

/// A timestamp in the configured format: the local date and time; for the
/// relative format the age at the clock's reading now (see
/// [`relative_age`]), falling back to the date and time from thirty days on.
/// Which date and time, and what the clock reads, depend on the machine.
pub fn fmt_date(t: i64, mode: DateFormat) -> (r: String)
    ensures
        mode != DateFormat::Relative ==> (four_digit_years(t as int) ==> is_date_time_text(r@) && exists|off: int|
            offset_ok(off) && #[trigger] local_date_time(t as int, off) == r@),
        mode == DateFormat::Relative ==> (exists|now: i64| #[trigger] age_at(now as int, t as int) == Some(r@))
            || (four_digit_years(t as int) ==> is_date_time_text(r@) && exists|off: int|
            offset_ok(off) && #[trigger] local_date_time(t as int, off) == r@),
{
    match mode {
        DateFormat::Iso | DateFormat::Absolute => fmt_time(t),
        DateFormat::Relative => {
            let now = now_secs();
            match relative_age(now, t) {
                Some(s) => {
                    assert(age_at(now as int, t as int) == Some(s@));
                    s
                },
                None => fmt_time(t),
            }
        },
    }
}

// --- lane colors ----------------------------------------------------------------------

/// The lane walk's state: the colors given so far (by id, first entry
/// counts), the open lanes (each waiting for the id it expects next), and
/// the next fresh color.
pub struct LaneState {
    pub colors: Seq<(Seq<char>, nat)>,
    pub lanes: Seq<Option<Seq<char>>>,
    pub next: nat,
}

/// The index of the first entry for `id`.
pub open spec fn color_pos(colors: Seq<(Seq<char>, nat)>, id: Seq<char>) -> Option<int>
    decreases colors.len(),
{
    if colors.len() == 0 {
        None
    } else {
        match color_pos(colors.drop_last(), id) {
            Some(k) => Some(k),
            None => if colors.last().0 == id {
                Some(colors.len() - 1)
            } else {
                None
            },
        }
    }
}

/// The first lane waiting for `x` (a free lane when `x` is `None`).
pub open spec fn lane_pos(lanes: Seq<Option<Seq<char>>>, x: Option<Seq<char>>) -> Option<int>
    decreases lanes.len(),
{
    if lanes.len() == 0 {
        None
    } else {
        match lane_pos(lanes.drop_last(), x) {
            Some(k) => Some(k),
            None => if lanes.last() == x {
                Some(lanes.len() - 1)
            } else {
                None
            },
        }
    }
}

/// A color for `id` unless it has one: `c`, or a fresh one when `fresh`.
pub open spec fn give_color(st: LaneState, id: Seq<char>, c: nat, fresh: bool) -> LaneState {
    if color_pos(st.colors, id) is Some {
        st
    } else if fresh {
        LaneState { colors: st.colors.push((id, st.next)), next: st.next + 1, ..st }
    } else {
        LaneState { colors: st.colors.push((id, c)), ..st }
    }
}

/// The lanes after `p` opens the first free lane, or a new one.
pub open spec fn open_lane(lanes: Seq<Option<Seq<char>>>, p: Seq<char>) -> Seq<Option<Seq<char>>> {
    match lane_pos(lanes, None) {
        Some(e) => lanes.update(e, Some(p)),
        None => lanes.push(Some(p)),
    }
}

/// The lane a commit takes: the one waiting for it, else the first free
/// one, else a new one; with the lanes after the choice.
pub open spec fn lane_choice(lanes: Seq<Option<Seq<char>>>, id: Seq<char>) -> (Seq<Option<Seq<char>>>, int) {
    match lane_pos(lanes, Some(id)) {
        Some(i) => (lanes, i),
        None => match lane_pos(lanes, None) {
            Some(e) => (lanes, e),
            None => (lanes.push(None), lanes.len() as int),
        },
    }
}

/// A merge parent opens the first free lane (or a new one) and gets a fresh
/// color unless it has one.
pub open spec fn place_parent(st: LaneState, p: Seq<char>) -> LaneState {
    give_color(LaneState { lanes: open_lane(st.lanes, p), ..st }, p, 0, true)
}

/// The merge parents placed in order.
pub open spec fn place_parents(st: LaneState, ps: Seq<Seq<char>>) -> LaneState
    decreases ps.len(),
{
    if ps.len() == 0 {
        st
    } else {
        place_parent(place_parents(st, ps.drop_last()), ps.last())
    }
}

/// One commit of the walk: it takes the lane waiting for it (else the first
/// free lane, else a new one); unless colored already it gets a fresh color
/// on a free lane and the lane's index on a waiting one; its lane then waits
/// for its first parent, and its other parents open lanes of their own.
pub open spec fn lane_step(st: LaneState, c: CommitValue) -> LaneState {
    let (lanes, idx) = lane_choice(st.lanes, c.id);
    let colored = give_color(LaneState { lanes, ..st }, c.id, idx as nat, lanes[idx] is None);
    let first = if c.parents.len() > 0 {
        Some(c.parents[0])
    } else {
        None
    };
    place_parents(LaneState { lanes: colored.lanes.update(idx, first), ..colored }, merge_parents(c))
}

/// A commit's parents after the first.
pub open spec fn merge_parents(c: CommitValue) -> Seq<Seq<char>> {
    if c.parents.len() > 0 {
        c.parents.skip(1)
    } else {
        seq![]
    }
}

/// The walk over commits, newest first.
pub open spec fn lane_walk(cs: Seq<CommitValue>) -> LaneState
    decreases cs.len(),
{
    if cs.len() == 0 {
        LaneState { colors: seq![], lanes: seq![], next: 0 }
    } else {
        lane_step(lane_walk(cs.drop_last()), cs.last())
    }
}

/// The values of a color table.
pub open spec fn color_values(v: Seq<(String, usize)>) -> Seq<(Seq<char>, nat)> {
    v.map_values(|e: (String, usize)| (e.0@, e.1 as nat))
}

/// The values of a lane list.
pub open spec fn lane_values(v: Seq<Option<String>>) -> Seq<Option<Seq<char>>> {
    v.map_values(|l: Option<String>| crate::diff_model::opt_view(l))
}

proof fn lemma_color_pos(colors: Seq<(Seq<char>, nat)>, id: Seq<char>)
    ensures
        color_pos(colors, id) matches Some(k) ==> 0 <= k < colors.len() && colors[k].0 == id,
        color_pos(colors, id) is None ==> forall|k: int| 0 <= k < colors.len() ==> (#[trigger] colors[k]).0 != id,
    decreases colors.len(),
{
    if colors.len() > 0 {
        lemma_color_pos(colors.drop_last(), id);
        assert forall|k: int| 0 <= k < colors.len() - 1 implies colors.drop_last()[k] == colors[k] by {}
    }
}

proof fn lemma_lane_pos(lanes: Seq<Option<Seq<char>>>, x: Option<Seq<char>>)
    ensures
        lane_pos(lanes, x) matches Some(k) ==> 0 <= k < lanes.len() && lanes[k] == x,
        lane_pos(lanes, x) is None ==> forall|k: int| 0 <= k < lanes.len() ==> #[trigger] lanes[k] != x,
        forall|k: int| 0 <= k < lanes.len() && lanes[k] == x && (forall|j: int| 0 <= j < k ==> lanes[j] != x)
            ==> lane_pos(lanes, x) == Some(k),
    decreases lanes.len(),
{
    if lanes.len() > 0 {
        lemma_lane_pos(lanes.drop_last(), x);
        assert forall|k: int| 0 <= k < lanes.len() - 1 implies lanes.drop_last()[k] == lanes[k] by {}
        assert forall|k: int| 0 <= k < lanes.len() && lanes[k] == x && (forall|j: int| 0 <= j < k ==> lanes[j] != x)
            implies lane_pos(lanes, x) == Some(k) by {
            if k < lanes.len() - 1 {
                assert(lanes.drop_last()[k] == x);
                assert forall|j: int| 0 <= j < k implies lanes.drop_last()[j] != x by {
                    assert(lanes.drop_last()[j] == lanes[j]);
                }
            } else {
                assert forall|j: int| 0 <= j < lanes.drop_last().len() implies #[trigger] lanes.drop_last()[j] != x by {
                    assert(lanes.drop_last()[j] == lanes[j]);
                }
            }
        }
    }
}

fn has_color(colors: &Vec<(String, usize)>, id: &str) -> (r: bool)
    ensures
        r == (color_pos(color_values(colors@), id@) is Some),
{
    let ghost cv = color_values(colors@);
    proof {
        lemma_color_pos(cv, id@);
    }
    let mut i: usize = 0;
    while i < colors.len()
        invariant
            0 <= i <= colors@.len(),
            cv == color_values(colors@),
            color_pos(cv, id@) is None ==> forall|k: int| 0 <= k < cv.len() ==> (#[trigger] cv[k]).0 != id@,
            color_pos(cv, id@) matches Some(k) ==> 0 <= k < cv.len() && cv[k].0 == id@,
            forall|k: int| 0 <= k < i ==> (#[trigger] cv[k]).0 != id@,
        decreases colors@.len() - i,
    {
        assert(cv[i as int] == (colors@[i as int].0@, colors@[i as int].1 as nat));
        if crate::text::str_eq(colors[i].0.as_str(), id) {
            return true;
        }
        i += 1;
    }
    false
}

fn find_lane(lanes: &Vec<Option<String>>, x: Option<&str>) -> (r: Option<usize>)
    ensures
        r matches Some(k) ==> k < lanes@.len() && lane_pos(lane_values(lanes@), crate::branches::opt_str_view(x))
            == Some(k as int),
        r is None ==> lane_pos(lane_values(lanes@), crate::branches::opt_str_view(x)) is None,
{
    let ghost lv = lane_values(lanes@);
    let ghost xv = crate::branches::opt_str_view(x);
    proof {
        lemma_lane_pos(lv, xv);
    }
    let mut i: usize = 0;
    while i < lanes.len()
        invariant
            0 <= i <= lanes@.len(),
            lv == lane_values(lanes@),
            xv == crate::branches::opt_str_view(x),
            lane_pos(lv, xv) matches Some(k) ==> 0 <= k < lv.len() && lv[k] == xv,
            lane_pos(lv, xv) is None ==> forall|k: int| 0 <= k < lv.len() ==> #[trigger] lv[k] != xv,
            forall|k: int| 0 <= k < lv.len() && lv[k] == xv && (forall|j: int| 0 <= j < k ==> lv[j] != xv)
                ==> lane_pos(lv, xv) == Some(k),
            forall|k: int| 0 <= k < i ==> #[trigger] lv[k] != xv,
        decreases lanes@.len() - i,
    {
        assert(lv[i as int] == crate::diff_model::opt_view(lanes@[i as int]));
        let hit = match (&lanes[i], x) {
            (Some(l), Some(y)) => crate::text::str_eq(l.as_str(), y),
            (None, None) => true,
            _ => false,
        };
        if hit {
            assert(lv[i as int] == xv);
            return Some(i);
        }
        i += 1;
    }
    None
}

fn take_lane(lanes: &mut Vec<Option<String>>, id: &str) -> (idx: usize)
    ensures
        (lane_values(final(lanes)@), idx as int) == lane_choice(lane_values(old(lanes)@), id@),
        idx < final(lanes)@.len(),
{
    let ghost lv = lane_values(lanes@);
    let waiting = find_lane(lanes, Some(id));
    assert(crate::branches::opt_str_view(Some(id)) == Some(id@));
    match waiting {
        Some(k) => k,
        None => {
            let free = find_lane(lanes, None);
            assert(crate::branches::opt_str_view(None::<&str>) == None::<Seq<char>>);
            match free {
                Some(e) => e,
                None => {
                    lanes.push(None);
                    assert(lane_values(lanes@) =~= lv.push(None));
                    lanes.len() - 1
                },
            }
        },
    }
}

fn open_lane_for(lanes: &mut Vec<Option<String>>, p: &str)
    ensures
        lane_values(final(lanes)@) == open_lane(lane_values(old(lanes)@), p@),
{
    let ghost lv = lane_values(lanes@);
    let free = find_lane(lanes, None);
    assert(crate::branches::opt_str_view(None::<&str>) == None::<Seq<char>>);
    match free {
        Some(e) => {
            assert(lane_pos(lv, None) == Some(e as int));
            lanes.set(e, Some(crate::text::string_from(p)));
            assert(lane_values(lanes@) =~= lv.update(e as int, Some(p@)));
        },
        None => {
            assert(lane_pos(lv, None) is None);
            lanes.push(Some(crate::text::string_from(p)));
            assert(lane_values(lanes@) =~= lv.push(Some(p@)));
        },
    }
}

fn give(colors: &mut Vec<(String, usize)>, next: &mut usize, id: &str, c: usize, fresh: bool)
    requires
        *old(next) <= old(colors)@.len(),
    ensures
        ({
            let g = give_color(
                LaneState { colors: color_values(old(colors)@), lanes: seq![], next: *old(next) as nat },
                id@,
                c as nat,
                fresh,
            );
            &&& color_values(final(colors)@) == g.colors
            &&& *final(next) as nat == g.next
        }),
        *final(next) <= final(colors)@.len(),
{
    if has_color(colors, id) {
        return;
    }
    let ghost before = color_values(colors@);
    let value = if fresh {
        *next
    } else {
        c
    };
    colors.push((crate::text::string_from(id), value));
    assert(color_values(colors@) =~= before.push((id@, value as nat)));
    let total = colors.len();
    if fresh {
        *next = *next + 1;
    }
    assert(*next <= total);
}

/// Assigns each commit (and each merge parent) a lane color with a
/// lightweight walk over the commit graph, newest first, so the list reads
/// like a commit graph. The table keeps one entry per id, in the order the
/// ids were first colored.
pub fn assign_colors(commits: &[Commit]) -> (r: Vec<(String, usize)>)
    ensures
        color_values(r@) == lane_walk(views(commits@)).colors,
{
    let ghost cs = views(commits@);
    let mut colors: Vec<(String, usize)> = Vec::new();
    let mut lanes: Vec<Option<String>> = Vec::new();
    let mut next: usize = 0;
    let mut i: usize = 0;
    assert(color_values(colors@) =~= Seq::<(Seq<char>, nat)>::empty());
    assert(lane_values(lanes@) =~= Seq::<Option<Seq<char>>>::empty());
    while i < commits.len()
        invariant
            0 <= i <= commits@.len(),
            cs == views(commits@),
            next <= colors@.len(),
            ({
                let st = lane_walk(cs.take(i as int));
                &&& color_values(colors@) == st.colors
                &&& lane_values(lanes@) == st.lanes
                &&& next as nat == st.next
            }),
        decreases commits@.len() - i,
    {
        let c = &commits[i];
        let ghost cv = c@;
        assert(cs[i as int] == cv);
        assert(cs.take(i + 1).drop_last() =~= cs.take(i as int));
        assert(cs.take(i + 1).last() == cv);
        let ghost st = lane_walk(cs.take(i as int));
        let idx = take_lane(&mut lanes, c.id.as_str());
        let ghost lanes_s = lane_values(lanes@);
        assert(lanes_s[idx as int] == crate::diff_model::opt_view(lanes@[idx as int]));
        let free = lanes[idx].is_none();
        give(&mut colors, &mut next, c.id.as_str(), idx, free);
        let ghost colored = give_color(LaneState { lanes: lanes_s, ..st }, cv.id, idx as nat, lanes_s[idx as int] is None);
        assert(color_values(colors@) == colored.colors && next as nat == colored.next);
        let first = if c.parents.len() > 0 {
            Some(crate::text::string_from(c.parents[0].as_str()))
        } else {
            None
        };
        let ghost first_s = if cv.parents.len() > 0 {
            Some(cv.parents[0])
        } else {
            None
        };
        assert(cv.parents.len() == c.parents@.len());
        assert(c.parents@.len() > 0 ==> cv.parents[0] == c.parents@[0]@);
        assert(crate::diff_model::opt_view(first) == first_s);
        lanes.set(idx, first);
        assert(lane_values(lanes@) =~= lanes_s.update(idx as int, first_s));
        let ghost ps = merge_parents(cv);
        let ghost base = LaneState { lanes: lanes_s.update(idx as int, first_s), ..colored };
        assert(lane_step(st, cv) == place_parents(base, ps));
        let n = c.parents.len();
        let mut j: usize = 1;
        assert(ps.take(0) =~= Seq::<Seq<char>>::empty());
        while j < n
            invariant
                n == c.parents@.len(),
                1 <= j,
                j <= n || (n == 0 && j == 1),
                cv == c@,
                cv.parents == views(c.parents@),
                ps == merge_parents(cv),
                next <= colors@.len(),
                ({
                    let pst = place_parents(base, ps.take(j - 1));
                    &&& color_values(colors@) == pst.colors
                    &&& lane_values(lanes@) == pst.lanes
                    &&& next as nat == pst.next
                }),
            decreases n - j,
        {
            let p = c.parents[j].as_str();
            assert(ps[j - 1] == cv.parents[j as int]);
            assert(ps.take(j as int).drop_last() =~= ps.take(j - 1));
            assert(ps.take(j as int).last() == p@);
            open_lane_for(&mut lanes, p);
            give(&mut colors, &mut next, p, 0, true);
            j += 1;
        }
        assert(cv.parents.len() == n);
        assert(j - 1 == ps.len());
        assert(ps.take(j - 1) =~= ps);
        assert(lane_walk(cs.take(i + 1)) == lane_step(st, cv));
        i += 1;
    }
    assert(cs.take(i as int) =~= cs);
    colors
}

/// The walk gives every id at most one entry.
pub proof fn lemma_colors_unique(cs: Seq<CommitValue>)
    ensures
        forall|a: int, b: int|
            0 <= a < b < lane_walk(cs).colors.len() ==> (#[trigger] lane_walk(cs).colors[a]).0
                != (#[trigger] lane_walk(cs).colors[b]).0,
    decreases cs.len(),
{
    if cs.len() > 0 {
        lemma_colors_unique(cs.drop_last());
        lemma_step_unique(lane_walk(cs.drop_last()), cs.last());
    }
}

/// The ids of a color table are distinct.
pub open spec fn ids_distinct(colors: Seq<(Seq<char>, nat)>) -> bool {
    forall|a: int, b: int| 0 <= a < b < colors.len() ==> (#[trigger] colors[a]).0 != (#[trigger] colors[b]).0
}

proof fn lemma_give_unique(st: LaneState, id: Seq<char>, c: nat, fresh: bool)
    requires
        ids_distinct(st.colors),
    ensures
        ids_distinct(give_color(st, id, c, fresh).colors),
        color_pos(give_color(st, id, c, fresh).colors, id) is Some,
{
    lemma_color_pos(st.colors, id);
    let g = give_color(st, id, c, fresh);
    if color_pos(st.colors, id) is None {
        assert(g.colors.drop_last() =~= st.colors);
        lemma_color_pos(g.colors, id);
    }
}

proof fn lemma_parents_unique(st: LaneState, ps: Seq<Seq<char>>)
    requires
        ids_distinct(st.colors),
    ensures
        ids_distinct(place_parents(st, ps).colors),
    decreases ps.len(),
{
    if ps.len() > 0 {
        lemma_parents_unique(st, ps.drop_last());
        let s1 = place_parents(st, ps.drop_last());
        lemma_give_unique(LaneState { lanes: open_lane(s1.lanes, ps.last()), ..s1 }, ps.last(), 0, true);
    }
}

proof fn lemma_step_unique(st: LaneState, c: CommitValue)
    requires
        ids_distinct(st.colors),
    ensures
        ids_distinct(lane_step(st, c).colors),
{
    let (lanes, idx) = lane_choice(st.lanes, c.id);
    lemma_give_unique(LaneState { lanes, ..st }, c.id, idx as nat, lanes[idx] is None);
    let colored = give_color(LaneState { lanes, ..st }, c.id, idx as nat, lanes[idx] is None);
    let first = if c.parents.len() > 0 {
        Some(c.parents[0])
    } else {
        None
    };
    lemma_parents_unique(LaneState { lanes: colored.lanes.update(idx, first), ..colored }, merge_parents(c));
}

/// `b` keeps `a` as its prefix.
pub open spec fn extends(a: Seq<(Seq<char>, nat)>, b: Seq<(Seq<char>, nat)>) -> bool {
    a.len() <= b.len() && forall|k: int| 0 <= k < a.len() ==> #[trigger] b[k] == a[k]
}

proof fn lemma_parents_extend(st: LaneState, ps: Seq<Seq<char>>)
    ensures
        extends(st.colors, place_parents(st, ps).colors),
    decreases ps.len(),
{
    if ps.len() > 0 {
        lemma_parents_extend(st, ps.drop_last());
    }
}

proof fn lemma_step_colors(st: LaneState, c: CommitValue)
    ensures
        extends(st.colors, lane_step(st, c).colors),
        color_pos(lane_step(st, c).colors, c.id) is Some,
{
    let (lanes, idx) = lane_choice(st.lanes, c.id);
    let colored = give_color(LaneState { lanes, ..st }, c.id, idx as nat, lanes[idx] is None);
    let first = if c.parents.len() > 0 {
        Some(c.parents[0])
    } else {
        None
    };
    let base = LaneState { lanes: colored.lanes.update(idx, first), ..colored };
    lemma_color_pos(st.colors, c.id);
    lemma_color_pos(colored.colors, c.id);
    if color_pos(st.colors, c.id) is None {
        assert(colored.colors.last().0 == c.id);
    }
    assert(color_pos(colored.colors, c.id) is Some);
    lemma_parents_extend(base, merge_parents(c));
    let after = lane_step(st, c).colors;
    let k = color_pos(colored.colors, c.id)->0;
    assert(after[k].0 == c.id);
    lemma_color_pos(after, c.id);
}

/// Every commit of the walk gets a color: after the walk each commit's id
/// has its entry in the table.
pub proof fn lemma_every_commit_colored(cs: Seq<CommitValue>)
    ensures
        forall|k: int| 0 <= k < cs.len() ==> color_pos(lane_walk(cs).colors, #[trigger] cs[k].id) is Some,
    decreases cs.len(),
{
    if cs.len() > 0 {
        let d = cs.drop_last();
        lemma_every_commit_colored(d);
        let before = lane_walk(d);
        lemma_step_colors(before, cs.last());
        let after = lane_walk(cs).colors;
        assert forall|k: int| 0 <= k < cs.len() implies color_pos(after, #[trigger] cs[k].id) is Some by {
            if k < cs.len() - 1 {
                assert(cs[k] == d[k]);
                let p = color_pos(before.colors, d[k].id);
                lemma_color_pos(before.colors, d[k].id);
                let j = p->0;
                assert(after[j] == before.colors[j]);
                lemma_color_pos(after, cs[k].id);
            }
        }
    }
}

} // verus!
