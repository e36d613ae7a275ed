//! Branches tab decisions: what the list area shows, local-row ordering,
//! row state at a glance (staleness, upstream, sync), and search.

use vstd::prelude::*;

use crate::components::{sync_badge, sync_badge_spec, KitButton, SyncKind};
use crate::diff_model::opt_view;
use crate::domain::{copy_opt, Branch, BranchKind, BranchValue, Root, RootId};
use crate::branches_tree::{lemma_node_values, node_value, node_values, BranchNode, BranchView, NodeValue, SectionValue};
use crate::branch_tree_view::{
    keyboard_less, keyboard_order, pair_listed, toggle_collapsed, LocalRow, RowKey, TreeEvent, TreeGroup,
};
use crate::sorting::{sort_by_spec, stable_sort, views, ViewOrder};
use crate::text::{
    chars_of, decimal, find, lowercase, parse_usize, span_find, parse_usize_in, push_decimal, push_str, span_eq, span_trim, span_words, str_less,
    str_lt, string_from, to_lower, trim, words,
};

verus! {

broadcast use vstd::string::group_string_axioms;

/// One branch action, shared by the detail panel and the overflow menu.
#[derive(Clone, Copy, PartialEq, Eq, Debug, Structural)]
pub enum BranchAction {
    Checkout,
    Merge,
    Rebase,
    Compare,
    Rename,
    Delete,
}

/// What the list area shows instead of a blank panel.
#[derive(Clone, Copy, PartialEq, Eq, Debug, Structural)]
pub enum ListState {
    /// The focused repo has no branch data yet and a scan is in flight.
    Reading,
    /// The repo genuinely has no branches: one sentence + one create action.
    Empty,
    /// The grouped list renders.
    Populated,
}

/// What the list area shows for a focused root: a root with no branch rows
/// and no HEAD commit is either still being read (busy) or genuinely empty.
pub fn list_state(root: &Root, busy: bool) -> (r: ListState)
    ensures
        r == if root.branches@.len() > 0 || root.head is Some {
            ListState::Populated
        } else if busy {
            ListState::Reading
        } else {
            ListState::Empty
        },
{
    if root.branches.len() > 0 || root.head.is_some() {
        ListState::Populated
    } else if busy {
        ListState::Reading
    } else {
        ListState::Empty
    }
}

/// `a < b` for optional times (`None` first).
pub open spec fn opt_time_less(a: Option<int>, b: Option<int>) -> bool {
    match (a, b) {
        (None, Some(_)) => true,
        (Some(x), Some(y)) => x < y,
        _ => false,
    }
}

/// Most recent tip first, ties alphabetical.
pub open spec fn recency_less(a: BranchValue, b: BranchValue) -> bool {
    opt_time_less(b.last_touched, a.last_touched) || (a.last_touched == b.last_touched && str_less(
        a.name,
        b.name,
    ))
}

/// A branch ordered by recency.
pub struct ByRecency(pub Branch);

impl View for ByRecency {
    type V = BranchValue;

    open spec fn view(&self) -> BranchValue {
        self.0@
    }
}

fn opt_time_lt(a: Option<i64>, b: Option<i64>) -> (r: bool)
    ensures
        r == opt_time_less(
            match a {
                Some(x) => Some(x as int),
                None => None,
            },
            match b {
                Some(x) => Some(x as int),
                None => None,
            },
        ),
{
    match (a, b) {
        (None, Some(_)) => true,
        (Some(x), Some(y)) => x < y,
        _ => false,
    }
}

impl ViewOrder for ByRecency {
    open spec fn view_less(a: BranchValue, b: BranchValue) -> bool {
        recency_less(a, b)
    }

    fn lt(&self, other: &Self) -> (r: bool) {
        let a = &self.0;
        let b = &other.0;
        opt_time_lt(b.last_touched, a.last_touched) || (a.last_touched == b.last_touched && str_lt(
            a.name.as_str(),
            b.name.as_str(),
        ))
    }
}

/// Whether a branch is named `current`.
pub open spec fn named(b: BranchValue, current: Option<Seq<char>>) -> bool {
    current == Some(b.name)
}

/// The branches not named `current`, in order.
pub open spec fn not_named(s: Seq<BranchValue>, current: Option<Seq<char>>) -> Seq<BranchValue>
    decreases s.len(),
{
    if s.len() == 0 {
        seq![]
    } else if named(s.last(), current) {
        not_named(s.drop_last(), current)
    } else {
        not_named(s.drop_last(), current).push(s.last())
    }
}

/// The first branch named `current`, if any.
pub open spec fn first_named(s: Seq<BranchValue>, current: Option<Seq<char>>) -> Option<BranchValue>
    decreases s.len(),
{
    if s.len() == 0 {
        None
    } else if named(s[0], current) {
        Some(s[0])
    } else {
        first_named(s.skip(1), current)
    }
}

/// Local-row order: the current branch first, then everything else by most
/// recent tip, ties alphabetical.
pub open spec fn ordered_locals_spec(s: Seq<BranchValue>, current: Option<Seq<char>>) -> Seq<
    BranchValue,
> {
    let sorted = sort_by_spec(
        not_named(s, current),
        |a: BranchValue, b: BranchValue| recency_less(a, b),
    );
    match first_named(s, current) {
        Some(b) => seq![b] + sorted,
        None => sorted,
    }
}

fn opt_str_eq(a: Option<&str>, b: &String) -> (r: bool)
    ensures
        r == match a {
            Some(x) => x@ == b@,
            None => false,
        },
{
    match a {
        Some(x) => {
            let u = chars_of(x);
            let w = chars_of(b.as_str());
            assert(u@.subrange(0, u@.len() as int) =~= u@);
            span_eq(&u, 0, u.len(), &w)
        },
        None => false,
    }
}

/// The view of an optional `&str`.
pub open spec fn opt_str_view(a: Option<&str>) -> Option<Seq<char>> {
    match a {
        Some(x) => Some(x@),
        None => None,
    }
}

/// Local-row ordering: the current branch first, then everything else by
/// most recent tip, ties broken alphabetically.
pub fn ordered_locals(locals: &[Branch], current: Option<&str>) -> (r: Vec<Branch>)
    ensures
        views(r@) == ordered_locals_spec(views(locals@), opt_str_view(current)),
{
    let ghost s = views(locals@);
    let ghost cur = opt_str_view(current);
    let mut rest: Vec<ByRecency> = Vec::new();
    let mut first: Option<Branch> = None;
    let mut i: usize = 0;
    assert(s.skip(0) =~= s);
    while i < locals.len()
        invariant
            s == views(locals@),
            cur == opt_str_view(current),
            0 <= i <= locals@.len(),
            views(rest@) == not_named(s.take(i as int), cur),
            first_named(s, cur) == match first {
                Some(b) => Some(b@),
                None => first_named(s.skip(i as int), cur),
            },
        decreases locals@.len() - i,
    {
        let b = &locals[i];
        assert(s[i as int] == b@);
        assert(s.take(i + 1).drop_last() =~= s.take(i as int));
        assert(s.skip(i as int).skip(1) =~= s.skip(i + 1));
        assert(s.skip(i as int)[0] == b@);
        if opt_str_eq(current, &b.name) {
            if first.is_none() {
                first = Some(b.copy());
            }
        } else {
            rest.push(ByRecency(b.copy()));
            assert(views(rest@) =~= not_named(s.take(i as int), cur).push(b@));
        }
        i += 1;
    }
    assert(s.take(i as int) =~= s);
    let ghost rv = views(rest@);
    let sorted = stable_sort(rest);
    assert((|a: BranchValue, b: BranchValue| ByRecency::view_less(a, b)) =~= (|a: BranchValue, b: BranchValue| recency_less(a, b)));
    let mut out: Vec<Branch> = Vec::new();
    match first {
        Some(b) => out.push(b),
        None => {
            assert(s.skip(i as int).len() == 0);
        },
    }
    let ghost head = views(out@);
    let ghost orig = sorted@;
    for w in it: sorted.into_iter()
        invariant
            orig == it.seq(),
            views(out@) == head + views(it.seq().take(it.index() as int)),
    {
        let ghost k = it.index();
        let ghost before = views(out@);
        assert(it.seq()[k] == w);
        out.push(w.0);
        assert(views(out@) =~= before.push(w@));
        assert(views(it.seq().take(k + 1)) =~= views(it.seq().take(k as int)).push(w@));
    }
    assert(orig.take(orig.len() as int) =~= orig);
    out
}


// --- row state at a glance --------------------------------------------------------

/// Stale threshold in seconds: a branch untouched for four weeks is dimmed
/// (never hidden).
pub const STALE_THRESHOLD: i64 = 2_419_200;

/// A branch is stale at `now` when its tip is older than the threshold.
pub open spec fn is_stale_spec(b: BranchValue, now: int) -> bool {
    match b.last_touched {
        Some(t) => now - t > STALE_THRESHOLD,
        None => false,
    }
}

/// Whether `branch` reads as stale at `now` (seconds since the epoch).
pub fn is_stale(branch: &Branch, now: i64) -> (r: bool)
    ensures
        r == is_stale_spec(branch@, now as int),
{
    match branch.last_touched {
        Some(t) => (now as i128) - (t as i128) > STALE_THRESHOLD as i128,
        None => false,
    }
}

/// Everything a branch row paints beyond its name: staleness, the upstream
/// it tracks, and the sync relationship.
#[derive(Clone, Debug, PartialEq, Eq)]
pub struct RowMeta {
    /// Branch untouched past the threshold: dimmed.
    pub stale: bool,
    /// Upstream tracking branch (e.g. `origin/main`), if any.
    pub upstream: Option<String>,
    /// The row's sync pair when the branch tracks an upstream and has
    /// something to report; `None` when it is in sync.
    pub badge: Option<(SyncKind, String)>,
}

/// Whether a branch has nothing to report against its upstream.
pub open spec fn in_sync(ahead: nat, behind: nat, gone: bool) -> bool {
    !gone && ahead == 0 && behind == 0
}

/// Assembles the row's metadata at `now`: the badge is the sync pair of a
/// tracked branch with something to report, and absent when it is in sync.
pub fn row_meta(branch: &Branch, now: i64) -> (r: RowMeta)
    ensures
        r.stale == is_stale_spec(branch@, now as int),
        opt_view(r.upstream) == branch@.tracking,
        match r.badge {
            Some((k, s)) => branch@.tracking is Some && !in_sync(branch@.ahead, branch@.behind, branch@.gone)
                && (k, s@) == sync_badge_spec(branch@.ahead, branch@.behind, branch@.gone),
            None => branch@.tracking is None || in_sync(branch@.ahead, branch@.behind, branch@.gone),
        },
{
    let badge = match &branch.tracking {
        Some(_) => {
            if !branch.gone && branch.ahead == 0 && branch.behind == 0 {
                None
            } else {
                sync_badge(branch.ahead, branch.behind, branch.gone)
            }
        },
        None => None,
    };
    RowMeta { stale: is_stale(branch, now), upstream: copy_opt(&branch.tracking), badge }
}

/// The per-direction chips of a tracked row: the gone marker, or one chip
/// per non-zero direction; a branch with nothing to report is unmarked.
pub open spec fn sync_chips_spec(ahead: nat, behind: nat, gone: bool) -> Seq<(SyncKind, Seq<char>)> {
    if gone {
        seq![(SyncKind::Gone, "gone"@)]
    } else {
        (if ahead > 0 {
            seq![(SyncKind::Ahead, decimal(ahead))]
        } else {
            seq![]
        }) + (if behind > 0 {
            seq![(SyncKind::Behind, decimal(behind))]
        } else {
            seq![]
        })
    }
}

/// Per-direction chips for a tracked row.
pub fn sync_chips(ahead: usize, behind: usize, gone: bool) -> (r: Vec<(SyncKind, String)>)
    ensures
        r@.map_values(|c: (SyncKind, String)| (c.0, c.1@)) == sync_chips_spec(
            ahead as nat,
            behind as nat,
            gone,
        ),
{
    let mut v: Vec<(SyncKind, String)> = Vec::new();
    if gone {
        v.push((SyncKind::Gone, string_from("gone")));
        assert(v@.map_values(|c: (SyncKind, String)| (c.0, c.1@)) =~= seq![(SyncKind::Gone, "gone"@)]);
        return v;
    }
    if ahead > 0 {
        let mut s = String::new();
        push_decimal(&mut s, ahead as u64);
        v.push((SyncKind::Ahead, s));
    }
    if behind > 0 {
        let mut s = String::new();
        push_decimal(&mut s, behind as u64);
        v.push((SyncKind::Behind, s));
    }
    assert(v@.map_values(|c: (SyncKind, String)| (c.0, c.1@)) =~= sync_chips_spec(
        ahead as nat,
        behind as nat,
        gone,
    ));
    v
}

// --- search -----------------------------------------------------------------------

/// `n[i..]` is a subsequence of `h[j..]`, matching each needle character at
/// its earliest occurrence.
pub open spec fn subseq_from(n: Seq<char>, i: int, h: Seq<char>, j: int) -> bool
    decreases h.len() - j,
{
    if i >= n.len() {
        true
    } else if j >= h.len() {
        false
    } else if h[j] == n[i] {
        subseq_from(n, i + 1, h, j + 1)
    } else {
        subseq_from(n, i, h, j + 1)
    }
}

/// `n` is a subsequence of `h`.
pub open spec fn is_subsequence(n: Seq<char>, h: Seq<char>) -> bool {
    subseq_from(n, 0, h, 0)
}

/// Case-insensitive subsequence match of one (trimmed) word.
pub open spec fn fuzzy_word_spec(haystack: Seq<char>, needle: Seq<char>) -> bool {
    let t = trim(needle);
    t.len() == 0 || is_subsequence(to_lower(t), to_lower(haystack))
}

/// Case-insensitive subsequence match: `mre` surfaces `multi-root-executor`.
pub fn fuzzy_word(haystack: &str, needle: &str) -> (r: bool)
    ensures
        r == fuzzy_word_spec(haystack@, needle@),
{
    let nv = chars_of(needle);
    let (a, b) = span_trim(&nv, 0, nv.len());
    assert(nv@.subrange(0, nv@.len() as int) =~= nv@);
    if a == b {
        return true;
    }
    let trimmed = crate::text::string_of(&nv, a, b);
    assert(trimmed@ == trim(needle@));
    let hay_l = lowercase(haystack);
    let hay = chars_of(hay_l.as_str());
    let nee_l = lowercase(trimmed.as_str());
    let nee = chars_of(nee_l.as_str());
    let mut i: usize = 0;
    let mut pos: usize = 0;
    while i < nee.len()
        invariant
            0 <= i <= nee@.len(),
            0 <= pos <= hay@.len(),
            nee@ == to_lower(trim(needle@)),
            hay@ == to_lower(haystack@),
            trim(needle@).len() > 0,
            is_subsequence(nee@, hay@) == subseq_from(nee@, i as int, hay@, pos as int),
        decreases nee@.len() - i,
    {
        let c = nee[i];
        let mut j = pos;
        while j < hay.len() && hay[j] != c
            invariant
                pos <= j <= hay@.len(),
                c == nee@[i as int],
                i < nee@.len(),
                subseq_from(nee@, i as int, hay@, pos as int) == subseq_from(nee@, i as int, hay@, j as int),
            decreases hay@.len() - j,
        {
            j += 1;
        }
        if j == hay.len() {
            return false;
        }
        pos = j + 1;
        i += 1;
    }
    true
}

/// Every whitespace-separated query word must fuzzy-match the haystack.
pub open spec fn matches_query_spec(haystack: Seq<char>, query: Seq<char>) -> bool {
    let q = trim(query);
    q.len() == 0 || forall|k: int| 0 <= k < words(q).len() ==> fuzzy_word_spec(haystack, #[trigger] words(q)[k])
}

/// The order of a query's words, and repeats of them, do not matter: two
/// queries with the same set of words match the same haystacks (a blank
/// query, with no words, matches everything).
pub proof fn lemma_query_words_unordered(haystack: Seq<char>, q1: Seq<char>, q2: Seq<char>)
    requires
        words(trim(q1)).to_set() == words(trim(q2)).to_set(),
    ensures
        matches_query_spec(haystack, q1) == matches_query_spec(haystack, q2),
{
    let w1 = words(trim(q1));
    let w2 = words(trim(q2));
    assert forall|k: int| 0 <= k < w1.len() implies w2.contains(#[trigger] w1[k]) by {
        assert(w1.to_set().contains(w1[k]));
        assert(w2.to_set().contains(w1[k]));
    }
    assert forall|k: int| 0 <= k < w2.len() implies w1.contains(#[trigger] w2[k]) by {
        assert(w2.to_set().contains(w2[k]));
        assert(w1.to_set().contains(w2[k]));
    }
    lemma_words_of_blank(trim(q1));
    lemma_words_of_blank(trim(q2));
}

proof fn lemma_words_of_blank(q: Seq<char>)
    ensures
        q.len() == 0 ==> words(q).len() == 0,
{
}

/// Every whitespace-separated query word must fuzzy-match the haystack.
pub fn matches_query(haystack: &str, query: &str) -> (r: bool)
    ensures
        r == matches_query_spec(haystack@, query@),
{
    let qv = chars_of(query);
    let (a, b) = span_trim(&qv, 0, qv.len());
    assert(qv@.subrange(0, qv@.len() as int) =~= qv@);
    if a == b {
        return true;
    }
    let ghost q = trim(query@);
    let ws = span_words(&qv, a, b);
    let mut k: usize = 0;
    while k < ws.len()
        invariant
            q == qv@.subrange(a as int, b as int),
            q == trim(query@),
            q.len() > 0,
            a <= b <= qv@.len(),
            ws@.len() == words(q).len(),
            forall|m: int|
                0 <= m < ws@.len() ==> {
                    let (x, y) = #[trigger] ws@[m];
                    &&& a <= x <= y <= b
                    &&& qv@.subrange(x as int, y as int) == words(q)[m]
                },
            0 <= k <= ws@.len(),
            forall|m: int| 0 <= m < k ==> fuzzy_word_spec(haystack@, #[trigger] words(q)[m]),
        decreases ws@.len() - k,
    {
        let (x, y) = ws[k];
        let w = crate::text::string_of(&qv, x, y);
        if !fuzzy_word(haystack, w.as_str()) {
            assert(!fuzzy_word_spec(haystack@, words(q)[k as int]));
            return false;
        }
        k += 1;
    }
    true
}

/// A branch matches when its name, or the message of its tip commit,
/// matches every query word.
pub open spec fn branch_matches_spec(b: BranchValue, query: Seq<char>) -> bool {
    matches_query_spec(b.name, query) || match b.tip {
        Some(t) => matches_query_spec(t.message, query),
        None => false,
    }
}

/// Whether `branch` matches the search `query`.
pub fn branch_matches(branch: &Branch, query: &str) -> (r: bool)
    ensures
        r == branch_matches_spec(branch@, query@),
{
    if matches_query(branch.name.as_str(), query) {
        return true;
    }
    match &branch.tip {
        Some(t) => matches_query(t.message.as_str(), query),
        None => false,
    }
}

// --- keyboard path ------------------------------------------------------------------

/// The branches of a forest's leaves, depth first, in order.
pub open spec fn forest_branches(s: Seq<NodeValue>) -> Seq<BranchValue>
    decreases s,
{
    if s.len() == 0 {
        seq![]
    } else {
        forest_branches(s.subrange(0, s.len() - 1)) + node_branches(s[s.len() - 1])
    }
}

/// The branches of a node's leaves, depth first, in order.
pub open spec fn node_branches(n: NodeValue) -> Seq<BranchValue>
    decreases n,
{
    match n {
        NodeValue::Leaf(l) => seq![l.branch],
        NodeValue::Dir { children, .. } => forest_branches(children),
    }
}

proof fn lemma_forest_branches_prefix(s: Seq<NodeValue>, j: int)
    requires
        0 <= j < s.len(),
    ensures
        forest_branches(s.subrange(0, j + 1)) == forest_branches(s.subrange(0, j)) + node_branches(s[j]),
{
    assert(s.subrange(0, j + 1).subrange(0, j) =~= s.subrange(0, j));
}

fn collect_leaves<'a>(nodes: &'a [BranchNode], out: &mut Vec<&'a Branch>)
    ensures
        views(final(out)@) == views(old(out)@) + forest_branches(node_values(nodes@)),
    decreases nodes@,
{
    let ghost s = node_values(nodes@);
    proof {
        lemma_node_values(nodes@);
    }
    let ghost start = views(out@);
    let mut i: usize = 0;
    assert(s.subrange(0, 0) =~= Seq::<NodeValue>::empty());
    assert(start + Seq::<BranchValue>::empty() =~= start);
    while i < nodes.len()
        invariant
            0 <= i <= nodes@.len(),
            s == node_values(nodes@),
            s.len() == nodes@.len(),
            forall|k: int| 0 <= k < nodes@.len() ==> #[trigger] s[k] == node_value(nodes@[k]),
            views(out@) == start + forest_branches(s.subrange(0, i as int)),
        decreases nodes@.len() - i,
    {
        proof {
            lemma_forest_branches_prefix(s, i as int);
        }
        let ghost before = views(out@);
        assert(s[i as int] == node_value(nodes@[i as int]));
        match &nodes[i] {
            BranchNode::Leaf(l) => {
                out.push(&l.branch);
                assert(views(out@) =~= before + seq![l.branch@]);
            },
            BranchNode::Dir(d) => {
                proof {
                    assert(decreases_to!(nodes@ => nodes@[i as int]));
                    assert(decreases_to!(nodes@[i as int] => nodes@[i as int]->Dir_0));
                    assert(decreases_to!(d => d.children));
                    assert(decreases_to!(d.children => d.children@));
                }
                collect_leaves(d.children.as_slice(), out);
            },
        }
        assert(views(out@) =~= start + forest_branches(s.subrange(0, i + 1)));
        i += 1;
    }
    assert(s.subrange(0, i as int) =~= s);
}

/// The keyboard rows of one repository section: its local leaves that match
/// the search, each naming the section's repository (by name only when the
/// project has several) and current branch.
pub open spec fn section_rows(sec: SectionValue, multi: bool, query: Seq<char>) -> Seq<RowKey> {
    forest_branches(sec.locals).filter(|b: BranchValue| branch_matches_spec(b, query)).map_values(
        |b: BranchValue|
            RowKey {
                root: sec.root_id,
                branch: b,
                current: sec.current_branch,
                repo: if multi {
                    sec.repo_name
                } else {
                    seq![]
                },
            },
    )
}

/// The keyboard rows of every in-scope section, in section order.
pub open spec fn keyboard_rows(
    secs: Seq<SectionValue>,
    multi: bool,
    repo_filter: Option<Seq<char>>,
    query: Seq<char>,
) -> Seq<RowKey>
    decreases secs.len(),
{
    if secs.len() == 0 {
        seq![]
    } else {
        let rest = keyboard_rows(secs.drop_last(), multi, repo_filter, query);
        match repo_filter {
            Some(f) => if secs.last().root_id != f {
                rest
            } else {
                rest + section_rows(secs.last(), multi, query)
            },
            None => rest + section_rows(secs.last(), multi, query),
        }
    }
}

/// The local rows the keyboard path walks: every in-scope repository's local
/// leaves under the search, in the list's keyboard order. `root_count` is the
/// number of repositories in the project; `repo_filter` the repository the
/// tab is scoped to, if any.
pub fn keyboard_locals<'a>(view: &'a BranchView, root_count: usize, repo_filter: Option<&RootId>, query: &str) -> (r: Vec<
    LocalRow<'a>,
>)
    ensures
        views(r@) == sort_by_spec(
            keyboard_rows(
                views(view.repos@),
                root_count > 1,
                match repo_filter {
                    Some(f) => Some(f.0@),
                    None => None,
                },
                query@,
            ),
            |a: RowKey, b: RowKey| keyboard_less(a, b),
        ),
{
    let multi = root_count > 1;
    let ghost fv: Option<Seq<char>> = match repo_filter {
        Some(f) => Some(f.0@),
        None => None,
    };
    let ghost secs = views(view.repos@);
    let mut out: Vec<LocalRow<'a>> = Vec::new();
    let mut i: usize = 0;
    while i < view.repos.len()
        invariant
            0 <= i <= view.repos@.len(),
            secs == views(view.repos@),
            multi == (root_count > 1),
            fv == match repo_filter {
                Some(f) => Some(f.0@),
                None => None::<Seq<char>>,
            },
            views(out@) == keyboard_rows(secs.take(i as int), multi, fv, query@),
        decreases view.repos@.len() - i,
    {
        let section = &view.repos[i];
        let ghost sec = section@;
        assert(secs[i as int] == sec);
        assert(secs.take(i + 1).drop_last() =~= secs.take(i as int));
        assert(secs.take(i + 1).last() == sec);
        let skip = match repo_filter {
            Some(f) => !section.root_id.same(f),
            None => false,
        };
        if !skip {
            let repo: &'a str = if multi {
                section.repo_name.as_str()
            } else {
                ""
            };
            proof {
                reveal_strlit("");
            }
            let current: Option<&'a str> = match &section.current_branch {
                Some(c) => Some(c.as_str()),
                None => None,
            };
            let mut leaves: Vec<&'a Branch> = Vec::new();
            collect_leaves(section.locals.as_slice(), &mut leaves);
            let ghost lv = views(leaves@);
            assert(lv =~= forest_branches(sec.locals));
            let ghost before = views(out@);
            let ghost pred = |b: BranchValue| branch_matches_spec(b, query@);
            let ghost mk = |b: BranchValue|
                RowKey {
                    root: sec.root_id,
                    branch: b,
                    current: sec.current_branch,
                    repo: if multi {
                        sec.repo_name
                    } else {
                        seq![]
                    },
                };
            let mut j: usize = 0;
            while j < leaves.len()
                invariant
                    0 <= j <= leaves@.len(),
                    lv == views(leaves@),
                    sec == section@,
                    views(out@) == before + lv.take(j as int).filter(pred).map_values(mk),
                    repo@ == (if multi {
                        sec.repo_name
                    } else {
                        seq![]
                    }),
                    opt_str_view(current) == sec.current_branch,
                    pred == (|b: BranchValue| branch_matches_spec(b, query@)),
                    mk == (|b: BranchValue|
                        RowKey {
                            root: sec.root_id,
                            branch: b,
                            current: sec.current_branch,
                            repo: if multi {
                                sec.repo_name
                            } else {
                                seq![]
                            },
                        }),
                decreases leaves@.len() - j,
            {
                let b = leaves[j];
                assert(lv.take(j + 1).drop_last() =~= lv.take(j as int));
                assert(lv[j as int] == b@);
                let ghost prev = views(out@);
                proof {
                    assert(lv.take(j + 1) =~= lv.take(j as int).push(b@));
                    lv.take(j as int).lemma_filter_push(b@, pred);
                }
                if branch_matches(b, query) {
                    out.push(LocalRow { root: &section.root_id, branch: b, current, repo });
                    assert(lv.take(j + 1).filter(pred) == lv.take(j as int).filter(pred).push(b@));
                    assert(views(out@) =~= prev.push(mk(b@)));
                    assert(lv.take(j + 1).filter(pred).map_values(mk) =~= lv.take(j as int).filter(
                        pred,
                    ).map_values(mk).push(mk(b@)));
                } else {
                    assert(lv.take(j + 1).filter(pred) == lv.take(j as int).filter(pred));
                }
                j += 1;
            }
            assert(lv.take(j as int) =~= lv);
        }
        i += 1;
    }
    assert(secs.take(i as int) =~= secs);
    keyboard_order(&mut out);
    out
}

// --- detail panel -------------------------------------------------------------------

/// The sync part of the relationship line: "N ahead", "N behind", or the
/// badge text itself for the other states.
pub open spec fn sync_part(kind: SyncKind, label: Seq<char>) -> Seq<char> {
    match kind {
        SyncKind::Ahead => label + " ahead"@,
        SyncKind::Behind => label + " behind"@,
        _ => label,
    }
}

/// The detail panel's relationship line: the sync part and "tracks
/// <upstream>", joined by " · ", each only when present.
pub open spec fn relationship_spec(badge: Option<(SyncKind, Seq<char>)>, upstream: Option<Seq<char>>) -> Seq<char> {
    match (badge, upstream) {
        (Some((k, l)), Some(u)) => sync_part(k, l) + " · "@ + "tracks "@ + u,
        (Some((k, l)), None) => sync_part(k, l),
        (None, Some(u)) => "tracks "@ + u,
        (None, None) => seq![],
    }
}

/// One quiet relationship line for the detail panel: the sync state against
/// the tracked remote and the upstream it tracks ("↑2 ahead · tracks
/// origin/main").
pub fn relationship_line(meta: &RowMeta) -> (r: String)
    ensures
        r@ == relationship_spec(
            match meta.badge {
                Some((k, l)) => Some((k, l@)),
                None => None,
            },
            opt_view(meta.upstream),
        ),
{
    let mut out = String::new();
    let mut any = false;
    match &meta.badge {
        Some((kind, label)) => {
            push_str(&mut out, label.as_str());
            match kind {
                SyncKind::Ahead => push_str(&mut out, " ahead"),
                SyncKind::Behind => push_str(&mut out, " behind"),
                _ => {},
            }
            any = true;
        },
        None => {},
    }
    match &meta.upstream {
        Some(up) => {
            if any {
                push_str(&mut out, " · ");
            }
            push_str(&mut out, "tracks ");
            push_str(&mut out, up.as_str());
        },
        None => {},
    }
    proof {
        reveal_strlit(" ahead");
        reveal_strlit(" behind");
        reveal_strlit(" · ");
        reveal_strlit("tracks ");
    }
    assert(out@ =~= relationship_spec(
        match meta.badge {
            Some((k, l)) => Some((k, l@)),
            None => None,
        },
        opt_view(meta.upstream),
    ));
    out
}

/// The arguments that count the commits of `branch` that HEAD lacks.
pub open spec fn unreachable_count_args_spec(branch: Seq<char>) -> Seq<Seq<char>> {
    seq!["rev-list"@, "--count"@, "HEAD.."@ + branch]
}

/// The `git` arguments whose output [`delete_consequence`] reads: the count
/// of commits on `branch` that are not on HEAD.
pub fn unreachable_count_args(branch: &str) -> (r: Vec<String>)
    ensures
        views(r@) == unreachable_count_args_spec(branch@),
{
    let mut range = string_from("HEAD..");
    push_str(&mut range, branch);
    let v = vec![string_from("rev-list"), string_from("--count"), range];
    assert(views(v@) =~= unreachable_count_args_spec(branch@));
    v
}

/// The consequence of deleting a local branch in human terms, from the
/// repository's current branch and the output of the commit count (`None`
/// when the count could not be run): unreachable commits versus safe to
/// delete. Nothing is said without a current branch or a readable count.
pub open spec fn delete_consequence_spec(current: Option<Seq<char>>, output: Option<Seq<char>>) -> Option<Seq<char>> {
    match current {
        None => None,
        Some(cur) => match output {
            None => None,
            Some(out) => match parse_usize(trim(out)) {
                None => None,
                Some(n) => if n == 0 {
                    Some("everything on this branch already exists on "@ + cur + " — safe to delete"@)
                } else {
                    Some(
                        "this branch has "@ + decimal(n) + " commit(s) not on "@ + cur
                            + " — they become unreachable after deleting"@,
                    )
                },
            },
        },
    }
}

/// The human-terms consequence of deleting a local branch: `current` is the
/// repository's checked-out branch, `count_output` what the count of
/// [`unreachable_count_args`] printed (`None` when it failed).
pub fn delete_consequence(current: Option<&str>, count_output: Option<&str>) -> (r: Option<String>)
    ensures
        opt_view(r) == delete_consequence_spec(opt_str_view(current), opt_str_view(count_output)),
{
    let cur = match current {
        Some(c) => c,
        None => return None,
    };
    let out = match count_output {
        Some(o) => o,
        None => return None,
    };
    let v = chars_of(out);
    let (a, b) = span_trim(&v, 0, v.len());
    assert(v@.subrange(0, v@.len() as int) =~= v@);
    match parse_usize_in(&v, a, b) {
        None => None,
        Some(n) => {
            if n == 0 {
                let mut s = string_from("everything on this branch already exists on ");
                push_str(&mut s, cur);
                push_str(&mut s, " — safe to delete");
                Some(s)
            } else {
                let mut s = string_from("this branch has ");
                push_decimal(&mut s, n as u64);
                push_str(&mut s, " commit(s) not on ");
                push_str(&mut s, cur);
                push_str(&mut s, " — they become unreachable after deleting");
                Some(s)
            }
        },
    }
}

// --- fetch ---------------------------------------------------------------------------

/// The names of the remote-tracking branches among `bs`, in order.
pub open spec fn remote_names(bs: Seq<BranchValue>) -> Seq<Seq<char>>
    decreases bs.len(),
{
    if bs.len() == 0 {
        seq![]
    } else if bs.last().kind == BranchKind::Remote {
        remote_names(bs.drop_last()).push(bs.last().name)
    } else {
        remote_names(bs.drop_last())
    }
}

/// The index of the first repository with id `id`.
pub open spec fn root_pos(ids: Seq<Seq<char>>, id: Seq<char>) -> Option<int>
    decreases ids.len(),
{
    if ids.len() == 0 {
        None
    } else {
        match root_pos(ids.drop_last(), id) {
            Some(k) => Some(k),
            None => if ids.last() == id {
                Some(ids.len() - 1)
            } else {
                None
            },
        }
    }
}

/// The ids of the repositories.
pub open spec fn root_ids(roots: Seq<Root>) -> Seq<Seq<char>> {
    roots.map_values(|r: Root| r.id.0@)
}

/// The remote branch names a fetch target had before the fetch: those of the
/// first repository with its id, none when no repository has it.
pub open spec fn before_fetch(roots: Seq<Root>, id: Seq<char>) -> Seq<Seq<char>> {
    match root_pos(root_ids(roots), id) {
        Some(k) => remote_names(views(roots[k].branches@)),
        None => seq![],
    }
}

/// What a fetch of the tab's scope snapshots: each target repository (the
/// one the tab is scoped to, else every repository in order) with its
/// remote branch names before the fetch, so new ones can be told apart once
/// it lands.
pub open spec fn fetch_scope_spec(roots: Seq<Root>, filter: Option<Seq<char>>) -> Seq<(Seq<char>, Seq<Seq<char>>)> {
    match filter {
        Some(f) => seq![(f, before_fetch(roots, f))],
        None => Seq::new(roots.len(), |i: int| (roots[i].id.0@, before_fetch(roots, roots[i].id.0@))),
    }
}

proof fn lemma_root_pos(ids: Seq<Seq<char>>, id: Seq<char>)
    ensures
        root_pos(ids, id) matches Some(k) ==> 0 <= k < ids.len() && ids[k] == id,
        root_pos(ids, id) is None ==> forall|j: int| 0 <= j < ids.len() ==> ids[j] != id,
        forall|k: int| 0 <= k < ids.len() && ids[k] == id && (forall|j: int| 0 <= j < k ==> ids[j] != id)
            ==> root_pos(ids, id) == Some(k),
    decreases ids.len(),
{
    if ids.len() > 0 {
        lemma_root_pos(ids.drop_last(), id);
        assert forall|j: int| 0 <= j < ids.len() - 1 implies ids.drop_last()[j] == ids[j] by {}
        assert forall|k: int| 0 <= k < ids.len() && ids[k] == id && (forall|j: int| 0 <= j < k ==> ids[j] != id)
            implies root_pos(ids, id) == Some(k) by {
            if k < ids.len() - 1 {
                assert(ids.drop_last()[k] == id);
                assert forall|j: int| 0 <= j < k implies ids.drop_last()[j] != id by {
                    assert(ids.drop_last()[j] == ids[j]);
                }
            } else {
                assert forall|j: int| 0 <= j < ids.drop_last().len() implies #[trigger] ids.drop_last()[j] != id by {
                    assert(ids.drop_last()[j] == ids[j]);
                }
            }
        }
    }
}

fn remote_names_of(bs: &Vec<Branch>) -> (r: Vec<String>)
    ensures
        views(r@) == remote_names(views(bs@)),
{
    let ghost s = views(bs@);
    let mut out: Vec<String> = Vec::new();
    let mut i: usize = 0;
    while i < bs.len()
        invariant
            0 <= i <= bs@.len(),
            s == views(bs@),
            views(out@) == remote_names(s.take(i as int)),
        decreases bs@.len() - i,
    {
        assert(s.take(i + 1).drop_last() =~= s.take(i as int));
        assert(s.take(i + 1).last() == bs@[i as int]@);
        if bs[i].kind == BranchKind::Remote {
            let ghost before = views(out@);
            out.push(string_from(bs[i].name.as_str()));
            assert(views(out@) =~= before.push(bs@[i as int]@.name));
        }
        i += 1;
    }
    assert(s.take(i as int) =~= s);
    out
}

fn names_before_fetch(roots: &[Root], id: &RootId) -> (r: Vec<String>)
    ensures
        views(r@) == before_fetch(roots@, id.0@),
{
    let ghost ids = root_ids(roots@);
    proof {
        lemma_root_pos(ids, id.0@);
    }
    let mut i: usize = 0;
    while i < roots.len()
        invariant
            0 <= i <= roots@.len(),
            ids == root_ids(roots@),
            root_pos(ids, id.0@) is None ==> forall|j: int| 0 <= j < ids.len() ==> ids[j] != id.0@,
            forall|k: int| 0 <= k < ids.len() && ids[k] == id.0@ && (forall|j: int| 0 <= j < k ==> ids[j] != id.0@)
                ==> root_pos(ids, id.0@) == Some(k),
            forall|j: int| 0 <= j < i ==> ids[j] != id.0@,
        decreases roots@.len() - i,
    {
        assert(ids[i as int] == roots@[i as int].id.0@);
        if roots[i].id.same(id) {
            assert(root_pos(ids, id.0@) == Some(i as int));
            return remote_names_of(&roots[i].branches);
        }
        i += 1;
    }
    let out: Vec<String> = Vec::new();
    assert(views(out@) =~= Seq::<Seq<char>>::empty());
    out
}

/// The fetch of the tab's scope: each target repository (the one the tab is
/// scoped to, else every repository in order) with its remote branch names
/// before the fetch, the snapshot the fetch's result is compared with.
pub fn fetch_scope(roots: &[Root], filter: Option<&RootId>) -> (r: Vec<(RootId, Vec<String>)>)
    ensures
        r@.map_values(|t: (RootId, Vec<String>)| (t.0.0@, views(t.1@))) == fetch_scope_spec(
            roots@,
            match filter {
                Some(f) => Some(f.0@),
                None => None,
            },
        ),
{
    let mut out: Vec<(RootId, Vec<String>)> = Vec::new();
    match filter {
        Some(f) => {
            let names = names_before_fetch(roots, f);
            out.push((RootId(string_from(f.0.as_str())), names));
            assert(out@.map_values(|t: (RootId, Vec<String>)| (t.0.0@, views(t.1@))) =~= seq![
                (f.0@, before_fetch(roots@, f.0@)),
            ]);
        },
        None => {
            let mut i: usize = 0;
            while i < roots.len()
                invariant
                    0 <= i <= roots@.len(),
                    out@.len() == i,
                    forall|k: int|
                        0 <= k < i ==> (#[trigger] out@[k]).0.0@ == roots@[k].id.0@ && views(out@[k].1@)
                            == before_fetch(roots@, roots@[k].id.0@),
                decreases roots@.len() - i,
            {
                let names = names_before_fetch(roots, &roots[i].id);
                out.push((RootId(string_from(roots[i].id.0.as_str())), names));
                i += 1;
            }
            assert(out@.map_values(|t: (RootId, Vec<String>)| (t.0.0@, views(t.1@))) =~= Seq::new(
                roots@.len(),
                |i: int| (roots@[i].id.0@, before_fetch(roots@, roots@[i].id.0@)),
            ));
        },
    }
    out
}

// --- tree events ------------------------------------------------------------------------

/// The Branches tab's tree state: the selected row (branch and repository),
/// the row whose overflow menu is open, the Local and Tags groups' open
/// state, the collapsed remote groups (a set), the remotes switch, the row
/// being renamed and its draft, and the search text.
pub struct BranchesUi {
    pub selected: Option<String>,
    pub selected_root: Option<RootId>,
    pub overflow: Option<(RootId, String)>,
    pub local_open: bool,
    pub tags_open: bool,
    pub collapsed_remotes: Vec<(RootId, String)>,
    pub show_remotes: bool,
    pub renaming: Option<String>,
    pub rename_draft: String,
    pub filter: String,
}

/// The work a tree event hands to the application.
#[derive(Clone, Debug, PartialEq, Eq)]
pub enum TreeEffect {
    Nothing,
    /// Check out `branch` of `root` (when the repository has it).
    Checkout { root: RootId, branch: String },
    /// Fetch the tab's scope.
    Fetch,
    /// Rename `old` to `new` in `root`.
    Rename { root: RootId, old: String, new: String },
    /// Open the New Branch dialog with `name` typed in (start and base
    /// cleared, base picker closed, checkout on).
    NewBranch { name: String },
}

/// An optional repository id's value.
pub open spec fn opt_root(r: Option<RootId>) -> Option<Seq<char>> {
    match r {
        Some(id) => Some(id.0@),
        None => None,
    }
}

/// An optional `(repository, branch)` pair's value.
pub open spec fn opt_pair(p: Option<(RootId, String)>) -> Option<(Seq<char>, Seq<char>)> {
    match p {
        Some((r, b)) => Some((r.0@, b@)),
        None => None,
    }
}

/// Whether the Branches state's fields other than those an event may touch
/// are as they were; each field is named by a flag saying it may change.
pub open spec fn ui_same_except(
    a: BranchesUi,
    b: BranchesUi,
    sel: bool,
    overflow: bool,
    groups: bool,
    collapsed: bool,
    remotes: bool,
    rename: bool,
    filter: bool,
) -> bool {
    &&& (!sel ==> opt_view(a.selected) == opt_view(b.selected) && opt_root(a.selected_root) == opt_root(b.selected_root))
    &&& (!overflow ==> opt_pair(a.overflow) == opt_pair(b.overflow))
    &&& (!groups ==> a.local_open == b.local_open && a.tags_open == b.tags_open)
    &&& (!collapsed ==> forall|r: Seq<char>, m: Seq<char>|
        pair_listed(a.collapsed_remotes@, r, m) == pair_listed(b.collapsed_remotes@, r, m))
    &&& (!remotes ==> a.show_remotes == b.show_remotes)
    &&& (!rename ==> opt_view(a.renaming) == opt_view(b.renaming) && a.rename_draft@ == b.rename_draft@)
    &&& (!filter ==> a.filter@ == b.filter@)
}

fn same_root(a: &Option<RootId>, b: &RootId) -> (r: bool)
    ensures
        r == (opt_root(*a) == Some(b.0@)),
{
    match a {
        Some(x) => x.same(b),
        None => false,
    }
}

fn same_name(a: &Option<String>, b: &str) -> (r: bool)
    ensures
        r == (opt_view(*a) == Some(b@)),
{
    match a {
        Some(x) => crate::text::str_eq(x.as_str(), b),
        None => false,
    }
}

fn copy_root(r: &RootId) -> (c: RootId)
    ensures
        c.0@ == r.0@,
{
    RootId(string_from(r.0.as_str()))
}

/// Applies one tree event to the Branches tab's state and says what work the
/// application runs:
/// - a row click selects the row, or clears the selection when the row was
///   already selected, and closes any overflow menu;
/// - a double click checks the branch out;
/// - the overflow button toggles that row's menu;
/// - a group header toggles its group; a remote header its collapsed state;
/// - the remotes switch sets whether remotes show;
/// - Fetch fetches the tab's scope;
/// - starting a rename closes the menu, selects the repository and starts
///   the draft from the branch name; committing ends the rename and, unless
///   the new name is empty or unchanged, renames (the selection follows the
///   new name); cancelling ends the rename;
/// - creating a branch opens the New Branch dialog with the typed name;
/// - clearing the search empties it.
pub fn apply_tree_event(ui: &mut BranchesUi, event: TreeEvent) -> (r: TreeEffect)
    ensures
        match event {
            TreeEvent::RowClicked { root, branch } => {
                &&& if opt_root(old(ui).selected_root) == Some(root.0@) && opt_view(old(ui).selected) == Some(branch@) {
                    final(ui).selected is None && final(ui).selected_root is None
                } else {
                    opt_view(final(ui).selected) == Some(branch@) && opt_root(final(ui).selected_root) == Some(root.0@)
                }
                &&& final(ui).overflow is None
                &&& ui_same_except(*old(ui), *final(ui), true, true, false, false, false, false, false)
                &&& r == TreeEffect::Nothing
            },
            TreeEvent::RowActivated { root, branch } => {
                &&& ui_same_except(*old(ui), *final(ui), false, false, false, false, false, false, false)
                &&& (r matches TreeEffect::Checkout { root: x, branch: b } && x.0@ == root.0@ && b@ == branch@)
            },
            TreeEvent::OverflowToggled { root, branch } => {
                &&& if opt_pair(old(ui).overflow) == Some((root.0@, branch@)) {
                    final(ui).overflow is None
                } else {
                    opt_pair(final(ui).overflow) == Some((root.0@, branch@))
                }
                &&& ui_same_except(*old(ui), *final(ui), false, true, false, false, false, false, false)
                &&& r == TreeEffect::Nothing
            },
            TreeEvent::GroupToggled(g) => {
                &&& final(ui).local_open == (if g == TreeGroup::Local {
                    !old(ui).local_open
                } else {
                    old(ui).local_open
                })
                &&& final(ui).tags_open == (if g == TreeGroup::Tags {
                    !old(ui).tags_open
                } else {
                    old(ui).tags_open
                })
                &&& ui_same_except(*old(ui), *final(ui), false, false, true, false, false, false, false)
                &&& r == TreeEffect::Nothing
            },
            TreeEvent::RemoteToggled { root, remote } => {
                &&& pair_listed(final(ui).collapsed_remotes@, root.0@, remote@) == !pair_listed(
                    old(ui).collapsed_remotes@,
                    root.0@,
                    remote@,
                )
                &&& forall|x: Seq<char>, m: Seq<char>|
                    !(x == root.0@ && m == remote@) ==> pair_listed(final(ui).collapsed_remotes@, x, m)
                        == pair_listed(old(ui).collapsed_remotes@, x, m)
                &&& ui_same_except(*old(ui), *final(ui), false, false, false, true, false, false, false)
                &&& r == TreeEffect::Nothing
            },
            TreeEvent::RemotesVisibleChanged { visible } => {
                &&& final(ui).show_remotes == visible
                &&& ui_same_except(*old(ui), *final(ui), false, false, false, false, true, false, false)
                &&& r == TreeEffect::Nothing
            },
            TreeEvent::FetchRequested { .. } => {
                &&& ui_same_except(*old(ui), *final(ui), false, false, false, false, false, false, false)
                &&& r == TreeEffect::Fetch
            },
            TreeEvent::RenameStarted { root, branch } => {
                &&& final(ui).overflow is None
                &&& opt_view(final(ui).renaming) == Some(branch@)
                &&& final(ui).rename_draft@ == branch@
                &&& opt_root(final(ui).selected_root) == Some(root.0@)
                &&& opt_view(final(ui).selected) == opt_view(old(ui).selected)
                &&& ui_same_except(*old(ui), *final(ui), true, true, false, false, false, true, false)
                &&& r == TreeEffect::Nothing
            },
            TreeEvent::RenameCommitted { root, old: o, new: n } => {
                &&& final(ui).renaming is None
                &&& final(ui).rename_draft@ == old(ui).rename_draft@
                &&& opt_root(final(ui).selected_root) == opt_root(old(ui).selected_root)
                &&& if n@.len() == 0 || n@ == o@ {
                    &&& opt_view(final(ui).selected) == opt_view(old(ui).selected)
                    &&& r == TreeEffect::Nothing
                } else {
                    &&& opt_view(final(ui).selected) == if opt_view(old(ui).selected) == Some(o@) {
                        Some(n@)
                    } else {
                        opt_view(old(ui).selected)
                    }
                    &&& (r matches TreeEffect::Rename { root: x, old: a, new: b } && x.0@ == root.0@ && a@ == o@
                        && b@ == n@)
                }
                &&& ui_same_except(*old(ui), *final(ui), true, false, false, false, false, true, false)
            },
            TreeEvent::RenameCancelled => {
                &&& final(ui).renaming is None
                &&& final(ui).rename_draft@ == old(ui).rename_draft@
                &&& ui_same_except(*old(ui), *final(ui), false, false, false, false, false, true, false)
                &&& r == TreeEffect::Nothing
            },
            TreeEvent::CreateBranchRequested { name } => {
                &&& ui_same_except(*old(ui), *final(ui), false, false, false, false, false, false, false)
                &&& (r matches TreeEffect::NewBranch { name: n } && n@ == name@)
            },
            TreeEvent::ClearFilterRequested => {
                &&& final(ui).filter@ == Seq::<char>::empty()
                &&& ui_same_except(*old(ui), *final(ui), false, false, false, false, false, false, true)
                &&& r == TreeEffect::Nothing
            },
        },
{
    match event {
        TreeEvent::RowClicked { root, branch } => {
            if same_root(&ui.selected_root, &root) && same_name(&ui.selected, branch.as_str()) {
                ui.selected = None;
                ui.selected_root = None;
            } else {
                ui.selected = Some(branch);
                ui.selected_root = Some(root);
            }
            ui.overflow = None;
            TreeEffect::Nothing
        },
        TreeEvent::RowActivated { root, branch } => TreeEffect::Checkout { root, branch },
        TreeEvent::OverflowToggled { root, branch } => {
            let open = match &ui.overflow {
                Some((r, b)) => r.same(&root) && crate::text::str_eq(b.as_str(), branch.as_str()),
                None => false,
            };
            if open {
                ui.overflow = None;
            } else {
                ui.overflow = Some((root, branch));
            }
            TreeEffect::Nothing
        },
        TreeEvent::GroupToggled(group) => {
            match group {
                TreeGroup::Local => {
                    ui.local_open = !ui.local_open;
                },
                TreeGroup::Tags => {
                    ui.tags_open = !ui.tags_open;
                },
            }
            TreeEffect::Nothing
        },
        TreeEvent::RemoteToggled { root, remote } => {
            toggle_collapsed(&mut ui.collapsed_remotes, &root, remote.as_str());
            TreeEffect::Nothing
        },
        TreeEvent::RemotesVisibleChanged { visible } => {
            ui.show_remotes = visible;
            TreeEffect::Nothing
        },
        TreeEvent::FetchRequested { .. } => TreeEffect::Fetch,
        TreeEvent::RenameStarted { root, branch } => {
            ui.overflow = None;
            ui.renaming = Some(string_from(branch.as_str()));
            ui.rename_draft = branch;
            ui.selected_root = Some(root);
            TreeEffect::Nothing
        },
        TreeEvent::RenameCommitted { root, old, new } => {
            ui.renaming = None;
            if chars_of(new.as_str()).len() == 0 || crate::text::str_eq(new.as_str(), old.as_str()) {
                return TreeEffect::Nothing;
            }
            if same_name(&ui.selected, old.as_str()) {
                ui.selected = Some(string_from(new.as_str()));
            }
            TreeEffect::Rename { root, old, new }
        },
        TreeEvent::RenameCancelled => {
            ui.renaming = None;
            TreeEffect::Nothing
        },
        TreeEvent::CreateBranchRequested { name } => TreeEffect::NewBranch { name },
        TreeEvent::ClearFilterRequested => {
            ui.filter = String::new();
            TreeEffect::Nothing
        },
    }
}

// --- keyboard ---------------------------------------------------------------------------

/// The keys the Branches tab reads this frame.
#[derive(Clone, Copy, Debug, PartialEq, Eq)]
pub struct ListKeys {
    pub down: bool,
    pub up: bool,
    pub enter: bool,
    pub delete: bool,
}

/// What a key press asks of the Branches tab.
#[derive(Clone, Debug, PartialEq, Eq)]
pub enum KeyEffect {
    Nothing,
    /// Select `branch` of `root`.
    Select { root: RootId, branch: String },
    /// Check out `branch` of `root`.
    Checkout { root: RootId, branch: Branch },
    /// Ask to delete `branch` of `root` (never the current branch).
    AskDelete { root: RootId, branch: Branch },
}

/// The position of the first row at or after `i` of repository `root`
/// named `name`.
pub open spec fn row_pos_from(rows: Seq<RowKey>, root: Seq<char>, name: Seq<char>, i: int) -> Option<int>
    decreases rows.len() - i,
{
    if i < 0 || i >= rows.len() {
        None
    } else if rows[i].root == root && rows[i].branch.name == name {
        Some(i)
    } else {
        row_pos_from(rows, root, name, i + 1)
    }
}

/// The position of the selected row among the keyboard rows: the first row
/// of the selected repository with the selected name.
pub open spec fn row_pos(rows: Seq<RowKey>, root: Seq<char>, name: Seq<char>) -> Option<int> {
    row_pos_from(rows, root, name, 0)
}

/// The index of the first branch of `bs` at or after `i` named `name`.
pub open spec fn branch_pos_from(bs: Seq<BranchValue>, name: Seq<char>, i: int) -> Option<int>
    decreases bs.len() - i,
{
    if i < 0 || i >= bs.len() {
        None
    } else if bs[i].name == name {
        Some(i)
    } else {
        branch_pos_from(bs, name, i + 1)
    }
}

/// The index of the first branch of `bs` named `name`.
pub open spec fn branch_pos(bs: Seq<BranchValue>, name: Seq<char>) -> Option<int> {
    branch_pos_from(bs, name, 0)
}

/// The selected branch as its repository has it: the repository (first with
/// the selected id), the branch (first with the selected name) and the
/// repository's current branch.
pub open spec fn selected_branch_spec(roots: Seq<Root>, root: Option<Seq<char>>, name: Option<Seq<char>>) -> Option<
    (int, int),
> {
    match (root, name) {
        (Some(r), Some(n)) => match root_pos(root_ids(roots), r) {
            Some(k) => match branch_pos(views(roots[k].branches@), n) {
                Some(j) => Some((k, j)),
                None => None,
            },
            None => None,
        },
        _ => None,
    }
}

/// The row the arrows move to: down goes one further (the first row with
/// nothing selected), up one back (the first row with nothing selected),
/// both stopping at the ends.
pub open spec fn arrow_target(sel: Option<int>, n: int, down: bool) -> int {
    if down {
        match sel {
            Some(i) => if i + 1 < n - 1 {
                i + 1
            } else {
                n - 1
            },
            None => 0,
        }
    } else {
        match sel {
            Some(i) => if i > 0 {
                i - 1
            } else {
                0
            },
            None => 0,
        }
    }
}

fn find_row(rows: &[LocalRow], root: &RootId, name: &str) -> (r: Option<usize>)
    ensures
        r matches Some(k) ==> k < rows@.len() && row_pos(views(rows@), root.0@, name@) == Some(k as int),
        r is None ==> row_pos(views(rows@), root.0@, name@) is None,
{
    let ghost rv = views(rows@);
    let mut i: usize = 0;
    while i < rows.len()
        invariant
            0 <= i <= rows@.len(),
            rv == views(rows@),
            row_pos_from(rv, root.0@, name@, i as int) == row_pos(rv, root.0@, name@),
        decreases rows@.len() - i,
    {
        assert(rv[i as int] == rows@[i as int]@);
        if rows[i].root.same(root) && crate::text::str_eq(rows[i].branch.name.as_str(), name) {
            return Some(i);
        }
        i += 1;
    }
    None
}

fn find_branch(bs: &Vec<Branch>, name: &str) -> (r: Option<usize>)
    ensures
        r matches Some(k) ==> k < bs@.len() && branch_pos(views(bs@), name@) == Some(k as int),
        r is None ==> branch_pos(views(bs@), name@) is None,
{
    let ghost bv = views(bs@);
    let mut i: usize = 0;
    while i < bs.len()
        invariant
            0 <= i <= bs@.len(),
            bv == views(bs@),
            branch_pos_from(bv, name@, i as int) == branch_pos(bv, name@),
        decreases bs@.len() - i,
    {
        assert(bv[i as int] == bs@[i as int]@);
        if crate::text::str_eq(bs[i].name.as_str(), name) {
            return Some(i);
        }
        i += 1;
    }
    None
}

fn find_root(roots: &[Root], id: &RootId) -> (r: Option<usize>)
    ensures
        r matches Some(k) ==> k < roots@.len() && root_pos(root_ids(roots@), id.0@) == Some(k as int),
        r is None ==> root_pos(root_ids(roots@), id.0@) is None,
{
    let ghost ids = root_ids(roots@);
    proof {
        lemma_root_pos(ids, id.0@);
    }
    let mut i: usize = 0;
    while i < roots.len()
        invariant
            0 <= i <= roots@.len(),
            ids == root_ids(roots@),
            root_pos(ids, id.0@) is None ==> forall|j: int| 0 <= j < ids.len() ==> ids[j] != id.0@,
            forall|k: int| 0 <= k < ids.len() && ids[k] == id.0@ && (forall|j: int| 0 <= j < k ==> ids[j] != id.0@)
                ==> root_pos(ids, id.0@) == Some(k),
            forall|j: int| 0 <= j < i ==> ids[j] != id.0@,
        decreases roots@.len() - i,
    {
        assert(ids[i as int] == roots@[i as int].id.0@);
        if roots[i].id.same(id) {
            assert(root_pos(ids, id.0@) == Some(i as int));
            return Some(i);
        }
        i += 1;
    }
    None
}

/// The keyboard path of the Branches tab, over the keyboard rows `ordered`
/// (see [`keyboard_locals`]) and the current selection. Nothing happens
/// while a modal surface owns the keyboard. Down selects the next row (the
/// first with nothing selected), Up the previous one (stopping at the
/// ends); else Enter checks the selected branch out and Delete asks to
/// delete it unless it is its repository's current branch. Enter and Delete
/// act on the selected branch as its repository has it, whatever its kind.
pub fn handle_keys(
    modal_open: bool,
    ordered: &[LocalRow],
    roots: &[Root],
    selected_root: Option<&RootId>,
    selected: Option<&str>,
    keys: ListKeys,
) -> (r: KeyEffect)
    ensures
        ({
            let rows = views(ordered@);
            let n = rows.len() as int;
            let sel = match (selected_root, selected) {
                (Some(id), Some(name)) => row_pos(rows, id.0@, name@),
                _ => None,
            };
            let sb = selected_branch_spec(
                roots@,
                match selected_root {
                    Some(id) => Some(id.0@),
                    None => None,
                },
                opt_str_view(selected),
            );
            if modal_open {
                r == KeyEffect::Nothing
            } else if (keys.down || keys.up) && n > 0 {
                let idx = arrow_target(sel, n, keys.down);
                r matches KeyEffect::Select { root, branch } && root.0@ == rows[idx].root && branch@
                    == rows[idx].branch.name
            } else {
                match sb {
                    Some((k, j)) => if keys.enter {
                        r matches KeyEffect::Checkout { root, branch } && root.0@ == roots@[k].id.0@ && branch@
                            == roots@[k].branches@[j]@
                    } else if keys.delete && opt_view(roots@[k].current_branch) != Some(roots@[k].branches@[j].name@) {
                        r matches KeyEffect::AskDelete { root, branch } && root.0@ == roots@[k].id.0@ && branch@
                            == roots@[k].branches@[j]@
                    } else {
                        r == KeyEffect::Nothing
                    },
                    None => r == KeyEffect::Nothing,
                }
            }
        }),
{
    if modal_open {
        return KeyEffect::Nothing;
    }
    let sel: Option<usize> = match (selected_root, selected) {
        (Some(id), Some(name)) => find_row(ordered, id, name),
        _ => None,
    };
    let n = ordered.len();
    if (keys.down || keys.up) && n > 0 {
        let idx = if keys.down {
            match sel {
                Some(i) => if i + 1 < n - 1 {
                    i + 1
                } else {
                    n - 1
                },
                None => 0,
            }
        } else {
            match sel {
                Some(i) => if i > 0 {
                    i - 1
                } else {
                    0
                },
                None => 0,
            }
        };
        assert(idx < n);
        assert(ordered@[idx as int]@ == views(ordered@)[idx as int]);
        let row = &ordered[idx];
        return KeyEffect::Select {
            root: RootId(string_from(row.root.0.as_str())),
            branch: string_from(row.branch.name.as_str()),
        };
    }
    let found: Option<(usize, usize)> = match (selected_root, selected) {
        (Some(id), Some(name)) => match find_root(roots, id) {
            Some(k) => match find_branch(&roots[k].branches, name) {
                Some(j) => Some((k, j)),
                None => None,
            },
            None => None,
        },
        _ => None,
    };
    match found {
        Some((k, j)) => {
            let root = &roots[k];
            let branch = &root.branches[j];
            if keys.enter {
                KeyEffect::Checkout { root: RootId(string_from(root.id.0.as_str())), branch: branch.copy() }
            } else if keys.delete {
                let is_current = match &root.current_branch {
                    Some(c) => crate::text::str_eq(c.as_str(), branch.name.as_str()),
                    None => false,
                };
                if is_current {
                    KeyEffect::Nothing
                } else {
                    KeyEffect::AskDelete { root: RootId(string_from(root.id.0.as_str())), branch: branch.copy() }
                }
            } else {
                KeyEffect::Nothing
            }
        },
        None => KeyEffect::Nothing,
    }
}

// --- checkout and branch actions -----------------------------------------------------------

/// What checking a branch out does.
#[derive(Clone, Debug, PartialEq, Eq)]
pub enum CheckoutDecision {
    /// The repository is not in the project: nothing.
    Nothing,
    /// The branch is checked out in another worktree: refuse, naming it.
    InWorktree { branch: String, worktree: String },
    /// The working tree has local modifications: ask what to do with them.
    Dirty { root: RootId, target: String, kind: BranchKind },
    /// Switch directly (a remote branch becomes a local tracking branch).
    Switch { kind: BranchKind, name: String },
}

/// The worktree path of the first worktree that has `branch` checked out.
pub open spec fn worktree_of(worktrees: Seq<(Seq<char>, Seq<char>)>, branch: Seq<char>) -> Option<Seq<char>>
    decreases worktrees.len(),
{
    if worktrees.len() == 0 {
        None
    } else if worktrees[0].0 == branch {
        Some(worktrees[0].1)
    } else {
        worktree_of(worktrees.skip(1), branch)
    }
}

/// The values of `(branch, worktree path)` pairs.
pub open spec fn worktree_values(w: Seq<(String, String)>) -> Seq<(Seq<char>, Seq<char>)> {
    w.map_values(|p: (String, String)| (p.0@, p.1@))
}

fn find_worktree(worktrees: &[(String, String)], branch: &str) -> (r: Option<String>)
    ensures
        opt_view(r) == worktree_of(worktree_values(worktrees@), branch@),
{
    let ghost wv = worktree_values(worktrees@);
    let mut i: usize = 0;
    assert(wv.skip(0) =~= wv);
    while i < worktrees.len()
        invariant
            0 <= i <= worktrees@.len(),
            wv == worktree_values(worktrees@),
            worktree_of(wv.skip(i as int), branch@) == worktree_of(wv, branch@),
        decreases worktrees@.len() - i,
    {
        assert(wv.skip(i as int)[0] == (worktrees@[i as int].0@, worktrees@[i as int].1@));
        assert(wv.skip(i as int).skip(1) =~= wv.skip(i + 1));
        if crate::text::str_eq(worktrees[i].0.as_str(), branch) {
            return Some(string_from(worktrees[i].1.as_str()));
        }
        i += 1;
    }
    assert(wv.skip(i as int).len() == 0);
    None
}

/// The mathematical value of a [`CheckoutDecision`].
pub enum CheckoutView {
    Nothing,
    InWorktree { branch: Seq<char>, worktree: Seq<char> },
    Dirty { root: Seq<char>, target: Seq<char>, kind: BranchKind },
    Switch { kind: BranchKind, name: Seq<char> },
}

impl View for CheckoutDecision {
    type V = CheckoutView;

    open spec fn view(&self) -> CheckoutView {
        match self {
            CheckoutDecision::Nothing => CheckoutView::Nothing,
            CheckoutDecision::InWorktree { branch, worktree } => CheckoutView::InWorktree {
                branch: branch@,
                worktree: worktree@,
            },
            CheckoutDecision::Dirty { root, target, kind } => CheckoutView::Dirty {
                root: root.0@,
                target: target@,
                kind: *kind,
            },
            CheckoutDecision::Switch { kind, name } => CheckoutView::Switch { kind: *kind, name: name@ },
        }
    }
}

/// What checking `branch` out decides (see [`checkout_branch`]).
pub open spec fn checkout_spec(root: Option<Root>, worktrees: Seq<(Seq<char>, Seq<char>)>, branch: BranchValue) -> CheckoutView {
    match root {
        None => CheckoutView::Nothing,
        Some(rt) => match worktree_of(worktrees, branch.name) {
            Some(w) => CheckoutView::InWorktree { branch: branch.name, worktree: w },
            None => if rt.status.modified > 0 {
                CheckoutView::Dirty { root: rt.id.0@, target: branch.name, kind: branch.kind }
            } else {
                CheckoutView::Switch { kind: branch.kind, name: branch.name }
            },
        },
    }
}

/// The recent branches after a checkout decision: a direct switch moves the
/// branch to the front.
pub open spec fn recents_after(recents: Seq<Seq<char>>, d: CheckoutView) -> Seq<Seq<char>> {
    match d {
        CheckoutView::Switch { name, .. } => crate::branch_widget::push_recent_spec(recents, name),
        _ => recents,
    }
}

/// Checks a branch out: with no such repository nothing happens; a branch
/// checked out in another worktree is refused, naming the worktree; a
/// working tree with local modifications asks what to do with them;
/// otherwise the branch moves to the front of the recent branches and the
/// checkout runs. `root` is the repository's snapshot and `worktrees` its
/// worktrees as `(branch, path)` pairs.
pub fn checkout_branch(recents: &mut Vec<String>, root: Option<&Root>, worktrees: &[(String, String)], branch: &Branch) -> (r:
    CheckoutDecision)
    ensures
        r@ == checkout_spec(
            match root {
                Some(rt) => Some(*rt),
                None => None,
            },
            worktree_values(worktrees@),
            branch@,
        ),
        views(final(recents)@) == recents_after(views(old(recents)@), r@),
{
    let rt = match root {
        Some(rt) => rt,
        None => return CheckoutDecision::Nothing,
    };
    match find_worktree(worktrees, branch.name.as_str()) {
        Some(w) => CheckoutDecision::InWorktree { branch: string_from(branch.name.as_str()), worktree: w },
        None => {
            if rt.status.modified > 0 {
                CheckoutDecision::Dirty {
                    root: RootId(string_from(rt.id.0.as_str())),
                    target: string_from(branch.name.as_str()),
                    kind: branch.kind,
                }
            } else {
                crate::branch_widget::push_recent(recents, branch.name.as_str());
                CheckoutDecision::Switch { kind: branch.kind, name: string_from(branch.name.as_str()) }
            }
        },
    }
}

/// A remote branch's remote and name: split at its first `/`, else
/// `origin` and the whole name.
pub open spec fn remote_and_name(name: Seq<char>) -> (Seq<char>, Seq<char>) {
    match find(name, seq!['/']) {
        Some(k) => (name.take(k), name.skip(k + 1)),
        None => ("origin"@, name),
    }
}

/// What a branch action asks of the application.
#[derive(Clone, Debug, PartialEq, Eq)]
pub enum ActionEffect {
    Nothing,
    /// The checkout's decision.
    Checkout(CheckoutDecision),
    /// Open the merge dialog merging `branch` of `root` into the current one.
    Merge { root: RootId, branch: String },
    /// Rebase `branch` of `root` onto `onto`, the current branch.
    Rebase { root: RootId, branch: String, onto: String },
    /// Open the comparison of `branch` of `root` with the current one.
    Compare { root: RootId, branch: String },
    /// Ask to delete the branch `name` on `remote`.
    DeleteRemote { remote: String, name: String },
    /// Refuse to delete a branch checked out in another worktree.
    InWorktree { branch: String, worktree: String },
    /// Ask to delete the local branch `name` (with its consequence).
    DeleteLocal { name: String },
}

/// Whether an action's effect is the checkout decision `expected`.
pub open spec fn effect_checks_out(r: ActionEffect, expected: CheckoutView) -> bool {
    match r {
        ActionEffect::Checkout(d) => d@ == expected,
        _ => false,
    }
}

/// Runs one branch action from the detail panel or the overflow menu: the
/// overflow menu closes; Checkout decides as [`checkout_branch`]; Merge and
/// Compare open their dialogs; Rebase rebases the branch onto the
/// repository's current branch (nothing without one); Rename starts the
/// inline rename on the branch; Delete asks to delete a remote branch on its
/// remote, refuses a local branch checked out in another worktree, and
/// otherwise asks to delete the local branch.
pub fn apply_action(
    ui: &mut BranchesUi,
    recents: &mut Vec<String>,
    root_id: &RootId,
    root: Option<&Root>,
    worktrees: &[(String, String)],
    branch: &Branch,
    action: BranchAction,
) -> (r: ActionEffect)
    ensures
        final(ui).overflow is None,
        action != BranchAction::Checkout ==> views(final(recents)@) == views(old(recents)@),
        action == BranchAction::Checkout ==> (r matches ActionEffect::Checkout(d) && views(final(recents)@)
            == recents_after(views(old(recents)@), d@)),
        action != BranchAction::Rename ==> ui_same_except(*old(ui), *final(ui), false, true, false, false, false, false, false),
        match action {
            BranchAction::Checkout => effect_checks_out(
                r,
                checkout_spec(
                    match root {
                        Some(rt) => Some(*rt),
                        None => None,
                    },
                    worktree_values(worktrees@),
                    branch@,
                ),
            ),
            BranchAction::Merge => (r matches ActionEffect::Merge { root: x, branch: b } && x.0@ == root_id.0@ && b@
                == branch.name@),
            BranchAction::Compare => (r matches ActionEffect::Compare { root: x, branch: b } && x.0@ == root_id.0@ && b@
                == branch.name@),
            BranchAction::Rebase => {
                let cur = match root {
                    Some(rt) => match opt_view(rt.current_branch) {
                        Some(c) => c,
                        None => seq![],
                    },
                    None => seq![],
                };
                if cur.len() == 0 {
                    r == ActionEffect::Nothing
                } else {
                    r matches ActionEffect::Rebase { root: x, branch: b, onto } && x.0@ == root_id.0@ && b@
                        == branch.name@ && onto@ == cur
                }
            },
            BranchAction::Rename => {
                &&& r == ActionEffect::Nothing
                &&& opt_view(final(ui).renaming) == Some(branch.name@)
                &&& final(ui).rename_draft@ == branch.name@
                &&& opt_root(final(ui).selected_root) == Some(root_id.0@)
                &&& opt_view(final(ui).selected) == opt_view(old(ui).selected)
                &&& ui_same_except(*old(ui), *final(ui), true, true, false, false, false, true, false)
            },
            BranchAction::Delete => match branch.kind {
                BranchKind::Remote => (r matches ActionEffect::DeleteRemote { remote, name } && (remote@, name@)
                    == remote_and_name(branch.name@)),
                BranchKind::Local => match worktree_of(worktree_values(worktrees@), branch.name@) {
                    Some(w) => (r matches ActionEffect::InWorktree { branch: b, worktree } && b@ == branch.name@
                        && worktree@ == w),
                    None => (r matches ActionEffect::DeleteLocal { name } && name@ == branch.name@),
                },
            },
        },
{
    ui.overflow = None;
    match action {
        BranchAction::Checkout => ActionEffect::Checkout(checkout_branch(recents, root, worktrees, branch)),
        BranchAction::Merge => ActionEffect::Merge {
            root: RootId(string_from(root_id.0.as_str())),
            branch: string_from(branch.name.as_str()),
        },
        BranchAction::Compare => ActionEffect::Compare {
            root: RootId(string_from(root_id.0.as_str())),
            branch: string_from(branch.name.as_str()),
        },
        BranchAction::Rebase => {
            let current = match root {
                Some(rt) => match &rt.current_branch {
                    Some(c) => string_from(c.as_str()),
                    None => String::new(),
                },
                None => String::new(),
            };
            if chars_of(current.as_str()).len() == 0 {
                ActionEffect::Nothing
            } else {
                ActionEffect::Rebase {
                    root: RootId(string_from(root_id.0.as_str())),
                    branch: string_from(branch.name.as_str()),
                    onto: current,
                }
            }
        },
        BranchAction::Rename => {
            ui.renaming = Some(string_from(branch.name.as_str()));
            ui.rename_draft = string_from(branch.name.as_str());
            ui.selected_root = Some(RootId(string_from(root_id.0.as_str())));
            ActionEffect::Nothing
        },
        BranchAction::Delete => match branch.kind {
            BranchKind::Remote => {
                let v = chars_of(branch.name.as_str());
                let slash = vec!['/'];
                assert(v@.subrange(0, v@.len() as int) =~= v@);
                assert(slash@ =~= seq!['/']);
                proof {
                    crate::text::lemma_find_from(branch.name@, seq!['/'], 0);
                }
                match span_find(&v, 0, v.len(), &slash) {
                    Some(k) => {
                        let remote = crate::text::string_of(&v, 0, k);
                        let name = crate::text::string_of(&v, k + 1, v.len());
                        assert(name@ =~= v@.skip(k + 1));
                        assert(remote@ =~= v@.take(k as int));
                        assert(find(branch.name@, seq!['/']) == Some(k as int));
                        ActionEffect::DeleteRemote { remote, name }
                    },
                    None => {
                        assert(find(branch.name@, seq!['/']) is None);
                        ActionEffect::DeleteRemote {
                        remote: string_from("origin"),
                        name: string_from(branch.name.as_str()),
                    }
                    },
                }
            },
            BranchKind::Local => match find_worktree(worktrees, branch.name.as_str()) {
                Some(w) => ActionEffect::InWorktree { branch: string_from(branch.name.as_str()), worktree: w },
                None => ActionEffect::DeleteLocal { name: string_from(branch.name.as_str()) },
            },
        },
    }
}

/// The detail panel's actions, in order, with their wording and weight:
/// Checkout (naming the repository in a multi-repository project); for a
/// branch that is not the current one, Merge into and Rebase onto the
/// current branch (local branches only) and Compare with it; then Rename
/// (local branches only) and Delete (not the current branch).
pub open spec fn detail_actions_spec(
    current: Option<Seq<char>>,
    repo_name: Seq<char>,
    multi: bool,
    branch: BranchValue,
) -> Seq<(BranchAction, Seq<char>, KitButton)> {
    let cur = match current {
        Some(c) => c,
        None => seq![],
    };
    let is_current = current == Some(branch.name);
    let is_local = branch.kind == BranchKind::Local;
    let scope = if multi {
        " in "@ + repo_name
    } else {
        seq![]
    };
    seq![(BranchAction::Checkout, "Checkout"@ + scope, KitButton::Primary)] + (if !is_current && is_local {
        seq![
            (BranchAction::Merge, "Merge into "@ + cur, KitButton::Secondary),
            (BranchAction::Rebase, "Rebase onto "@ + cur, KitButton::Secondary),
        ]
    } else {
        seq![]
    }) + (if !is_current {
        seq![(BranchAction::Compare, "Compare with "@ + cur, KitButton::Secondary)]
    } else {
        seq![]
    }) + (if is_local {
        seq![(BranchAction::Rename, "Rename"@, KitButton::Quiet)]
    } else {
        seq![]
    }) + (if !is_current {
        seq![(BranchAction::Delete, "Delete"@, KitButton::Danger)]
    } else {
        seq![]
    })
}

/// The values of an action list.
pub open spec fn action_views(v: Seq<(BranchAction, String, KitButton)>) -> Seq<(BranchAction, Seq<char>, KitButton)> {
    v.map_values(|a: (BranchAction, String, KitButton)| (a.0, a.1@, a.2))
}

/// The action list of the detail panel and the overflow menu for `branch`
/// of `root` (see [`detail_actions_spec`]); `root_count` is the number of
/// repositories in the project.
pub fn detail_actions(root: &Root, branch: &Branch, root_count: usize) -> (r: Vec<(BranchAction, String, KitButton)>)
    ensures
        action_views(r@) == detail_actions_spec(
            opt_view(root.current_branch),
            crate::domain::root_name_spec(root.id.0@),
            root_count > 1,
            branch@,
        ),
{
    let current = match &root.current_branch {
        Some(c) => string_from(c.as_str()),
        None => String::new(),
    };
    let is_current = match &root.current_branch {
        Some(c) => crate::text::str_eq(c.as_str(), branch.name.as_str()),
        None => false,
    };
    let is_local = branch.kind == BranchKind::Local;
    let mut checkout = string_from("Checkout");
    if root_count > 1 {
        push_str(&mut checkout, " in ");
        let name = root.id.name();
        push_str(&mut checkout, name.as_str());
    }
    proof {
        reveal_strlit("");
    }
    let ghost cur = match opt_view(root.current_branch) {
        Some(c) => c,
        None => seq![],
    };
    assert(current@ == cur);
    assert(is_current == (opt_view(root.current_branch) == Some(branch@.name)));
    assert(checkout@ =~= "Checkout"@ + (if root_count > 1 {
        " in "@ + crate::domain::root_name_spec(root.id.0@)
    } else {
        seq![]
    }));
    let mut out: Vec<(BranchAction, String, KitButton)> = Vec::new();
    out.push((BranchAction::Checkout, checkout, KitButton::Primary));
    let ghost e1 = action_views(out@);
    if !is_current && is_local {
        let mut m = string_from("Merge into ");
        push_str(&mut m, current.as_str());
        out.push((BranchAction::Merge, m, KitButton::Secondary));
        let mut b = string_from("Rebase onto ");
        push_str(&mut b, current.as_str());
        out.push((BranchAction::Rebase, b, KitButton::Secondary));
        assert(action_views(out@) =~= e1 + seq![
            (BranchAction::Merge, "Merge into "@ + cur, KitButton::Secondary),
            (BranchAction::Rebase, "Rebase onto "@ + cur, KitButton::Secondary),
        ]);
    } else {
        assert(action_views(out@) =~= e1 + Seq::<(BranchAction, Seq<char>, KitButton)>::empty());
    }
    let ghost e2 = action_views(out@);
    if !is_current {
        let mut c = string_from("Compare with ");
        push_str(&mut c, current.as_str());
        out.push((BranchAction::Compare, c, KitButton::Secondary));
        assert(action_views(out@) =~= e2 + seq![(BranchAction::Compare, "Compare with "@ + cur, KitButton::Secondary)]);
    } else {
        assert(action_views(out@) =~= e2 + Seq::<(BranchAction, Seq<char>, KitButton)>::empty());
    }
    let ghost e3 = action_views(out@);
    if is_local {
        out.push((BranchAction::Rename, string_from("Rename"), KitButton::Quiet));
        assert(action_views(out@) =~= e3 + seq![(BranchAction::Rename, "Rename"@, KitButton::Quiet)]);
    } else {
        assert(action_views(out@) =~= e3 + Seq::<(BranchAction, Seq<char>, KitButton)>::empty());
    }
    let ghost e4 = action_views(out@);
    if !is_current {
        out.push((BranchAction::Delete, string_from("Delete"), KitButton::Danger));
        assert(action_views(out@) =~= e4 + seq![(BranchAction::Delete, "Delete"@, KitButton::Danger)]);
    } else {
        assert(action_views(out@) =~= e4 + Seq::<(BranchAction, Seq<char>, KitButton)>::empty());
    }
    assert(action_views(out@) =~= detail_actions_spec(
        opt_view(root.current_branch),
        crate::domain::root_name_spec(root.id.0@),
        root_count > 1,
        branch@,
    ));
    out
}

/// The scope chip: "filtered to <repository>" (in the warning color) when
/// the tab is scoped to one repository, else "all N repos" (muted).
pub fn scope_chip_label(filter: Option<&RootId>, root_count: usize) -> (r: (String, u32))
    ensures
        (r.0@, r.1) == match filter {
            Some(id) => ("filtered to "@ + crate::domain::root_name_spec(id.0@), crate::theme::Palette::STATE_WARNING),
            None => ("all "@ + decimal(root_count as nat) + " repos"@, crate::theme::Palette::T_MUTED),
        },
{
    match filter {
        Some(id) => {
            let mut s = string_from("filtered to ");
            let name = id.name();
            push_str(&mut s, name.as_str());
            (s, crate::theme::Palette::STATE_WARNING)
        },
        None => {
            let mut s = string_from("all ");
            push_decimal(&mut s, root_count as u64);
            push_str(&mut s, " repos");
            (s, crate::theme::Palette::T_MUTED)
        },
    }
}

} // verus!
