//! What the branch tree view decides before it paints: live filtering of a
//! repository's tree, the match count behind the no-match state, the header's
//! summary in words, ref-state markers, the remotes-showing and
//! remote-collapse rules, the keyboard order of local rows, and a remote
//! group's freshness hint.

use vstd::prelude::*;

use crate::branches::{branch_matches, branch_matches_spec, matches_query, matches_query_spec, opt_time_less};
use crate::branches_tree::{
    counts_ok, lemma_node_values, leaf_count, node_counts_ok, leaf_total, node_leaves, node_value, node_values, BranchLeaf,
    BranchNode, DirNode, NodeValue, RepoSection, TagLeaf,
};
use crate::branch_widget::{stale_badge_secs, stale_badge_spec};
use crate::components::{sync_badge, sync_badge_spec};
use crate::domain::{Branch, BranchValue, RefState, RootId};
use crate::sorting::{sort_by_spec, stable_sort, total, views, ViewOrder};
use crate::text::{chars_of, push_str, span_eq, span_trim, str_less, str_lt, string_from, trim};
use crate::theme::{state_words, Palette};

verus! {

broadcast use vstd::std_specs::vec::group_vec_axioms;

/// Which expandable group header was toggled.
#[derive(Clone, Copy, Debug, PartialEq, Eq, Structural)]
pub enum TreeGroup {
    Local,
    Tags,
}

/// What the tree reads of its caller-owned state: the view-wide remotes
/// switch, the repositories whose remotes were revealed from their rollup,
/// and the `(repository, remote)` groups the user toggled. The collections
/// are sets; only membership is read.
pub struct TreeState {
    pub show_remotes: bool,
    pub remotes_revealed: Vec<RootId>,
    pub collapsed_remotes: Vec<(RootId, String)>,
}

/// Whether some id in `ids` names repository `id`.
pub open spec fn ids_contain(ids: Seq<RootId>, id: Seq<char>) -> bool {
    exists|i: int| 0 <= i < ids.len() && (#[trigger] ids[i]).0@ == id
}

/// Whether `(root, remote)` is listed.
pub open spec fn pair_listed(pairs: Seq<(RootId, String)>, root: Seq<char>, remote: Seq<char>) -> bool {
    exists|i: int| 0 <= i < pairs.len() && (#[trigger] pairs[i]).0.0@ == root && pairs[i].1@ == remote
}


/// Whether one repository shows its remote groups: the view-wide switch, or
/// that repository's own reveal from the rollup.
pub fn remotes_revealed(tree: &TreeState, root: &RootId) -> (r: bool)
    ensures
        r == (tree.show_remotes || ids_contain(tree.remotes_revealed@, root.0@)),
{
    if tree.show_remotes {
        return true;
    }
    let mut i: usize = 0;
    while i < tree.remotes_revealed.len()
        invariant
            0 <= i <= tree.remotes_revealed@.len(),
            forall|k: int| 0 <= k < i ==> (#[trigger] tree.remotes_revealed@[k]).0@ != root.0@,
        decreases tree.remotes_revealed@.len() - i,
    {
        if tree.remotes_revealed[i].same(root) {
            assert(tree.remotes_revealed@[i as int].0@ == root.0@);
            return true;
        }
        i += 1;
    }
    false
}

/// Whether a remote group is effectively collapsed: with groups expanded by
/// default a listed group is collapsed, with groups collapsed by default a
/// listed group is expanded; either way the user's toggle flips it.
pub fn remote_collapsed(tree: &TreeState, collapse_by_default: bool, root: &RootId, remote: &str) -> (r:
    bool)
    ensures
        r == (collapse_by_default != pair_listed(tree.collapsed_remotes@, root.0@, remote@)),
{
    let listed = pair_in(&tree.collapsed_remotes, root, remote);
    if collapse_by_default {
        !listed
    } else {
        listed
    }
}

fn pair_in(pairs: &Vec<(RootId, String)>, root: &RootId, remote: &str) -> (r: bool)
    ensures
        r == pair_listed(pairs@, root.0@, remote@),
{
    let mut i: usize = 0;
    while i < pairs.len()
        invariant
            0 <= i <= pairs@.len(),
            forall|k: int|
                0 <= k < i ==> !((#[trigger] pairs@[k]).0.0@ == root.0@ && pairs@[k].1@ == remote@),
        decreases pairs@.len() - i,
    {
        let entry = &pairs[i];
        if entry.0.same(root) && crate::text::str_eq(entry.1.as_str(), remote) {
            assert(pairs@[i as int].0.0@ == root.0@);
            return true;
        }
        i += 1;
    }
    false
}

// --- live filtering -------------------------------------------------------------------

/// The nodes whose branch, or a descendant's, matches the query, with the
/// directory structure kept and every surviving directory recounted from its
/// surviving children.
pub open spec fn filter_forest(s: Seq<NodeValue>, q: Seq<char>) -> Seq<NodeValue>
    decreases s,
{
    if s.len() == 0 {
        seq![]
    } else {
        let rest = filter_forest(s.subrange(0, s.len() - 1), q);
        match s[s.len() - 1] {
            NodeValue::Leaf(l) => if branch_matches_spec(l.branch, q) {
                rest.push(s[s.len() - 1])
            } else {
                rest
            },
            NodeValue::Dir { label, children, .. } => {
                let kept = filter_forest(children, q);
                if kept.len() > 0 {
                    rest.push(NodeValue::Dir { label, count: leaf_total(kept), children: kept })
                } else {
                    rest
                }
            },
        }
    }
}

/// The filtered tree: everything when the query is blank.
pub open spec fn filtered(s: Seq<NodeValue>, q: Seq<char>) -> Seq<NodeValue> {
    if trim(q).len() == 0 {
        s
    } else {
        filter_forest(s, q)
    }
}

pub proof fn lemma_filter_leaves(s: Seq<NodeValue>, q: Seq<char>)
    ensures
        leaf_total(filter_forest(s, q)) <= leaf_total(s),
    decreases s,
{
    if s.len() > 0 {
        let p = s.subrange(0, s.len() - 1);
        lemma_filter_leaves(p, q);
        let rest = filter_forest(p, q);
        assert(leaf_total(s) == leaf_total(p) + node_leaves(s[s.len() - 1]));
        match s[s.len() - 1] {
            NodeValue::Leaf(l) => {
                let t = rest.push(s[s.len() - 1]);
                assert(t.subrange(0, t.len() - 1) =~= rest);
                assert(leaf_total(t) == leaf_total(rest) + node_leaves(t[t.len() - 1]));
            },
            NodeValue::Dir { label, children, .. } => {
                lemma_filter_leaves(children, q);
                let kept = filter_forest(children, q);
                let x = NodeValue::Dir { label, count: leaf_total(kept), children: kept };
                let t = rest.push(x);
                assert(t.subrange(0, t.len() - 1) =~= rest);
                assert(leaf_total(t) == leaf_total(rest) + node_leaves(t[t.len() - 1]));
            },
        }
    }
}

/// Filtering recounts: every surviving directory's count is the number of
/// surviving leaves beneath it.
pub proof fn lemma_filter_counts(s: Seq<NodeValue>, q: Seq<char>)
    ensures
        counts_ok(filter_forest(s, q)),
    decreases s,
{
    if s.len() > 0 {
        let p = s.subrange(0, s.len() - 1);
        lemma_filter_counts(p, q);
        let rest = filter_forest(p, q);
        match s[s.len() - 1] {
            NodeValue::Leaf(l) => {
                let t = rest.push(s[s.len() - 1]);
                assert(t.subrange(0, t.len() - 1) =~= rest);
                assert(counts_ok(t) == (counts_ok(rest) && node_counts_ok(t[t.len() - 1])));
            },
            NodeValue::Dir { label, children, .. } => {
                lemma_filter_counts(children, q);
                let kept = filter_forest(children, q);
                let x = NodeValue::Dir { label, count: leaf_total(kept), children: kept };
                let t = rest.push(x);
                assert(t.subrange(0, t.len() - 1) =~= rest);
                assert(node_counts_ok(x));
                assert(counts_ok(t) == (counts_ok(rest) && node_counts_ok(t[t.len() - 1])));
            },
        }
    }
}

fn copy_leaf(l: &BranchLeaf) -> (r: BranchLeaf)
    ensures
        r@ == l@,
{
    BranchLeaf { label: string_from(l.label.as_str()), branch: l.branch.copy(), active: l.active, favorite: l.favorite }
}

/// A deep copy of a forest.
fn copy_nodes(nodes: &[BranchNode]) -> (r: Vec<BranchNode>)
    ensures
        node_values(r@) == node_values(nodes@),
    decreases nodes@,
{
    let mut out: Vec<BranchNode> = Vec::new();
    let mut i: usize = 0;
    proof {
        lemma_node_values(nodes@);
    }
    while i < nodes.len()
        invariant
            0 <= i <= nodes@.len(),
            node_values(nodes@).len() == nodes@.len(),
            forall|k: int| 0 <= k < nodes@.len() ==> #[trigger] node_values(nodes@)[k] == node_value(nodes@[k]),
            out@.len() == i,
            forall|k: int| 0 <= k < i ==> #[trigger] node_value(out@[k]) == node_value(nodes@[k]),
        decreases nodes@.len() - i,
    {
        let m = match &nodes[i] {
            BranchNode::Leaf(l) => BranchNode::Leaf(copy_leaf(l)),
            BranchNode::Dir(d) => {
                proof {
                    assert(decreases_to!(nodes@ => nodes@[i as int]));
                    assert(decreases_to!(nodes@[i as int] => nodes@[i as int]->Dir_0));
                    assert(decreases_to!(d => d.children));
                    assert(decreases_to!(d.children => d.children@));
                }
                let c = copy_nodes(d.children.as_slice());
                BranchNode::Dir(DirNode { label: string_from(d.label.as_str()), count: d.count, children: c })
            },
        };
        out.push(m);
        i += 1;
    }
    proof {
        lemma_node_values(out@);
    }
    assert(node_values(out@) =~= node_values(nodes@));
    out
}

fn filter_walk(nodes: &[BranchNode], filter: &str) -> (r: Vec<BranchNode>)
    requires
        leaf_total(node_values(nodes@)) <= usize::MAX,
    ensures
        node_values(r@) == filter_forest(node_values(nodes@), filter@),
    decreases nodes@,
{
    let ghost s = node_values(nodes@);
    proof {
        lemma_node_values(nodes@);
    }
    let mut out: Vec<BranchNode> = Vec::new();
    let mut i: usize = 0;
    assert(s.subrange(0, 0) =~= Seq::<NodeValue>::empty());
    while i < nodes.len()
        invariant
            0 <= i <= nodes@.len(),
            s == node_values(nodes@),
            s.len() == nodes@.len(),
            forall|k: int| 0 <= k < nodes@.len() ==> #[trigger] s[k] == node_value(nodes@[k]),
            leaf_total(s) <= usize::MAX,
            node_values(out@) == filter_forest(s.subrange(0, i as int), filter@),
        decreases nodes@.len() - i,
    {
        let ghost prev = node_values(out@);
        let ghost old_out = out@;
        assert(s.subrange(0, i + 1).subrange(0, i as int) =~= s.subrange(0, i as int));
        assert(s.subrange(0, i + 1)[i as int] == s[i as int]);
        assert(s[i as int] == node_value(nodes@[i as int]));
        proof {
            crate::branches_tree::lemma_leaf_total_prefix(s, i as int);
            crate::branches_tree::lemma_leaf_total_prefix(s, i + 1);
        }
        let ghost u = s.subrange(0, i + 1);
        assert(u.subrange(0, u.len() - 1) =~= s.subrange(0, i as int));
        assert(u[u.len() - 1] == s[i as int]);
        match &nodes[i] {
            BranchNode::Leaf(l) => {
                assert(s[i as int] == NodeValue::Leaf(l@));
                if branch_matches(&l.branch, filter) {
                    let m = BranchNode::Leaf(copy_leaf(l));
                    assert(node_value(m) == NodeValue::Leaf(l@));
                    out.push(m);
                    assert(out@.subrange(0, out@.len() - 1) =~= old_out);
                    assert(node_values(out@) =~= prev.push(NodeValue::Leaf(l@)));
                    assert(filter_forest(u, filter@) == prev.push(NodeValue::Leaf(l@)));
                } else {
                    assert(filter_forest(u, filter@) == prev);
                }
            },
            BranchNode::Dir(d) => {
                proof {
                    assert(decreases_to!(nodes@ => nodes@[i as int]));
                    assert(decreases_to!(nodes@[i as int] => nodes@[i as int]->Dir_0));
                    assert(decreases_to!(d => d.children));
                    assert(decreases_to!(d.children => d.children@));
                    lemma_filter_leaves(node_values(d.children@), filter@);
                }
                let children = filter_walk(d.children.as_slice(), filter);
                proof {
                    lemma_node_values(children@);
                }
                let ghost kept = node_values(children@);
                assert(s[i as int] == NodeValue::Dir {
                    label: d.label@,
                    count: d.count as nat,
                    children: node_values(d.children@),
                });
                if children.len() > 0 {
                    let count = leaf_count(children.as_slice());
                    let m = BranchNode::Dir(DirNode { label: string_from(d.label.as_str()), count, children });
                    let ghost x = NodeValue::Dir { label: d.label@, count: leaf_total(kept), children: kept };
                    assert(node_value(m) == x);
                    out.push(m);
                    assert(out@.subrange(0, out@.len() - 1) =~= old_out);
                    assert(node_values(out@) =~= prev.push(x));
                    assert(filter_forest(u, filter@) == prev.push(x));
                } else {
                    assert(filter_forest(u, filter@) == prev);
                }
            },
        }
        i += 1;
    }
    assert(s.subrange(0, i as int) =~= s);
    out
}

/// Keeps the nodes whose branch (or a descendant's) matches the query,
/// directory structure kept; surviving directories are recounted from their
/// surviving children. A blank query keeps everything.
pub fn filter_nodes(nodes: &[BranchNode], filter: &str) -> (r: Vec<BranchNode>)
    requires
        leaf_total(node_values(nodes@)) <= usize::MAX,
    ensures
        node_values(r@) == filtered(node_values(nodes@), filter@),
{
    let v = chars_of(filter);
    let (a, b) = span_trim(&v, 0, v.len());
    assert(v@.subrange(0, v@.len() as int) =~= v@);
    if a == b {
        copy_nodes(nodes)
    } else {
        filter_walk(nodes, filter)
    }
}

/// How many of a section's branches and tags the query shows: its local
/// leaves, its remote leaves while its own remotes show, and its tags.
pub open spec fn match_count_spec(
    locals: Seq<NodeValue>,
    groups: Seq<Seq<NodeValue>>,
    tags: Seq<(Seq<char>, RefState)>,
    q: Seq<char>,
    remotes: bool,
) -> int {
    leaf_total(filtered(locals, q)) + (if remotes {
        total(groups, |g: Seq<NodeValue>| leaf_total(filtered(g, q))) as int
    } else {
        0
    }) + matching_tags(tags, q)
}

/// The number of tags whose name matches the query.
pub open spec fn matching_tags(tags: Seq<(Seq<char>, RefState)>, q: Seq<char>) -> int
    decreases tags.len(),
{
    if tags.len() == 0 {
        0
    } else {
        matching_tags(tags.drop_last(), q) + if matches_query_spec(tags.last().0, q) {
            1int
        } else {
            0
        }
    }
}

/// The trees of a section's remote groups.
pub open spec fn group_trees(section: RepoSection) -> Seq<Seq<NodeValue>> {
    section.remote_groups@.map_values(|g: crate::branches_tree::RemoteGroup| node_values(g.children@))
}

/// Total visible branches and tags in a section under the current filter:
/// decides the no-match state and sizes group headers. `remotes` is this
/// section's own reveal, so a hidden remote branch cannot suppress the
/// no-match state.
pub fn section_match_count(section: &RepoSection, filter: &str, remotes: bool) -> (r: usize)
    requires
        leaf_total(node_values(section.locals@)) <= usize::MAX,
        forall|i: int|
            0 <= i < section.remote_groups@.len() ==> leaf_total(
                node_values(#[trigger] section.remote_groups@[i].children@),
            ) <= usize::MAX,
        match_count_spec(
            node_values(section.locals@),
            group_trees(*section),
            views(section.tags@),
            filter@,
            remotes,
        ) <= usize::MAX,
    ensures
        r == match_count_spec(
            node_values(section.locals@),
            group_trees(*section),
            views(section.tags@),
            filter@,
            remotes,
        ),
{
    let ghost q = filter@;
    let ghost gs = group_trees(*section);
    let ghost f = |g: Seq<NodeValue>| leaf_total(filtered(g, q));
    let ghost tv = views(section.tags@);
    let ghost whole = match_count_spec(node_values(section.locals@), gs, tv, q, remotes);
    let kept = filter_nodes(section.locals.as_slice(), filter);
    proof {
        lemma_filter_leaves(node_values(section.locals@), q);
        lemma_tags_nonneg(tv, q);
        lemma_total_nonneg_groups(gs, q);
    }
    let locals = leaf_count(kept.as_slice());
    let mut remote_total: usize = 0;
    if remotes {
        let mut i: usize = 0;
        while i < section.remote_groups.len()
            invariant
                0 <= i <= section.remote_groups@.len(),
                gs == group_trees(*section),
                gs.len() == section.remote_groups@.len(),
                f == (|g: Seq<NodeValue>| leaf_total(filtered(g, q))),
                q == filter@,
                forall|k: int|
                    0 <= k < section.remote_groups@.len() ==> leaf_total(
                        node_values(#[trigger] section.remote_groups@[k].children@),
                    ) <= usize::MAX,
                locals as int + total(gs, f) <= usize::MAX,
                remote_total == total(gs.take(i as int), f),
            decreases section.remote_groups@.len() - i,
        {
            let g = &section.remote_groups[i];
            assert(gs[i as int] == node_values(g.children@));
            proof {
                lemma_filter_leaves(node_values(g.children@), q);
                lemma_total_prefix(gs, f, i as int);
            }
            let kept_g = filter_nodes(g.children.as_slice(), filter);
            let n = leaf_count(kept_g.as_slice());
            assert(gs.take(i + 1).drop_last() =~= gs.take(i as int));
            remote_total = remote_total + n;
            i += 1;
        }
        assert(gs.take(i as int) =~= gs);
    }
    let mut tags: usize = 0;
    let mut j: usize = 0;
    while j < section.tags.len()
        invariant
            0 <= j <= section.tags@.len(),
            tv == views(section.tags@),
            q == filter@,
            locals as int + remote_total as int + matching_tags(tv, q) <= usize::MAX,
            tags == matching_tags(tv.take(j as int), q),
        decreases section.tags@.len() - j,
    {
        assert(tv.take(j + 1).drop_last() =~= tv.take(j as int));
        assert(tv.take(j + 1).last() == tv[j as int]);
        proof {
            lemma_tags_prefix(tv, q, j as int);
        }
        if matches_query(section.tags[j].name.as_str(), filter) {
            tags = tags + 1;
        }
        j += 1;
    }
    assert(tv.take(j as int) =~= tv);
    locals + remote_total + tags
}

proof fn lemma_tags_nonneg(tags: Seq<(Seq<char>, RefState)>, q: Seq<char>)
    ensures
        matching_tags(tags, q) >= 0,
    decreases tags.len(),
{
    if tags.len() > 0 {
        lemma_tags_nonneg(tags.drop_last(), q);
    }
}

proof fn lemma_tags_prefix(tags: Seq<(Seq<char>, RefState)>, q: Seq<char>, j: int)
    requires
        0 <= j < tags.len(),
    ensures
        matching_tags(tags.take(j + 1), q) <= matching_tags(tags, q),
    decreases tags.len(),
{
    if j + 1 < tags.len() {
        lemma_tags_prefix(tags.drop_last(), q, j);
        assert(tags.drop_last().take(j + 1) =~= tags.take(j + 1));
    } else {
        assert(tags.take(j + 1) =~= tags);
    }
}

proof fn lemma_total_nonneg_groups(gs: Seq<Seq<NodeValue>>, q: Seq<char>)
    ensures
        total(gs, |g: Seq<NodeValue>| leaf_total(filtered(g, q))) >= 0,
{
}

proof fn lemma_total_prefix(gs: Seq<Seq<NodeValue>>, f: spec_fn(Seq<NodeValue>) -> nat, i: int)
    requires
        0 <= i < gs.len(),
    ensures
        total(gs.take(i + 1), f) <= total(gs, f),
        total(gs.take(i + 1), f) == total(gs.take(i), f) + f(gs[i]),
    decreases gs.len(),
{
    assert(gs.take(i + 1).drop_last() =~= gs.take(i));
    if i + 1 < gs.len() {
        lemma_total_prefix(gs.drop_last(), f, i);
        assert(gs.drop_last().take(i + 1) =~= gs.take(i + 1));
    } else {
        assert(gs.take(i + 1) =~= gs);
    }
}

// --- the header and markers ---------------------------------------------------------

/// The header's status in words: the current branch's upstream counts, then
/// the repository's state.
pub open spec fn header_summary_spec(ahead: nat, behind: nat, status: crate::theme::RepoState) -> Seq<char> {
    sync_badge_spec(ahead, behind, false).1 + " · "@ + state_words(status)
}

/// The header's status in words, read off the section the builder derived,
/// so the numbers and the dot can never disagree.
pub fn header_summary(section: &RepoSection) -> (r: String)
    ensures
        r@ == header_summary_spec(section.ahead as nat, section.behind as nat, section.status),
{
    let mut s = match sync_badge(section.ahead, section.behind, false) {
        Some((_, words)) => words,
        None => String::new(),
    };
    push_str(&mut s, " · ");
    push_str(&mut s, section.status.words());
    s
}

/// The painted text and ink for a decoration state, or `None` for the plain
/// default; shared by tag rows and remote rows.
pub fn ref_state_marker(state: RefState) -> (r: Option<(&'static str, u32)>)
    ensures
        match state {
            RefState::Default => r is None,
            RefState::Gone => r matches Some((t, c)) && t@ == "gone"@ && c == Palette::STATE_ERROR,
            RefState::Pushed => r matches Some((t, c)) && t@ == "pushed"@ && c == Palette::STATE_SUCCESS,
            RefState::LocalOnly => r matches Some((t, c)) && t@ == "local only"@ && c
                == Palette::STATE_WARNING,
        },
{
    match state {
        RefState::Default => None,
        RefState::Gone => Some(("gone", Palette::STATE_ERROR)),
        RefState::Pushed => Some(("pushed", Palette::STATE_SUCCESS)),
        RefState::LocalOnly => Some(("local only", Palette::STATE_WARNING)),
    }
}

// --- keyboard order -------------------------------------------------------------------

/// One local-branch reference for the keyboard path: the owning repository,
/// the branch, its repository's current branch, and the repository's display
/// name (the tie-break across repositories).
#[derive(Clone, Copy, Debug)]
pub struct LocalRow<'a> {
    pub root: &'a RootId,
    pub branch: &'a Branch,
    pub current: Option<&'a str>,
    pub repo: &'a str,
}

/// The mathematical value of a [`LocalRow`].
pub struct RowKey {
    pub root: Seq<char>,
    pub branch: BranchValue,
    pub current: Option<Seq<char>>,
    pub repo: Seq<char>,
}

impl<'a> View for LocalRow<'a> {
    type V = RowKey;

    open spec fn view(&self) -> RowKey {
        RowKey {
            root: self.root.0@,
            branch: self.branch@,
            current: match self.current {
                Some(c) => Some(c@),
                None => None,
            },
            repo: self.repo@,
        }
    }
}

/// Each repository's current branch first, then the most recent tip, ties
/// alphabetical by repository, then by branch name.
pub open spec fn keyboard_less(a: RowKey, b: RowKey) -> bool {
    let ac = a.current == Some(a.branch.name);
    let bc = b.current == Some(b.branch.name);
    if ac != bc {
        ac
    } else if a.branch.last_touched != b.branch.last_touched {
        opt_time_less(b.branch.last_touched, a.branch.last_touched)
    } else if a.repo != b.repo {
        str_less(a.repo, b.repo)
    } else {
        str_less(a.branch.name, b.branch.name)
    }
}

fn is_current_row(r: &LocalRow) -> (b: bool)
    ensures
        b == (r@.current == Some(r@.branch.name)),
{
    match r.current {
        Some(c) => crate::text::str_eq(c, r.branch.name.as_str()),
        None => false,
    }
}

impl<'a> ViewOrder for LocalRow<'a> {
    open spec fn view_less(a: RowKey, b: RowKey) -> bool {
        keyboard_less(a, b)
    }

    fn lt(&self, other: &Self) -> (r: bool) {
        let ac = is_current_row(self);
        let bc = is_current_row(other);
        if ac != bc {
            return ac;
        }
        let at = self.branch.last_touched;
        let bt = other.branch.last_touched;
        if at != bt {
            return match (bt, at) {
                (None, Some(_)) => true,
                (Some(x), Some(y)) => x < y,
                _ => false,
            };
        }
        if !crate::text::str_eq(self.repo, other.repo) {
            return str_lt(self.repo, other.repo);
        }
        str_lt(self.branch.name.as_str(), other.branch.name.as_str())
    }
}

/// Orders local rows for the keyboard path: each repository's current branch
/// first, then the most recent tip, ties alphabetical by repository then
/// branch name (stable).
pub fn keyboard_order<'a>(rows: &mut Vec<LocalRow<'a>>)
    ensures
        views(final(rows)@) == sort_by_spec(
            views(old(rows)@),
            |a: RowKey, b: RowKey| keyboard_less(a, b),
        ),
{
    let mut taken: Vec<LocalRow<'a>> = Vec::new();
    std::mem::swap(&mut taken, rows);
    let sorted = stable_sort(taken);
    assert((|a: RowKey, b: RowKey| LocalRow::<'a>::view_less(a, b)) =~= (|a: RowKey, b: RowKey|
        keyboard_less(a, b)));
    *rows = sorted;
}

// --- tag cache ------------------------------------------------------------------------

/// Whether the tag cache has an entry for repository `id`.
pub open spec fn tags_cached(cached: Seq<(RootId, Vec<(String, RefState)>)>, id: Seq<char>) -> bool {
    exists|k: int| 0 <= k < cached.len() && (#[trigger] cached[k]).0.0@ == id
}

/// The positions of the repositories whose tags are not cached yet, in
/// order: the ones a warm-up reads.
pub open spec fn to_warm_spec(roots: Seq<RootId>, cached: Seq<(RootId, Vec<(String, RefState)>)>) -> Seq<int>
    decreases roots.len(),
{
    if roots.len() == 0 {
        seq![]
    } else if tags_cached(cached, roots.last().0@) {
        to_warm_spec(roots.drop_last(), cached)
    } else {
        to_warm_spec(roots.drop_last(), cached).push(roots.len() - 1)
    }
}

fn is_cached(cached: &[(RootId, Vec<(String, RefState)>)], id: &RootId) -> (r: bool)
    ensures
        r == tags_cached(cached@, id.0@),
{
    let mut k: usize = 0;
    while k < cached.len()
        invariant
            0 <= k <= cached@.len(),
            forall|j: int| 0 <= j < k ==> (#[trigger] cached@[j]).0.0@ != id.0@,
        decreases cached@.len() - k,
    {
        if cached[k].0.same(id) {
            return true;
        }
        k += 1;
    }
    false
}

/// The repositories (by position) whose tags a warm-up reads: those with no
/// entry in the shared tag cache yet, so each repository is read once
/// whichever tree surface opens first.
pub fn tags_to_warm(roots: &[RootId], cached: &[(RootId, Vec<(String, RefState)>)]) -> (r: Vec<usize>)
    ensures
        r@.map_values(|k: usize| k as int) == to_warm_spec(roots@, cached@),
{
    let mut out: Vec<usize> = Vec::new();
    let mut i: usize = 0;
    while i < roots.len()
        invariant
            0 <= i <= roots@.len(),
            out@.map_values(|k: usize| k as int) == to_warm_spec(roots@.take(i as int), cached@),
        decreases roots@.len() - i,
    {
        assert(roots@.take(i + 1).drop_last() =~= roots@.take(i as int));
        assert(roots@.take(i + 1).last() == roots@[i as int]);
        if !is_cached(cached, &roots[i]) {
            let ghost before = out@.map_values(|k: usize| k as int);
            out.push(i);
            assert(out@.map_values(|k: usize| k as int) =~= before.push(i as int));
        }
        i += 1;
    }
    assert(roots@.take(i as int) =~= roots@);
    out
}

/// A bare tag read's cache entries: each tag name with no decoration state
/// (a surface holding real ref decorations upgrades them).
pub fn bare_tags(names: Vec<String>) -> (r: Vec<(String, RefState)>)
    ensures
        r@.len() == names@.len(),
        forall|k: int| 0 <= k < names@.len() ==> (#[trigger] r@[k]).0@ == names@[k]@ && r@[k].1 == RefState::Default,
{
    let mut out: Vec<(String, RefState)> = Vec::new();
    let mut i: usize = 0;
    while i < names.len()
        invariant
            0 <= i <= names@.len(),
            out@.len() == i,
            forall|k: int| 0 <= k < i ==> (#[trigger] out@[k]).0@ == names@[k]@ && out@[k].1 == RefState::Default,
        decreases names@.len() - i,
    {
        out.push((string_from(names[i].as_str()), RefState::Default));
        i += 1;
    }
    out
}

// --- tree events -----------------------------------------------------------------------

/// Toggles one `(repository, remote)` group's membership in a set of
/// collapsed groups: listed ones leave, others join; every other group's
/// membership stays.
pub fn toggle_collapsed(pairs: &mut Vec<(RootId, String)>, root: &RootId, remote: &str)
    ensures
        pair_listed(final(pairs)@, root.0@, remote@) == !pair_listed(old(pairs)@, root.0@, remote@),
        forall|r: Seq<char>, m: Seq<char>|
            !(r == root.0@ && m == remote@) ==> pair_listed(final(pairs)@, r, m) == pair_listed(old(pairs)@, r, m),
{
    let ghost p0 = pairs@;
    if !pair_in(pairs, root, remote) {
        pairs.push((RootId(string_from(root.0.as_str())), string_from(remote)));
        assert forall|r: Seq<char>, m: Seq<char>| pair_listed(p0, r, m) implies pair_listed(pairs@, r, m) by {
            let i = choose|i: int| 0 <= i < p0.len() && (#[trigger] p0[i]).0.0@ == r && p0[i].1@ == m;
            assert(pairs@[i] == p0[i]);
        }
        assert(pairs@[p0.len() as int].0.0@ == root.0@ && pairs@[p0.len() as int].1@ == remote@);
        assert forall|r: Seq<char>, m: Seq<char>|
            !(r == root.0@ && m == remote@) && pair_listed(pairs@, r, m) implies pair_listed(p0, r, m) by {
            let i = choose|i: int| 0 <= i < pairs@.len() && (#[trigger] pairs@[i]).0.0@ == r && pairs@[i].1@ == m;
            assert(i < p0.len());
            assert(p0[i] == pairs@[i]);
        }
        return;
    }
    let mut kept: Vec<(RootId, String)> = Vec::new();
    let mut i: usize = 0;
    while i < pairs.len()
        invariant
            0 <= i <= pairs@.len(),
            pairs@ == p0,
            forall|k: int| 0 <= k < kept@.len() ==> !((#[trigger] kept@[k]).0.0@ == root.0@ && kept@[k].1@ == remote@),
            forall|r: Seq<char>, m: Seq<char>|
                pair_listed(kept@, r, m) ==> exists|j: int| 0 <= j < i && (#[trigger] p0[j]).0.0@ == r && p0[j].1@ == m,
            forall|j: int|
                0 <= j < i && !((#[trigger] p0[j]).0.0@ == root.0@ && p0[j].1@ == remote@) ==> pair_listed(
                    kept@,
                    p0[j].0.0@,
                    p0[j].1@,
                ),
        decreases pairs@.len() - i,
    {
        let hit = pairs[i].0.same(root) && crate::text::str_eq(pairs[i].1.as_str(), remote);
        if !hit {
            let ghost k0 = kept@;
            kept.push((RootId(string_from(pairs[i].0.0.as_str())), string_from(pairs[i].1.as_str())));
            assert(kept@[k0.len() as int].0.0@ == p0[i as int].0.0@ && kept@[k0.len() as int].1@ == p0[i as int].1@);
            assert forall|r: Seq<char>, m: Seq<char>| pair_listed(kept@, r, m) implies exists|j: int|
                0 <= j < i + 1 && (#[trigger] p0[j]).0.0@ == r && p0[j].1@ == m by {
                let q = choose|q: int| 0 <= q < kept@.len() && (#[trigger] kept@[q]).0.0@ == r && kept@[q].1@ == m;
                if q < k0.len() {
                    assert(k0[q] == kept@[q]);
                    assert(pair_listed(k0, r, m));
                } else {
                    assert(p0[i as int].0.0@ == r && p0[i as int].1@ == m);
                }
            }
            assert forall|j: int|
                0 <= j < i + 1 && !((#[trigger] p0[j]).0.0@ == root.0@ && p0[j].1@ == remote@) implies pair_listed(
                kept@,
                p0[j].0.0@,
                p0[j].1@,
            ) by {
                if j < i {
                    let q = choose|q: int|
                        0 <= q < k0.len() && (#[trigger] k0[q]).0.0@ == p0[j].0.0@ && k0[q].1@ == p0[j].1@;
                    assert(kept@[q] == k0[q]);
                } else {
                    assert(kept@[k0.len() as int].0.0@ == p0[j].0.0@);
                }
            }
        }
        i += 1;
    }
    *pairs = kept;
}

/// What the tree reports back to the surface that owns it.
#[derive(Clone, Debug, PartialEq, Eq)]
pub enum TreeEvent {
    /// A row was clicked.
    RowClicked { root: RootId, branch: String },
    /// A row was double-clicked (or its hover Checkout button used).
    RowActivated { root: RootId, branch: String },
    /// The row's overflow button toggled the menu for this branch.
    OverflowToggled { root: RootId, branch: String },
    /// A Local/Tags group header was clicked.
    GroupToggled(TreeGroup),
    /// A remote group header was clicked: collapse/expand that remote.
    RemoteToggled { root: RootId, remote: String },
    /// The view-wide remotes switch changed.
    RemotesVisibleChanged { visible: bool },
    /// A repository header's Fetch button was clicked.
    FetchRequested { root: RootId },
    /// The inline rename started from a row action.
    RenameStarted { root: RootId, branch: String },
    /// The inline rename editor confirmed; `new` is the trimmed draft.
    RenameCommitted { root: RootId, old: String, new: String },
    /// The inline rename editor was cancelled.
    RenameCancelled,
    /// Create a branch: from the empty state (`name` empty) or the no-match
    /// state (`name` the typed query).
    CreateBranchRequested { name: String },
    /// The no-match state asked to clear the search.
    ClearFilterRequested,
}


/// A remote group's freshness hint: "fetched " and the stale badge of the
/// time since the view's last fetch (none when the fetch lies ahead of
/// `now`).
pub fn fetched_hint(now: i64, last_fetch: i64) -> (r: String)
    ensures
        r@ == "fetched "@ + stale_badge_spec(if now > last_fetch {
            (now - last_fetch) as nat
        } else {
            0
        }),
{
    let age: u64 = if now > last_fetch {
        (now as i128 - last_fetch as i128) as u64
    } else {
        0
    };
    let mut s = string_from("fetched ");
    let badge = stale_badge_secs(age);
    push_str(&mut s, badge.as_str());
    s
}

} // verus!
