//! The repo-grouped branches tree: turns the in-scope repositories' branch
//! snapshots, a per-repository "remotes showing" predicate and each
//! repository's tag list into one grouped view model whose outermost grouping
//! is the repository.
//!
//! What the renderer relies on, proved below:
//! - every directory count is the number of leaf branches beneath it, every
//!   remote group's count the number of its branches, and the rollup's branch
//!   count the sum of the group counts;
//! - every level is ordered favorites first, then the checked-out branch, then
//!   by label;
//! - the tree of a branch list has exactly one leaf per branch.

use vstd::prelude::*;

use crate::branches::opt_str_view;
use crate::diff_model::opt_view;
use crate::domain::{copy_opt, Branch, BranchKind, BranchValue, RefState, Root, RootId};
use crate::sorting::{
    lemma_sort_elements, lemma_sort_sorted, lemma_sort_total, lemma_total_push, lemma_total_update,
    sort_by_spec, sorted_by, stable_sort, strict_weak_order, total, views, ViewOrder,
};
use crate::text::{
    chars_of, decimal, find, lemma_find_from, lemma_rfind_char_to, lemma_str_less_order, push_decimal,
    push_str, rfind_char, span_eq, span_find, span_rfind_char, span_starts_with, starts_with,
    str_less, str_lt, string_from, string_of,
};
use crate::domain::root_name_spec;
use crate::theme::{state_of, RepoState};
pub use crate::theme::RepoState as RepoStatus;

verus! {

broadcast use vstd::std_specs::vec::group_vec_axioms;

// --- the tree ---------------------------------------------------------------------

/// One branch row in the grouped tree, after prefix stripping.
#[derive(Clone, Debug, PartialEq, Eq)]
pub struct BranchLeaf {
    /// Display label with the containing directory or remote prefix stripped.
    pub label: String,
    /// The source branch, with its full name.
    pub branch: Branch,
    /// Whether this is the repository's checked-out branch.
    pub active: bool,
    /// Whether the branch is starred (pins it to the top of its group).
    pub favorite: bool,
}

/// The mathematical value of a [`BranchLeaf`].
pub struct LeafValue {
    pub label: Seq<char>,
    pub branch: BranchValue,
    pub active: bool,
    pub favorite: bool,
}

impl View for BranchLeaf {
    type V = LeafValue;

    open spec fn view(&self) -> LeafValue {
        LeafValue {
            label: self.label@,
            branch: self.branch@,
            active: self.active,
            favorite: self.favorite,
        }
    }
}

/// A directory node formed from slash-separated branch names.
#[derive(Debug, PartialEq, Eq)]
pub struct DirNode {
    /// The directory segment (e.g. `feature`), not the full path.
    pub label: String,
    /// Number of leaf branches beneath this node.
    pub count: usize,
    pub children: Vec<BranchNode>,
}

/// A node in a branch group's tree: a directory group or a leaf.
#[derive(Debug, PartialEq, Eq)]
pub enum BranchNode {
    Leaf(BranchLeaf),
    Dir(DirNode),
}

/// The mathematical value of a [`BranchNode`].
pub enum NodeValue {
    Leaf(LeafValue),
    Dir { label: Seq<char>, count: nat, children: Seq<NodeValue> },
}

/// The value of one node.
pub open spec fn node_value(n: BranchNode) -> NodeValue
    decreases n,
{
    match n {
        BranchNode::Leaf(l) => NodeValue::Leaf(l@),
        BranchNode::Dir(d) => {
            proof {
                assert(decreases_to!(d.children => d.children@));
            }
            NodeValue::Dir {
                label: d.label@,
                count: d.count as nat,
                children: node_values(d.children@),
            }
        },
    }
}

/// The values of a sequence of nodes.
pub open spec fn node_values(s: Seq<BranchNode>) -> Seq<NodeValue>
    decreases s,
{
    if s.len() == 0 {
        seq![]
    } else {
        node_values(s.subrange(0, s.len() - 1)).push(node_value(s[s.len() - 1]))
    }
}

impl View for BranchNode {
    type V = NodeValue;

    open spec fn view(&self) -> NodeValue {
        node_value(*self)
    }
}

pub proof fn lemma_node_values(s: Seq<BranchNode>)
    ensures
        node_values(s).len() == s.len(),
        forall|i: int| 0 <= i < s.len() ==> #[trigger] node_values(s)[i] == node_value(s[i]),
    decreases s.len(),
{
    if s.len() > 0 {
        lemma_node_values(s.subrange(0, s.len() - 1));
    }
}

/// The label of a node.
pub open spec fn node_label(n: NodeValue) -> Seq<char> {
    match n {
        NodeValue::Leaf(l) => l.label,
        NodeValue::Dir { label, .. } => label,
    }
}

/// A starred leaf (directories are never starred).
pub open spec fn node_favorite(n: NodeValue) -> bool {
    match n {
        NodeValue::Leaf(l) => l.favorite,
        _ => false,
    }
}

/// The checked-out leaf (directories are never active).
pub open spec fn node_active(n: NodeValue) -> bool {
    match n {
        NodeValue::Leaf(l) => l.active,
        _ => false,
    }
}

/// The children of a directory; none for a leaf.
pub open spec fn children_of(n: NodeValue) -> Seq<NodeValue> {
    match n {
        NodeValue::Dir { children, .. } => children,
        _ => seq![],
    }
}

/// Within a level: favorites first, then the active branch, then by label.
pub open spec fn node_less(a: NodeValue, b: NodeValue) -> bool {
    if node_favorite(a) != node_favorite(b) {
        node_favorite(a)
    } else if node_active(a) != node_active(b) {
        node_active(a)
    } else {
        str_less(node_label(a), node_label(b))
    }
}

/// The number of leaf branches in a forest.
pub open spec fn leaf_total(s: Seq<NodeValue>) -> nat
    decreases s,
{
    if s.len() == 0 {
        0
    } else {
        leaf_total(s.subrange(0, s.len() - 1)) + node_leaves(s[s.len() - 1])
    }
}

/// The number of leaf branches in a node.
pub open spec fn node_leaves(n: NodeValue) -> nat
    decreases n,
{
    match n {
        NodeValue::Leaf(_) => 1,
        NodeValue::Dir { children, .. } => leaf_total(children),
    }
}

// --- building -----------------------------------------------------------------------

/// The index of the first directory labelled `d` at or after `i`.
pub open spec fn dir_pos_from(nodes: Seq<NodeValue>, d: Seq<char>, i: int) -> Option<int>
    decreases nodes.len() - i,
{
    if i < 0 || i >= nodes.len() {
        None
    } else if nodes[i] is Dir && node_label(nodes[i]) == d {
        Some(i)
    } else {
        dir_pos_from(nodes, d, i + 1)
    }
}

pub proof fn lemma_dir_pos_from(nodes: Seq<NodeValue>, d: Seq<char>, i: int)
    requires
        0 <= i,
    ensures
        dir_pos_from(nodes, d, i) matches Some(k) ==> i <= k < nodes.len() && nodes[k] is Dir
            && node_label(nodes[k]) == d,
    decreases nodes.len() - i,
{
    if i < nodes.len() && !(nodes[i] is Dir && node_label(nodes[i]) == d) {
        lemma_dir_pos_from(nodes, d, i + 1);
    }
}

/// Inserts a leaf under the directory path `dirs`, creating the directories
/// that do not exist yet (with a zero count, set once the tree is complete).
pub open spec fn insert_node(nodes: Seq<NodeValue>, dirs: Seq<Seq<char>>, leaf: LeafValue) -> Seq<
    NodeValue,
>
    decreases dirs.len(),
{
    if dirs.len() == 0 {
        nodes.push(NodeValue::Leaf(leaf))
    } else {
        let rest = dirs.subrange(1, dirs.len() as int);
        match dir_pos_from(nodes, dirs[0], 0) {
            Some(i) => nodes.update(
                i,
                NodeValue::Dir {
                    label: dirs[0],
                    count: 0,
                    children: insert_node(children_of(nodes[i]), rest, leaf),
                },
            ),
            None => nodes.push(
                NodeValue::Dir { label: dirs[0], count: 0, children: insert_node(seq![], rest, leaf) },
            ),
        }
    }
}

/// A node with every level beneath it sorted.
pub open spec fn finalize_node(n: NodeValue) -> NodeValue
    decreases n, 0nat,
{
    match n {
        NodeValue::Leaf(_) => n,
        NodeValue::Dir { label, count, children } => NodeValue::Dir {
            label,
            count,
            children: finalize_forest(children),
        },
    }
}

/// Every node of a level finalized, in place.
pub open spec fn finalize_each(s: Seq<NodeValue>) -> Seq<NodeValue>
    decreases s, 0nat,
{
    if s.len() == 0 {
        s
    } else {
        finalize_each(s.subrange(0, s.len() - 1)).push(finalize_node(s[s.len() - 1]))
    }
}

/// A forest with every level sorted by [`node_less`], stably.
pub open spec fn finalize_forest(s: Seq<NodeValue>) -> Seq<NodeValue>
    decreases s, 1nat,
{
    sort_by_spec(finalize_each(s), |a: NodeValue, b: NodeValue| node_less(a, b))
}

/// A node with every directory count set to the leaves beneath it.
pub open spec fn recount_node(n: NodeValue) -> NodeValue
    decreases n,
{
    match n {
        NodeValue::Leaf(_) => n,
        NodeValue::Dir { label, children, .. } => NodeValue::Dir {
            label,
            count: leaf_total(children),
            children: recount_forest(children),
        },
    }
}

/// Every node of a forest recounted.
pub open spec fn recount_forest(s: Seq<NodeValue>) -> Seq<NodeValue>
    decreases s,
{
    if s.len() == 0 {
        s
    } else {
        recount_forest(s.subrange(0, s.len() - 1)).push(recount_node(s[s.len() - 1]))
    }
}


pub proof fn lemma_leaf_total_prefix(s: Seq<NodeValue>, j: int)
    requires
        0 <= j <= s.len(),
    ensures
        leaf_total(s.subrange(0, j)) <= leaf_total(s),
        j < s.len() ==> leaf_total(s.subrange(0, j + 1)) == leaf_total(s.subrange(0, j))
            + node_leaves(s[j]),
    decreases s.len(),
{
    if j < s.len() {
        assert(s.subrange(0, j + 1).subrange(0, j) =~= s.subrange(0, j));
        lemma_leaf_total_prefix(s.subrange(0, s.len() - 1), j);
        assert(s.subrange(0, s.len() - 1).subrange(0, j) =~= s.subrange(0, j));
        if j + 1 < s.len() {
            lemma_leaf_total_prefix(s.subrange(0, s.len() - 1), j + 1);
            assert(s.subrange(0, s.len() - 1).subrange(0, j + 1) =~= s.subrange(0, j + 1));
        } else {
            assert(s.subrange(0, j + 1) =~= s);
        }
    } else {
        assert(s.subrange(0, j) =~= s);
    }
}

proof fn lemma_recount_node_leaves(n: NodeValue)
    ensures
        node_leaves(recount_node(n)) == node_leaves(n),
    decreases n,
{
    match n {
        NodeValue::Leaf(_) => {},
        NodeValue::Dir { children, .. } => {
            lemma_recount_leaves(children);
        },
    }
}

/// Recounting keeps the leaves.
pub proof fn lemma_recount_leaves(s: Seq<NodeValue>)
    ensures
        leaf_total(recount_forest(s)) == leaf_total(s),
        recount_forest(s).len() == s.len(),
    decreases s,
{
    if s.len() > 0 {
        lemma_recount_leaves(s.subrange(0, s.len() - 1));
        lemma_recount_node_leaves(s[s.len() - 1]);
        let r = recount_forest(s);
        assert(r.subrange(0, r.len() - 1) =~= recount_forest(s.subrange(0, s.len() - 1)));
    }
}

// --- building, executable ------------------------------------------------------------

fn is_favorite(n: &BranchNode) -> (r: bool)
    ensures
        r == node_favorite(n@),
{
    match n {
        BranchNode::Leaf(l) => l.favorite,
        BranchNode::Dir(_) => false,
    }
}

fn is_active(n: &BranchNode) -> (r: bool)
    ensures
        r == node_active(n@),
{
    match n {
        BranchNode::Leaf(l) => l.active,
        BranchNode::Dir(_) => false,
    }
}

fn label_of(n: &BranchNode) -> (r: &str)
    ensures
        r@ == node_label(n@),
{
    match n {
        BranchNode::Leaf(l) => l.label.as_str(),
        BranchNode::Dir(d) => d.label.as_str(),
    }
}

impl ViewOrder for BranchNode {
    open spec fn view_less(a: NodeValue, b: NodeValue) -> bool {
        node_less(a, b)
    }

    fn lt(&self, other: &Self) -> (r: bool) {
        let fa = is_favorite(self);
        let fb = is_favorite(other);
        if fa != fb {
            return fa;
        }
        let aa = is_active(self);
        let ab = is_active(other);
        if aa != ab {
            return aa;
        }
        str_lt(label_of(self), label_of(other))
    }
}

/// Counts the leaf branches beneath a node forest, so the renderer can size
/// its sub-headers from the same numbers the builder derived.
pub fn leaf_count(nodes: &[BranchNode]) -> (r: usize)
    requires
        leaf_total(node_values(nodes@)) <= usize::MAX,
    ensures
        r == leaf_total(node_values(nodes@)),
    decreases nodes@,
{
    let ghost s = node_values(nodes@);
    proof {
        lemma_node_values(nodes@);
    }
    let mut total: usize = 0;
    let mut i: usize = 0;
    assert(s.subrange(0, 0) =~= Seq::<NodeValue>::empty());
    while i < nodes.len()
        invariant
            0 <= i <= nodes@.len(),
            s == node_values(nodes@),
            s.len() == nodes@.len(),
            forall|k: int| 0 <= k < nodes@.len() ==> #[trigger] s[k] == node_value(nodes@[k]),
            leaf_total(s) <= usize::MAX,
            total == leaf_total(s.subrange(0, i as int)),
        decreases nodes@.len() - i,
    {
        proof {
            lemma_leaf_total_prefix(s, i as int);
            lemma_leaf_total_prefix(s, i + 1);
        }
        let k: usize = match &nodes[i] {
            BranchNode::Leaf(_) => 1,
            BranchNode::Dir(d) => {
                assert(s[i as int] == node_value(nodes@[i as int]));
                proof {
                    assert(decreases_to!(nodes@ => nodes@[i as int]));
                    assert(decreases_to!(nodes@[i as int] => nodes@[i as int]->Dir_0));
                    assert(decreases_to!(d => d.children));
                    assert(decreases_to!(d.children => d.children@));
                }
                leaf_count(d.children.as_slice())
            },
        };
        total = total + k;
        i += 1;
    }
    assert(s.subrange(0, i as int) =~= s);
    total
}

fn find_dir(nodes: &Vec<BranchNode>, d: &str) -> (r: Option<usize>)
    ensures
        match dir_pos_from(node_values(nodes@), d@, 0) {
            Some(k) => r == Some(k as usize),
            None => r is None,
        },
{
    let ghost s = node_values(nodes@);
    proof {
        lemma_node_values(nodes@);
    }
    let mut i: usize = 0;
    while i < nodes.len()
        invariant
            0 <= i <= nodes@.len(),
            s == node_values(nodes@),
            s.len() == nodes@.len(),
            forall|k: int| 0 <= k < nodes@.len() ==> #[trigger] s[k] == node_value(nodes@[k]),
            dir_pos_from(s, d@, 0) == dir_pos_from(s, d@, i as int),
        decreases nodes@.len() - i,
    {
        assert(s[i as int] == node_value(nodes@[i as int]));
        let hit = match &nodes[i] {
            BranchNode::Dir(x) => {
                let a = chars_of(x.label.as_str());
                let b = chars_of(d);
                assert(a@.subrange(0, a@.len() as int) =~= a@);
                span_eq(&a, 0, a.len(), &b)
            },
            BranchNode::Leaf(_) => false,
        };
        if hit {
            return Some(i);
        }
        i += 1;
    }
    None
}

/// Inserts a leaf into the forest under `dirs[from..]`, creating directory
/// nodes for the segments that do not exist yet.
fn insert(nodes: Vec<BranchNode>, dirs: &Vec<String>, from: usize, leaf: BranchLeaf) -> (r: Vec<
    BranchNode,
>)
    requires
        from <= dirs@.len(),
    ensures
        node_values(r@) == insert_node(
            node_values(nodes@),
            views(dirs@).subrange(from as int, dirs@.len() as int),
            leaf@,
        ),
    decreases dirs@.len() - from,
{
    let ghost ds = views(dirs@).subrange(from as int, dirs@.len() as int);
    let mut nodes = nodes;
    let ghost before = node_values(nodes@);
    proof {
        lemma_node_values(nodes@);
    }
    if from == dirs.len() {
        nodes.push(BranchNode::Leaf(leaf));
        proof {
            lemma_node_values(nodes@);
        }
        assert(node_values(nodes@) =~= before.push(NodeValue::Leaf(leaf@)));
        return nodes;
    }
    assert(ds[0] == dirs@[from as int]@);
    assert(ds.subrange(1, ds.len() as int) =~= views(dirs@).subrange(from + 1, dirs@.len() as int));
    let dname = dirs[from].as_str();
    assert(dname@ == dirs@[from as int]@);
    let found = find_dir(&nodes, dname);
    proof {
        lemma_dir_pos_from(before, dirs@[from as int]@, 0);
    }
    assert(before.len() == nodes@.len());
    assert(dir_pos_from(before, dname@, 0) matches Some(k) ==> k < nodes@.len());
    match found {
        Some(i) => {
            assert(dir_pos_from(before, dname@, 0) is Some);
            let ghost k = dir_pos_from(before, dname@, 0)->0;
            assert(0 <= k < nodes.len());
            assert(k == i as int);
            assert(dir_pos_from(before, dirs@[from as int]@, 0) == Some(i as int));
            let ghost old_nodes = nodes@;
            let n = nodes.remove(i);
            assert(node_value(n) == before[i as int]);
            let children = match n {
                BranchNode::Dir(d) => d.children,
                BranchNode::Leaf(_) => Vec::new(),
            };
            assert(node_values(children@) == children_of(before[i as int]));
            let c2 = insert(children, dirs, from + 1, leaf);
            let dir = BranchNode::Dir(
                DirNode { label: string_from(dirs[from].as_str()), count: 0, children: c2 },
            );
            nodes.insert(i, dir);
            proof {
                lemma_node_values(nodes@);
            }
            assert(node_values(nodes@) =~= before.update(i as int, node_value(nodes@[i as int])));
            assert(dir_pos_from(before, ds[0], 0) == Some(i as int));
            assert(node_value(nodes@[i as int]) == NodeValue::Dir {
                label: ds[0],
                count: 0,
                children: insert_node(children_of(before[i as int]), ds.subrange(1, ds.len() as int), leaf@),
            });
            assert(node_values(nodes@) == insert_node(before, ds, leaf@));
            nodes
        },
        None => {
            let empty: Vec<BranchNode> = Vec::new();
            assert(node_values(empty@) =~= Seq::<NodeValue>::empty());
            let c2 = insert(empty, dirs, from + 1, leaf);
            let dir = BranchNode::Dir(
                DirNode { label: string_from(dirs[from].as_str()), count: 0, children: c2 },
            );
            nodes.push(dir);
            proof {
                lemma_node_values(nodes@);
            }
            assert(node_values(nodes@) =~= before.push(node_value(nodes@[nodes@.len() - 1])));
            assert(dir_pos_from(before, ds[0], 0) is None);
            assert(node_values(nodes@) == insert_node(before, ds, leaf@));
            nodes
        },
    }
}

/// Sorts each level: favorites first, then the active branch, then by label.
fn finalize(nodes: Vec<BranchNode>) -> (r: Vec<BranchNode>)
    ensures
        node_values(r@) == finalize_forest(node_values(nodes@)),
    decreases nodes@,
{
    let ghost s = node_values(nodes@);
    let ghost orig = nodes@;
    proof {
        lemma_node_values(nodes@);
    }
    let mut each: Vec<BranchNode> = Vec::new();
    assert(s.subrange(0, 0) =~= Seq::<NodeValue>::empty());
    for n in it: nodes.into_iter()
        invariant
            orig == it.seq(),
            s == node_values(orig),
            s.len() == orig.len(),
            forall|k: int| 0 <= k < orig.len() ==> #[trigger] s[k] == node_value(orig[k]),
            node_values(each@) == finalize_each(s.subrange(0, it.index() as int)),
    {
        let ghost k = it.index();
        let ghost prev = node_values(each@);
        assert(orig[k] == n);
        assert(s[k] == node_value(n));
        let m = match n {
            BranchNode::Leaf(l) => BranchNode::Leaf(l),
            BranchNode::Dir(d) => {
                proof {
                    assert(decreases_to!(orig => orig[k]));
                    assert(decreases_to!(orig[k] => orig[k]->Dir_0));
                    assert(decreases_to!(d => d.children));
                    assert(decreases_to!(d.children => d.children@));
                }
                let c = finalize(d.children);
                BranchNode::Dir(DirNode { label: d.label, count: d.count, children: c })
            },
        };
        assert(node_value(m) == finalize_node(s[k]));
        let ghost old_each = each@;
        each.push(m);
        assert(each@.subrange(0, each@.len() - 1) =~= old_each);
        assert(node_values(each@) =~= prev.push(finalize_node(s[k])));
        assert(s.subrange(0, k + 1).subrange(0, k) =~= s.subrange(0, k));
    }
    assert(s.subrange(0, s.len() as int) =~= s);
    let sorted = stable_sort(each);
    assert((|a: NodeValue, b: NodeValue| BranchNode::view_less(a, b)) =~= (|
        a: NodeValue,
        b: NodeValue,
    | node_less(a, b)));
    proof {
        lemma_views_nodes(sorted@);
        lemma_views_nodes(each@);
    }
    sorted
}

proof fn lemma_views_nodes(s: Seq<BranchNode>)
    ensures
        views(s) == node_values(s),
{
    lemma_node_values(s);
    assert(views(s) =~= node_values(s));
}

/// Sets every directory count to the leaves beneath it.
fn recount(nodes: Vec<BranchNode>) -> (r: Vec<BranchNode>)
    requires
        leaf_total(node_values(nodes@)) <= usize::MAX,
    ensures
        node_values(r@) == recount_forest(node_values(nodes@)),
    decreases nodes@,
{
    let ghost s = node_values(nodes@);
    let ghost orig = nodes@;
    proof {
        lemma_node_values(nodes@);
    }
    let mut out: Vec<BranchNode> = Vec::new();
    assert(s.subrange(0, 0) =~= Seq::<NodeValue>::empty());
    for n in it: nodes.into_iter()
        invariant
            orig == it.seq(),
            s == node_values(orig),
            s.len() == orig.len(),
            forall|k: int| 0 <= k < orig.len() ==> #[trigger] s[k] == node_value(orig[k]),
            leaf_total(s) <= usize::MAX,
            node_values(out@) == recount_forest(s.subrange(0, it.index() as int)),
    {
        let ghost k = it.index();
        let ghost prev = node_values(out@);
        assert(orig[k] == n);
        assert(s[k] == node_value(n));
        proof {
            lemma_leaf_total_prefix(s, k);
            lemma_leaf_total_prefix(s, k + 1);
        }
        let m = match n {
            BranchNode::Leaf(l) => BranchNode::Leaf(l),
            BranchNode::Dir(d) => {
                proof {
                    assert(decreases_to!(orig => orig[k]));
                    assert(decreases_to!(orig[k] => orig[k]->Dir_0));
                    assert(decreases_to!(d => d.children));
                    assert(decreases_to!(d.children => d.children@));
                    lemma_recount_leaves(node_values(d.children@));
                }
                let c = recount(d.children);
                let count = leaf_count(c.as_slice());
                BranchNode::Dir(DirNode { label: d.label, count, children: c })
            },
        };
        assert(node_value(m) == recount_node(s[k]));
        let ghost old_out = out@;
        out.push(m);
        assert(out@.subrange(0, out@.len() - 1) =~= old_out);
        assert(node_values(out@) =~= prev.push(recount_node(s[k])));
        assert(s.subrange(0, k + 1).subrange(0, k) =~= s.subrange(0, k));
    }
    assert(s.subrange(0, s.len() as int) =~= s);
    out
}

// --- the laws of a built tree ----------------------------------------------------------

/// Every directory's count is the number of leaves beneath it, at every level.
pub open spec fn counts_ok(s: Seq<NodeValue>) -> bool
    decreases s,
{
    s.len() == 0 || (counts_ok(s.subrange(0, s.len() - 1)) && node_counts_ok(s[s.len() - 1]))
}

/// The count invariant for one node and everything beneath it.
pub open spec fn node_counts_ok(n: NodeValue) -> bool
    decreases n,
{
    match n {
        NodeValue::Leaf(_) => true,
        NodeValue::Dir { count, children, .. } => count == leaf_total(children) && counts_ok(children),
    }
}

/// Every level is ordered by [`node_less`].
pub open spec fn forest_ok(s: Seq<NodeValue>) -> bool
    decreases s, 1nat,
{
    sorted_by(s, |a: NodeValue, b: NodeValue| node_less(a, b)) && each_ok(s)
}

/// Every node of `s` has its levels ordered.
pub open spec fn each_ok(s: Seq<NodeValue>) -> bool
    decreases s, 0nat,
{
    s.len() == 0 || (each_ok(s.subrange(0, s.len() - 1)) && level_ok(s[s.len() - 1]))
}

/// Every level beneath `n` is ordered.
pub open spec fn level_ok(n: NodeValue) -> bool
    decreases n, 0nat,
{
    match n {
        NodeValue::Leaf(_) => true,
        NodeValue::Dir { children, .. } => forest_ok(children),
    }
}

proof fn lemma_each_ok(s: Seq<NodeValue>)
    ensures
        each_ok(s) <==> forall|i: int| 0 <= i < s.len() ==> level_ok(#[trigger] s[i]),
    decreases s.len(),
{
    if s.len() > 0 {
        let p = s.subrange(0, s.len() - 1);
        lemma_each_ok(p);
        if forall|i: int| 0 <= i < s.len() ==> level_ok(#[trigger] s[i]) {
            assert forall|i: int| 0 <= i < p.len() implies level_ok(#[trigger] p[i]) by {
                assert(p[i] == s[i]);
            }
        }
        if each_ok(s) {
            assert forall|i: int| 0 <= i < s.len() implies level_ok(#[trigger] s[i]) by {
                if i < s.len() - 1 {
                    assert(p[i] == s[i]);
                }
            }
        }
    }
}

/// The order within a level is a strict weak order.
pub proof fn lemma_node_less_order()
    ensures
        strict_weak_order(|a: NodeValue, b: NodeValue| node_less(a, b)),
{
    let less = |a: NodeValue, b: NodeValue| node_less(a, b);
    assert forall|a: NodeValue| !#[trigger] less(a, a) by {
        lemma_str_less_order(node_label(a), node_label(a), node_label(a));
    }
    assert forall|a: NodeValue, b: NodeValue, c: NodeValue|
        #![trigger less(a, b), less(b, c)]
        less(a, b) && less(b, c) implies less(a, c) by {
        lemma_str_less_order(node_label(a), node_label(b), node_label(c));
    }
    assert forall|a: NodeValue, b: NodeValue, c: NodeValue|
        #![trigger less(a, b), less(b, c), less(a, c)]
        !less(a, b) && !less(b, c) implies !less(a, c) by {
        lemma_str_less_order(node_label(a), node_label(b), node_label(c));
        lemma_str_less_order(node_label(b), node_label(c), node_label(a));
        lemma_str_less_order(node_label(c), node_label(a), node_label(b));
        lemma_str_less_order(node_label(a), node_label(c), node_label(b));
        lemma_str_less_order(node_label(b), node_label(a), node_label(c));
        lemma_str_less_order(node_label(c), node_label(b), node_label(a));
    }
}

proof fn lemma_finalize_node_ok(n: NodeValue)
    ensures
        level_ok(finalize_node(n)),
        node_leaves(finalize_node(n)) == node_leaves(n),
    decreases n, 0nat,
{
    match n {
        NodeValue::Leaf(_) => {},
        NodeValue::Dir { children, .. } => {
            lemma_finalize_ok(children);
        },
    }
}

proof fn lemma_finalize_each_ok(s: Seq<NodeValue>)
    ensures
        each_ok(finalize_each(s)),
        leaf_total(finalize_each(s)) == leaf_total(s),
        finalize_each(s).len() == s.len(),
    decreases s, 0nat,
{
    if s.len() > 0 {
        let p = s.subrange(0, s.len() - 1);
        lemma_finalize_each_ok(p);
        lemma_finalize_node_ok(s[s.len() - 1]);
        let r = finalize_each(s);
        assert(r.subrange(0, r.len() - 1) =~= finalize_each(p));
    }
}

proof fn lemma_leaf_total_is_total(s: Seq<NodeValue>)
    ensures
        leaf_total(s) == total(s, |n: NodeValue| node_leaves(n)),
    decreases s.len(),
{
    if s.len() > 0 {
        lemma_leaf_total_is_total(s.subrange(0, s.len() - 1));
    }
}

/// Finalizing orders every level and keeps the leaves.
pub proof fn lemma_finalize_ok(s: Seq<NodeValue>)
    ensures
        forest_ok(finalize_forest(s)),
        leaf_total(finalize_forest(s)) == leaf_total(s),
    decreases s, 1nat,
{
    let less = |a: NodeValue, b: NodeValue| node_less(a, b);
    let e = finalize_each(s);
    lemma_finalize_each_ok(s);
    lemma_node_less_order();
    lemma_sort_sorted(e, less);
    lemma_sort_elements(e, less);
    lemma_each_ok(e);
    let r = sort_by_spec(e, less);
    assert forall|i: int| 0 <= i < r.len() implies level_ok(#[trigger] r[i]) by {
        assert(e.contains(r[i]));
        let w = choose|w: int| 0 <= w < e.len() && e[w] == r[i];
        assert(level_ok(e[w]));
    }
    lemma_each_ok(r);
    lemma_sort_total(e, less, |n: NodeValue| node_leaves(n));
    lemma_leaf_total_is_total(e);
    lemma_leaf_total_is_total(r);
}

proof fn lemma_recount_index(s: Seq<NodeValue>)
    ensures
        recount_forest(s).len() == s.len(),
        forall|i: int| 0 <= i < s.len() ==> #[trigger] recount_forest(s)[i] == recount_node(s[i]),
    decreases s.len(),
{
    if s.len() > 0 {
        lemma_recount_index(s.subrange(0, s.len() - 1));
    }
}

proof fn lemma_recount_node_ok(n: NodeValue)
    requires
        level_ok(n),
    ensures
        level_ok(recount_node(n)),
        node_counts_ok(recount_node(n)),
    decreases n, 0nat,
{
    match n {
        NodeValue::Leaf(_) => {},
        NodeValue::Dir { children, .. } => {
            lemma_recount_ok(children);
            lemma_recount_leaves(children);
        },
    }
}

/// Recounting keeps every level's order and sets every count right.
pub proof fn lemma_recount_ok(s: Seq<NodeValue>)
    requires
        forest_ok(s),
    ensures
        forest_ok(recount_forest(s)),
        counts_ok(recount_forest(s)),
    decreases s, 1nat,
{
    let r = recount_forest(s);
    lemma_recount_index(s);
    lemma_each_ok(s);
    assert forall|i: int, j: int| 0 <= i < j < r.len() implies !node_less(r[j], r[i]) by {
        assert(!node_less(s[j], s[i]));
    }
    assert forall|i: int| 0 <= i < r.len() implies level_ok(#[trigger] r[i]) by {
        lemma_recount_node_ok(s[i]);
    }
    lemma_each_ok(r);
    lemma_recount_counts(s);
}

proof fn lemma_recount_counts(s: Seq<NodeValue>)
    requires
        forest_ok(s),
    ensures
        counts_ok(recount_forest(s)),
    decreases s, 0nat,
{
    lemma_each_ok(s);
    if s.len() > 0 {
        let p = s.subrange(0, s.len() - 1);
        assert(forest_ok(p)) by {
            assert forall|i: int| 0 <= i < p.len() implies level_ok(#[trigger] p[i]) by {
                assert(p[i] == s[i]);
            }
            lemma_each_ok(p);
        }
        lemma_recount_counts(p);
        lemma_recount_node_ok(s[s.len() - 1]);
        let r = recount_forest(s);
        assert(r.subrange(0, r.len() - 1) =~= recount_forest(p));
    }
}

proof fn lemma_leaf_total_update(s: Seq<NodeValue>, i: int, x: NodeValue)
    requires
        0 <= i < s.len(),
    ensures
        leaf_total(s.update(i, x)) + node_leaves(s[i]) == leaf_total(s) + node_leaves(x),
    decreases s.len(),
{
    let p = s.subrange(0, s.len() - 1);
    if i < s.len() - 1 {
        lemma_leaf_total_update(p, i, x);
        assert(s.update(i, x).subrange(0, s.len() - 1) =~= p.update(i, x));
    } else {
        assert(s.update(i, x).subrange(0, s.len() - 1) =~= p);
    }
}

/// Inserting a leaf adds exactly one leaf.
pub proof fn lemma_insert_leaves(nodes: Seq<NodeValue>, dirs: Seq<Seq<char>>, leaf: LeafValue)
    ensures
        leaf_total(insert_node(nodes, dirs, leaf)) == leaf_total(nodes) + 1,
    decreases dirs.len(),
{
    if dirs.len() == 0 {
        let s = nodes.push(NodeValue::Leaf(leaf));
        assert(s.subrange(0, s.len() - 1) =~= nodes);
        assert(s[s.len() - 1] == NodeValue::Leaf(leaf));
        assert(node_leaves(NodeValue::Leaf(leaf)) == 1);
        assert(leaf_total(s) == leaf_total(s.subrange(0, s.len() - 1)) + node_leaves(s[s.len() - 1]));
        assert(leaf_total(s) == leaf_total(nodes) + 1);
    } else {
        let rest = dirs.subrange(1, dirs.len() as int);
        lemma_dir_pos_from(nodes, dirs[0], 0);
        match dir_pos_from(nodes, dirs[0], 0) {
            Some(i) => {
                lemma_insert_leaves(children_of(nodes[i]), rest, leaf);
                let x = NodeValue::Dir {
                    label: dirs[0],
                    count: 0,
                    children: insert_node(children_of(nodes[i]), rest, leaf),
                };
                lemma_leaf_total_update(nodes, i, x);
                assert(node_leaves(nodes[i]) == leaf_total(children_of(nodes[i])));
                assert(insert_node(nodes, dirs, leaf) == nodes.update(i, x));
            },
            None => {
                let empty = Seq::<NodeValue>::empty();
                lemma_insert_leaves(empty, rest, leaf);
                let x = NodeValue::Dir {
                    label: dirs[0],
                    count: 0,
                    children: insert_node(empty, rest, leaf),
                };
                assert(nodes.push(x).subrange(0, nodes.len() as int) =~= nodes);
                assert(insert_node(nodes, dirs, leaf) == nodes.push(x));
                assert(leaf_total(empty) == 0);
                let t = nodes.push(x);
                assert(t.subrange(0, t.len() - 1) =~= nodes);
                assert(leaf_total(t) == leaf_total(nodes) + node_leaves(x));
            },
        }
    }
}

// --- a branch list as a tree ---------------------------------------------------------

/// `name` without a leading `<remote>/` when it has one (the remote prefix is
/// dropped before the tree is built, so a leaf never re-prints it).
pub open spec fn strip_remote(name: Seq<char>, remote: Option<Seq<char>>) -> Seq<char> {
    match remote {
        Some(p) => if starts_with(name, p) && p.len() < name.len() && name[p.len() as int] == '/' {
            name.skip((p.len() + 1) as int)
        } else {
            name
        },
        None => name,
    }
}

/// `str::split` on one character: the pieces between the separators.
pub open spec fn split_char(s: Seq<char>, c: char) -> Seq<Seq<char>>
    decreases s.len(),
{
    match rfind_char(s, c) {
        Some(k) => {
            proof {
                lemma_rfind_char_to(s, c, s.len() as int);
            }
            split_char(s.take(k), c).push(s.skip(k + 1))
        },
        None => seq![s],
    }
}

pub proof fn lemma_split_char_nonempty(s: Seq<char>, c: char)
    ensures
        split_char(s, c).len() >= 1,
{
}

/// The path segments of a branch's (stripped) name: directories, then the
/// leaf label.
pub open spec fn branch_path(b: BranchValue, strip: Option<Seq<char>>) -> Seq<Seq<char>> {
    split_char(strip_remote(b.name, strip), '/')
}

/// The leaf of a branch.
pub open spec fn branch_leaf(b: BranchValue, current: Option<Seq<char>>, strip: Option<Seq<char>>) -> LeafValue {
    LeafValue {
        label: branch_path(b, strip).last(),
        branch: b,
        active: current == Some(b.name) && b.kind == BranchKind::Local,
        favorite: b.favorite,
    }
}

/// The unsorted forest of a branch list, each leaf inserted in order.
pub open spec fn grow(bs: Seq<BranchValue>, current: Option<Seq<char>>, strip: Option<Seq<char>>) -> Seq<
    NodeValue,
>
    decreases bs.len(),
{
    if bs.len() == 0 {
        seq![]
    } else {
        let b = bs.last();
        insert_node(
            grow(bs.drop_last(), current, strip),
            branch_path(b, strip).drop_last(),
            branch_leaf(b, current, strip),
        )
    }
}

/// The directory/leaf hierarchy of a branch list: grown, every level sorted,
/// every directory counted.
pub open spec fn tree_of(bs: Seq<BranchValue>, current: Option<Seq<char>>, strip: Option<Seq<char>>) -> Seq<
    NodeValue,
> {
    recount_forest(finalize_forest(grow(bs, current, strip)))
}

proof fn lemma_grow_leaves(bs: Seq<BranchValue>, current: Option<Seq<char>>, strip: Option<Seq<char>>)
    ensures
        leaf_total(grow(bs, current, strip)) == bs.len(),
    decreases bs.len(),
{
    if bs.len() > 0 {
        lemma_grow_leaves(bs.drop_last(), current, strip);
        let b = bs.last();
        lemma_insert_leaves(
            grow(bs.drop_last(), current, strip),
            branch_path(b, strip).drop_last(),
            branch_leaf(b, current, strip),
        );
    }
}

/// The tree of a branch list has one leaf per branch, every directory's count
/// is the number of leaves beneath it, and every level is ordered favorites
/// first, then the checked-out branch, then by label.
pub proof fn lemma_tree_laws(bs: Seq<BranchValue>, current: Option<Seq<char>>, strip: Option<Seq<char>>)
    ensures
        leaf_total(tree_of(bs, current, strip)) == bs.len(),
        counts_ok(tree_of(bs, current, strip)),
        forest_ok(tree_of(bs, current, strip)),
{
    let g = grow(bs, current, strip);
    lemma_grow_leaves(bs, current, strip);
    lemma_finalize_ok(g);
    lemma_recount_ok(finalize_forest(g));
    lemma_recount_leaves(finalize_forest(g));
}

fn split_pieces(v: &Vec<char>, from: usize, to: usize, c: char) -> (r: Vec<String>)
    requires
        from <= to <= v@.len(),
    ensures
        views(r@) == split_char(v@.subrange(from as int, to as int), c),
    decreases to - from,
{
    let ghost s = v@.subrange(from as int, to as int);
    proof {
        lemma_rfind_char_to(s, c, s.len() as int);
    }
    match span_rfind_char(v, from, to, c) {
        Some(k) => {
            let mut r = split_pieces(v, from, from + k, c);
            assert(s.take(k as int) =~= v@.subrange(from as int, from + k));
            let piece = string_of(v, from + k + 1, to);
            assert(piece@ =~= s.skip(k + 1));
            let ghost before = views(r@);
            r.push(piece);
            assert(views(r@) =~= before.push(piece@));
            r
        },
        None => {
            let mut r: Vec<String> = Vec::new();
            let piece = string_of(v, from, to);
            r.push(piece);
            assert(views(r@) =~= seq![s]);
            r
        },
    }
}


/// The directory path and the leaf of one branch.
fn leaf_of(b: &Branch, current: &Option<String>, strip: Option<&str>) -> (r: (Vec<String>, BranchLeaf))
    ensures
        views(r.0@) == branch_path(b@, opt_str_view(strip)).drop_last(),
        r.1@ == branch_leaf(b@, opt_view(*current), opt_str_view(strip)),
{
    let v = chars_of(b.name.as_str());
    let from: usize = match strip {
        Some(p) => {
            let pv = chars_of(p);
            assert(v@.subrange(0, v@.len() as int) =~= v@);
            if span_starts_with(&v, 0, v.len(), &pv) && pv.len() < v.len() && v[pv.len()] == '/' {
                pv.len() + 1
            } else {
                0
            }
        },
        None => 0,
    };
    assert(v@.subrange(from as int, v@.len() as int) =~= strip_remote(b@.name, opt_str_view(strip)));
    let mut parts = split_pieces(&v, from, v.len(), '/');
    proof {
        lemma_split_char_nonempty(strip_remote(b@.name, opt_str_view(strip)), '/');
    }
    let ghost all = views(parts@);
    let label = match parts.pop() {
        Some(l) => l,
        None => String::new(),
    };
    assert(views(parts@) =~= all.drop_last());
    let active = match current {
        Some(c) => crate::text::str_eq(c.as_str(), b.name.as_str()),
        None => false,
    } && b.kind == BranchKind::Local;
    let leaf = BranchLeaf { label, branch: b.copy(), active, favorite: b.favorite };
    (parts, leaf)
}

/// Builds the directory/leaf hierarchy of a branch list. With a remote
/// (`strip`), the leading `<remote>/` of each name is dropped first.
fn build_tree(branches: &[Branch], current: &Option<String>, strip: Option<&str>) -> (r: Vec<
    BranchNode,
>)
    ensures
        node_values(r@) == tree_of(views(branches@), opt_view(*current), opt_str_view(strip)),
{
    let ghost bs = views(branches@);
    let ghost cur = opt_view(*current);
    let ghost st = opt_str_view(strip);
    let mut forest: Vec<BranchNode> = Vec::new();
    let mut i: usize = 0;
    assert(node_values(forest@) =~= grow(bs.take(0), cur, st));
    while i < branches.len()
        invariant
            0 <= i <= branches@.len(),
            bs == views(branches@),
            cur == opt_view(*current),
            st == opt_str_view(strip),
            node_values(forest@) == grow(bs.take(i as int), cur, st),
        decreases branches@.len() - i,
    {
        let (dirs, leaf) = leaf_of(&branches[i], current, strip);
        assert(bs[i as int] == branches@[i as int]@);
        assert(bs.take(i + 1).drop_last() =~= bs.take(i as int));
        assert(views(dirs@).subrange(0, dirs@.len() as int) =~= views(dirs@));
        forest = insert(forest, &dirs, 0, leaf);
        i += 1;
    }
    assert(bs.take(i as int) =~= bs);
    let sorted = finalize(forest);
    proof {
        lemma_grow_leaves(bs, cur, st);
        lemma_finalize_ok(grow(bs, cur, st));
    }
    recount(sorted)
}

// --- repositories --------------------------------------------------------------------

/// One tag row: the tag's name and its per-ref state.
#[derive(Clone, Debug, PartialEq, Eq)]
pub struct TagLeaf {
    pub name: String,
    pub state: RefState,
}

impl View for TagLeaf {
    type V = (Seq<char>, RefState);

    open spec fn view(&self) -> (Seq<char>, RefState) {
        (self.name@, self.state)
    }
}

/// One remote's group of branches (present only while that repository's
/// remotes are showing).
#[derive(Debug, PartialEq, Eq)]
pub struct RemoteGroup {
    pub remote: String,
    /// Number of branches in this group.
    pub count: usize,
    pub children: Vec<BranchNode>,
}

/// The mathematical value of a [`RemoteGroup`].
pub struct GroupValue {
    pub remote: Seq<char>,
    pub count: nat,
    pub children: Seq<NodeValue>,
}

impl View for RemoteGroup {
    type V = GroupValue;

    open spec fn view(&self) -> GroupValue {
        GroupValue {
            remote: self.remote@,
            count: self.count as nat,
            children: node_values(self.children@),
        }
    }
}

/// One repository's section in the grouped tree.
#[derive(Debug, PartialEq, Eq)]
pub struct RepoSection {
    pub root_id: RootId,
    pub repo_name: String,
    /// The repository's checked-out branch, if any.
    pub current_branch: Option<String>,
    pub status: RepoStatus,
    /// The current branch's commits ahead of and behind its upstream, from the
    /// same snapshot as `status`.
    pub ahead: usize,
    pub behind: usize,
    /// Local branches as a tree (directory subgroups, stripped labels).
    pub locals: Vec<BranchNode>,
    /// Remote-branch count across all remotes (the rollup's branch count).
    pub remote_branch_count: usize,
    /// Number of configured remotes (the rollup's remote count).
    pub remote_count: usize,
    /// Per-remote groups, present only while the remotes are showing.
    pub remote_groups: Vec<RemoteGroup>,
    /// The repository's tags, in the order supplied, with their states.
    pub tags: Vec<TagLeaf>,
}

/// The mathematical value of a [`RepoSection`].
pub struct SectionValue {
    pub root_id: Seq<char>,
    pub repo_name: Seq<char>,
    pub current_branch: Option<Seq<char>>,
    pub status: RepoState,
    pub ahead: nat,
    pub behind: nat,
    pub locals: Seq<NodeValue>,
    pub remote_branch_count: nat,
    pub remote_count: nat,
    pub remote_groups: Seq<GroupValue>,
    pub tags: Seq<(Seq<char>, RefState)>,
}

impl View for RepoSection {
    type V = SectionValue;

    open spec fn view(&self) -> SectionValue {
        SectionValue {
            root_id: self.root_id.0@,
            repo_name: self.repo_name@,
            current_branch: opt_view(self.current_branch),
            status: self.status,
            ahead: self.ahead as nat,
            behind: self.behind as nat,
            locals: node_values(self.locals@),
            remote_branch_count: self.remote_branch_count as nat,
            remote_count: self.remote_count as nat,
            remote_groups: views(self.remote_groups@),
            tags: views(self.tags@),
        }
    }
}

/// The collapsed "N remotes · M branches" rollup, or `None` when there are
/// neither remotes nor remote-tracking branches.
pub open spec fn rollup_text(remotes: nat, branches: nat) -> Option<Seq<char>> {
    if remotes == 0 && branches == 0 {
        None
    } else {
        Some(
            decimal(remotes) + " remote"@ + (if remotes == 1 {
                ""@
            } else {
                "s"@
            }) + " · "@ + decimal(branches) + " "@ + (if branches == 1 {
                "branch"@
            } else {
                "branches"@
            }),
        )
    }
}

impl RepoSection {
    /// The collapsed "N remotes · M branches" rollup text, or `None` when the
    /// repository has neither configured remotes nor remote-tracking branches.
    pub fn remote_rollup(&self) -> (r: Option<String>)
        ensures
            opt_view(r) == rollup_text(self.remote_count as nat, self.remote_branch_count as nat),
    {
        if self.remote_count == 0 && self.remote_branch_count == 0 {
            return None;
        }
        let mut s = String::new();
        push_decimal(&mut s, self.remote_count as u64);
        push_str(&mut s, " remote");
        push_str(&mut s, if self.remote_count == 1 { "" } else { "s" });
        push_str(&mut s, " · ");
        push_decimal(&mut s, self.remote_branch_count as u64);
        push_str(&mut s, " ");
        push_str(&mut s, if self.remote_branch_count == 1 { "branch" } else { "branches" });
        Some(s)
    }
}

/// The full grouped view model.
#[derive(Debug, PartialEq, Eq)]
pub struct BranchView {
    pub repos: Vec<RepoSection>,
    /// `Some(n)` when more than one repository is in scope.
    pub all_repos_count: Option<usize>,
    /// Exactly one repository is in scope (its section renders invisibly).
    pub single_repo: bool,
}

/// The mathematical value of a [`BranchView`].
pub struct TreeValue {
    pub repos: Seq<SectionValue>,
    pub all_repos_count: Option<nat>,
    pub single_repo: bool,
}

impl View for BranchView {
    type V = TreeValue;

    open spec fn view(&self) -> TreeValue {
        TreeValue {
            repos: views(self.repos@),
            all_repos_count: match self.all_repos_count {
                Some(n) => Some(n as nat),
                None => None,
            },
            single_repo: self.single_repo,
        }
    }
}

/// The branches of kind `k`, in order.
pub open spec fn of_kind(bs: Seq<BranchValue>, k: BranchKind) -> Seq<BranchValue>
    decreases bs.len(),
{
    if bs.len() == 0 {
        seq![]
    } else if bs.last().kind == k {
        of_kind(bs.drop_last(), k).push(bs.last())
    } else {
        of_kind(bs.drop_last(), k)
    }
}

/// The first local branch named `name`.
pub open spec fn first_local(bs: Seq<BranchValue>, name: Seq<char>) -> Option<BranchValue>
    decreases bs.len(),
{
    if bs.len() == 0 {
        None
    } else if bs[0].kind == BranchKind::Local && bs[0].name == name {
        Some(bs[0])
    } else {
        first_local(bs.skip(1), name)
    }
}

/// The checked-out branch's commits ahead and behind (none without one).
pub open spec fn current_counts(bs: Seq<BranchValue>, current: Option<Seq<char>>) -> (nat, nat) {
    match current {
        Some(n) => match first_local(bs, n) {
            Some(b) => (b.ahead, b.behind),
            None => (0, 0),
        },
        None => (0, 0),
    }
}

/// The remote a remote-tracking branch is grouped under: its `remote`, else
/// the first segment of its name.
pub open spec fn remote_key(b: BranchValue) -> Seq<char> {
    match b.remote {
        Some(r) => r,
        None => match find(b.name, "/"@) {
            Some(k) => b.name.take(k),
            None => b.name,
        },
    }
}

/// The index of the first group named `key` at or after `i`.
pub open spec fn group_pos_from(g: Seq<(Seq<char>, Seq<BranchValue>)>, key: Seq<char>, i: int) -> Option<
    int,
>
    decreases g.len() - i,
{
    if i < 0 || i >= g.len() {
        None
    } else if g[i].0 == key {
        Some(i)
    } else {
        group_pos_from(g, key, i + 1)
    }
}

pub proof fn lemma_group_pos_from(g: Seq<(Seq<char>, Seq<BranchValue>)>, key: Seq<char>, i: int)
    requires
        0 <= i,
    ensures
        group_pos_from(g, key, i) matches Some(k) ==> i <= k < g.len() && g[k].0 == key,
    decreases g.len() - i,
{
    if i < g.len() && g[i].0 != key {
        lemma_group_pos_from(g, key, i + 1);
    }
}

/// Remote branches grouped by remote, groups in order of first appearance.
pub open spec fn group_remotes(rs: Seq<BranchValue>) -> Seq<(Seq<char>, Seq<BranchValue>)>
    decreases rs.len(),
{
    if rs.len() == 0 {
        seq![]
    } else {
        let g = group_remotes(rs.drop_last());
        let b = rs.last();
        let key = remote_key(b);
        match group_pos_from(g, key, 0) {
            Some(i) => g.update(i, (key, g[i].1.push(b))),
            None => g.push((key, seq![b])),
        }
    }
}

/// Groups ordered by remote name.
pub open spec fn by_remote_name(a: (Seq<char>, Seq<BranchValue>), b: (Seq<char>, Seq<BranchValue>)) -> bool {
    str_less(a.0, b.0)
}

/// The remote groups, by remote name.
pub open spec fn sorted_groups(rs: Seq<BranchValue>) -> Seq<(Seq<char>, Seq<BranchValue>)> {
    sort_by_spec(
        group_remotes(rs),
        |a: (Seq<char>, Seq<BranchValue>), b: (Seq<char>, Seq<BranchValue>)| by_remote_name(a, b),
    )
}

/// A remote's group: its branches as a tree with the remote prefix stripped.
pub open spec fn group_of(g: (Seq<char>, Seq<BranchValue>), current: Option<Seq<char>>) -> GroupValue {
    GroupValue { remote: g.0, count: g.1.len(), children: tree_of(g.1, current, Some(g.0)) }
}

/// The values of a tag list.
pub open spec fn tag_values(s: Seq<(String, RefState)>) -> Seq<(Seq<char>, RefState)> {
    s.map_values(|t: (String, RefState)| (t.0@, t.1))
}

/// The tags listed for repository `id` (the first entry for it), or none.
pub open spec fn tags_for(entries: Seq<(RootId, Vec<(String, RefState)>)>, id: Seq<char>) -> Seq<
    (Seq<char>, RefState),
>
    decreases entries.len(),
{
    if entries.len() == 0 {
        seq![]
    } else if entries[0].0.0@ == id {
        tag_values(entries[0].1@)
    } else {
        tags_for(entries.skip(1), id)
    }
}

/// A repository's section, given its tags and whether its remotes show.
pub open spec fn section_spec(root: Root, tags: Seq<(Seq<char>, RefState)>, revealed: bool) -> SectionValue {
    let bs = views(root.branches@);
    let cur = opt_view(root.current_branch);
    let (ahead, behind) = current_counts(bs, cur);
    SectionValue {
        root_id: root.id.0@,
        repo_name: root_name_spec(root.id.0@),
        current_branch: cur,
        status: state_of(
            root.status.conflicted as nat,
            (root.status.modified + root.status.unversioned) as nat,
            ahead,
            behind,
        ),
        ahead,
        behind,
        locals: tree_of(of_kind(bs, BranchKind::Local), cur, None),
        remote_branch_count: of_kind(bs, BranchKind::Remote).len(),
        remote_count: root.remotes@.len(),
        remote_groups: if revealed {
            sorted_groups(of_kind(bs, BranchKind::Remote)).map_values(
                |g: (Seq<char>, Seq<BranchValue>)| group_of(g, cur),
            )
        } else {
            seq![]
        },
        tags,
    }
}

fn current_counts_of(bs: &Vec<Branch>, current: &Option<String>) -> (r: (usize, usize))
    ensures
        (r.0 as nat, r.1 as nat) == current_counts(views(bs@), opt_view(*current)),
{
    match current {
        Some(name) => {
            let ghost s = views(bs@);
            let mut i: usize = 0;
            assert(s.skip(0) =~= s);
            while i < bs.len()
                invariant
                    0 <= i <= bs@.len(),
                    s == views(bs@),
                    opt_view(*current) == Some(name@),
                    first_local(s, name@) == first_local(s.skip(i as int), name@),
                decreases bs@.len() - i,
            {
                let b = &bs[i];
                assert(s.skip(i as int)[0] == b@);
                assert(s.skip(i as int).skip(1) =~= s.skip(i + 1));
                if b.kind == BranchKind::Local && crate::text::str_eq(b.name.as_str(), name.as_str()) {
                    assert(first_local(s.skip(i as int), name@) == Some(b@));
                    return (b.ahead, b.behind);
                }
                i += 1;
            }
            (0, 0)
        },
        None => (0, 0),
    }
}

/// A repository's header status, with the current branch's ahead/behind
/// counts it was derived from.
fn header_status(root: &Root) -> (r: (RepoStatus, usize, usize))
    ensures
        (r.1 as nat, r.2 as nat) == current_counts(views(root.branches@), opt_view(root.current_branch)),
        r.0 == state_of(
            root.status.conflicted as nat,
            (root.status.modified + root.status.unversioned) as nat,
            r.1 as nat,
            r.2 as nat,
        ),
{
    let (ahead, behind) = current_counts_of(&root.branches, &root.current_branch);
    (RepoState::from_root(root, ahead, behind), ahead, behind)
}

fn of_kind_of(bs: &Vec<Branch>, k: BranchKind) -> (r: Vec<Branch>)
    ensures
        views(r@) == of_kind(views(bs@), k),
{
    let ghost s = views(bs@);
    let mut out: Vec<Branch> = Vec::new();
    let mut i: usize = 0;
    while i < bs.len()
        invariant
            0 <= i <= bs@.len(),
            s == views(bs@),
            views(out@) == of_kind(s.take(i as int), k),
        decreases bs@.len() - i,
    {
        assert(s.take(i + 1).drop_last() =~= s.take(i as int));
        assert(s.take(i + 1).last() == bs@[i as int]@);
        if bs[i].kind == k {
            let ghost before = views(out@);
            out.push(bs[i].copy());
            assert(views(out@) =~= before.push(s[i as int]));
        }
        i += 1;
    }
    assert(s.take(i as int) =~= s);
    out
}

fn remote_key_of(b: &Branch) -> (r: String)
    ensures
        r@ == remote_key(b@),
{
    match &b.remote {
        Some(r) => string_from(r.as_str()),
        None => {
            let v = chars_of(b.name.as_str());
            let mut p: Vec<char> = Vec::new();
            p.push('/');
            proof {
                reveal_strlit("/");
                lemma_find_from(v@, "/"@, 0);
            }
            assert(p@ =~= "/"@);
            assert(v@.subrange(0, v@.len() as int) =~= v@);
            match span_find(&v, 0, v.len(), &p) {
                Some(k) => {
                    assert(find(b@.name, "/"@) == Some(k as int));
                    string_of(&v, 0, k)
                },
                None => string_from(b.name.as_str()),
            }
        },
    }
}

/// Remote branches gathered under one remote.
struct Group(String, Vec<Branch>);

impl View for Group {
    type V = (Seq<char>, Seq<BranchValue>);

    closed spec fn view(&self) -> (Seq<char>, Seq<BranchValue>) {
        (self.0@, views(self.1@))
    }
}

impl ViewOrder for Group {
    open spec fn view_less(a: (Seq<char>, Seq<BranchValue>), b: (Seq<char>, Seq<BranchValue>)) -> bool {
        by_remote_name(a, b)
    }

    fn lt(&self, other: &Self) -> (r: bool) {
        str_lt(self.0.as_str(), other.0.as_str())
    }
}

fn find_group(groups: &Vec<Group>, key: &String) -> (r: Option<usize>)
    ensures
        match group_pos_from(views(groups@), key@, 0) {
            Some(k) => r == Some(k as usize),
            None => r is None,
        },
{
    let ghost g = views(groups@);
    let mut i: usize = 0;
    while i < groups.len()
        invariant
            0 <= i <= groups@.len(),
            g == views(groups@),
            group_pos_from(g, key@, 0) == group_pos_from(g, key@, i as int),
        decreases groups@.len() - i,
    {
        assert(g[i as int] == groups@[i as int]@);
        if crate::text::str_eq(groups[i].0.as_str(), key.as_str()) {
            return Some(i);
        }
        i += 1;
    }
    None
}

fn group_by_remote(rs: &Vec<Branch>) -> (r: Vec<Group>)
    ensures
        views(r@) == group_remotes(views(rs@)),
{
    let ghost s = views(rs@);
    let mut groups: Vec<Group> = Vec::new();
    let mut i: usize = 0;
    while i < rs.len()
        invariant
            0 <= i <= rs@.len(),
            s == views(rs@),
            views(groups@) == group_remotes(s.take(i as int)),
        decreases rs@.len() - i,
    {
        let b = &rs[i];
        assert(s.take(i + 1).drop_last() =~= s.take(i as int));
        assert(s.take(i + 1).last() == b@);
        let ghost g = views(groups@);
        let key = remote_key_of(b);
        let found = find_group(&groups, &key);
        proof {
            lemma_group_pos_from(g, key@, 0);
        }
        match found {
            Some(k) => {
                assert(group_pos_from(g, key@, 0) is Some);
                let ghost j = group_pos_from(g, key@, 0)->0;
                assert(0 <= j < groups.len());
                assert(j == k as int);
                let Group(name, mut list) = groups.remove(k);
                let ghost lv = views(list@);
                list.push(b.copy());
                assert(views(list@) =~= lv.push(b@));
                groups.insert(k, Group(name, list));
                assert(views(groups@) =~= g.update(k as int, (key@, g[k as int].1.push(b@))));
            },
            None => {
                let mut list: Vec<Branch> = Vec::new();
                list.push(b.copy());
                assert(views(list@) =~= seq![b@]);
                groups.push(Group(key, list));
                assert(views(groups@) =~= g.push((key@, seq![b@])));
            },
        }
        i += 1;
    }
    assert(s.take(i as int) =~= s);
    groups
}

fn tags_of(tags_by_root: &[(RootId, Vec<(String, RefState)>)], id: &RootId) -> (r: Vec<TagLeaf>)
    ensures
        views(r@) == tags_for(tags_by_root@, id.0@),
{
    let ghost e = tags_by_root@;
    let mut i: usize = 0;
    assert(e.skip(0) =~= e);
    while i < tags_by_root.len()
        invariant
            0 <= i <= tags_by_root@.len(),
            e == tags_by_root@,
            tags_for(e, id.0@) == tags_for(e.skip(i as int), id.0@),
        decreases tags_by_root@.len() - i,
    {
        assert(e.skip(i as int)[0] == e[i as int]);
        assert(e.skip(i as int).skip(1) =~= e.skip(i + 1));
        if tags_by_root[i].0.same(id) {
            let list = &tags_by_root[i].1;
            let ghost tv = tag_values(list@);
            let mut out: Vec<TagLeaf> = Vec::new();
            let mut j: usize = 0;
            while j < list.len()
                invariant
                    0 <= j <= list@.len(),
                    tv == tag_values(list@),
                    views(out@) == tv.take(j as int),
                decreases list@.len() - j,
            {
                let ghost before = views(out@);
                out.push(TagLeaf { name: string_from(list[j].0.as_str()), state: list[j].1 });
                assert(views(out@) =~= before.push(tv[j as int]));
                assert(tv.take(j + 1) =~= tv.take(j as int).push(tv[j as int]));
                j += 1;
            }
            assert(tv.take(j as int) =~= tv);
            return out;
        }
        i += 1;
    }
    Vec::new()
}

/// One repository's section, given whether its remotes are showing.
pub fn repo_section(
    root: &Root,
    tags_by_root: &[(RootId, Vec<(String, RefState)>)],
    revealed: bool,
) -> (r: RepoSection)
    ensures
        r@ == section_spec(*root, tags_for(tags_by_root@, root.id.0@), revealed),
{
    let ghost bs = views(root.branches@);
    let ghost cur = opt_view(root.current_branch);
    let repo_name = root.id.name();
    let (status, ahead, behind) = header_status(root);
    let locals = of_kind_of(&root.branches, BranchKind::Local);
    let remotes = of_kind_of(&root.branches, BranchKind::Remote);
    let no_strip: Option<&str> = None;
    let locals_tree = build_tree(locals.as_slice(), &root.current_branch, no_strip);
    let mut remote_groups: Vec<RemoteGroup> = Vec::new();
    if revealed {
        let grouped = group_by_remote(&remotes);
        let sorted = stable_sort(grouped);
        assert((|a: (Seq<char>, Seq<BranchValue>), b: (Seq<char>, Seq<BranchValue>)|
            Group::view_less(a, b)) =~= (|
            a: (Seq<char>, Seq<BranchValue>),
            b: (Seq<char>, Seq<BranchValue>),
        | by_remote_name(a, b)));
        let ghost sv = views(sorted@);
        let ghost gv = sv.map_values(|g: (Seq<char>, Seq<BranchValue>)| group_of(g, cur));
        let ghost orig = sorted@;
        for g in it: sorted.into_iter()
            invariant
                orig == it.seq(),
                sv == views(orig),
                cur == opt_view(root.current_branch),
                gv == sv.map_values(|g: (Seq<char>, Seq<BranchValue>)| group_of(g, cur)),
                views(remote_groups@) == gv.take(it.index() as int),
        {
            let ghost k = it.index();
            assert(sv[k as int] == g@);
            let Group(remote, list) = g;
            let children = build_tree(list.as_slice(), &root.current_branch, Some(remote.as_str()));
            let count = list.len();
            let ghost before = views(remote_groups@);
            remote_groups.push(RemoteGroup { remote, count, children });
            assert(views(remote_groups@) =~= before.push(gv[k as int]));
            assert(gv.take(k + 1) =~= gv.take(k as int).push(gv[k as int]));
        }
        assert(gv.take(gv.len() as int) =~= gv);
    } else {
        assert(views(remote_groups@) =~= Seq::<GroupValue>::empty());
    }
    let tags = tags_of(tags_by_root, &root.id);
    RepoSection {
        root_id: RootId(string_from(root.id.0.as_str())),
        repo_name,
        current_branch: copy_opt(&root.current_branch),
        status,
        ahead,
        behind,
        locals: locals_tree,
        remote_branch_count: remotes.len(),
        remote_count: root.remotes.len(),
        remote_groups,
        tags,
    }
}

/// What the grouped view holds for a repository whose remotes-showing
/// predicate `show_remotes` answered `revealed`.
pub open spec fn section_for<F: Fn(&RootId) -> bool>(
    show_remotes: F,
    root: Root,
    tags_by_root: Seq<(RootId, Vec<(String, RefState)>)>,
    s: SectionValue,
) -> bool {
    exists|revealed: bool|
        #![trigger section_spec(root, tags_for(tags_by_root, root.id.0@), revealed)]
        show_remotes.ensures((&root.id,), revealed) && s == section_spec(
            root,
            tags_for(tags_by_root, root.id.0@),
            revealed,
        )
}

/// Builds the full grouped view model. `tags_by_root` carries each
/// repository's tag list (the first entry for a repository counts);
/// `show_remotes` is asked per repository whether its remotes are showing, so
/// a rolled-up repository's remote trees are never built.
pub fn build_branch_view<F: Fn(&RootId) -> bool>(
    roots: &[Root],
    tags_by_root: &[(RootId, Vec<(String, RefState)>)],
    show_remotes: &F,
) -> (r: BranchView)
    requires
        forall|id: &RootId| show_remotes.requires((id,)),
    ensures
        r@.repos.len() == roots@.len(),
        forall|i: int|
            0 <= i < roots@.len() ==> section_for(*show_remotes, roots@[i], tags_by_root@, #[trigger] r@.repos[i]),
        r@.all_repos_count == if roots@.len() > 1 {
            Some(roots@.len() as nat)
        } else {
            None
        },
        r@.single_repo == (roots@.len() == 1),
{
    let single_repo = roots.len() == 1;
    let all_repos_count = if roots.len() > 1 {
        Some(roots.len())
    } else {
        None
    };
    let mut repos: Vec<RepoSection> = Vec::new();
    let mut i: usize = 0;
    while i < roots.len()
        invariant
            0 <= i <= roots@.len(),
            forall|id: &RootId| show_remotes.requires((id,)),
            views(repos@).len() == i,
            forall|k: int|
                0 <= k < i ==> section_for(*show_remotes, roots@[k], tags_by_root@, #[trigger] views(repos@)[k]),
        decreases roots@.len() - i,
    {
        let root = &roots[i];
        let revealed = show_remotes(&root.id);
        let sec = repo_section(root, tags_by_root, revealed);
        let ghost before = views(repos@);
        repos.push(sec);
        assert(views(repos@) =~= before.push(sec@));
        assert(section_for(*show_remotes, roots@[i as int], tags_by_root@, views(repos@)[i as int]));
        i += 1;
    }
    BranchView { repos, all_repos_count, single_repo }
}

// --- the laws of a section ------------------------------------------------------------

proof fn lemma_group_total(rs: Seq<BranchValue>)
    ensures
        total(group_remotes(rs), |g: (Seq<char>, Seq<BranchValue>)| g.1.len()) == rs.len(),
    decreases rs.len(),
{
    let f = |g: (Seq<char>, Seq<BranchValue>)| g.1.len();
    if rs.len() > 0 {
        lemma_group_total(rs.drop_last());
        let g = group_remotes(rs.drop_last());
        let b = rs.last();
        let key = remote_key(b);
        lemma_group_pos_from(g, key, 0);
        match group_pos_from(g, key, 0) {
            Some(i) => {
                lemma_total_update(g, i, (key, g[i].1.push(b)), f);
            },
            None => {
                lemma_total_push(g, (key, seq![b]), f);
            },
        }
    }
}

proof fn lemma_group_counts(gs: Seq<(Seq<char>, Seq<BranchValue>)>, cur: Option<Seq<char>>)
    ensures
        total(
            gs.map_values(|g: (Seq<char>, Seq<BranchValue>)| group_of(g, cur)),
            |v: GroupValue| v.count,
        ) == total(gs, |g: (Seq<char>, Seq<BranchValue>)| g.1.len()),
    decreases gs.len(),
{
    if gs.len() > 0 {
        lemma_group_counts(gs.drop_last(), cur);
        assert(gs.map_values(|g: (Seq<char>, Seq<BranchValue>)| group_of(g, cur)).drop_last()
            =~= gs.drop_last().map_values(|g: (Seq<char>, Seq<BranchValue>)| group_of(g, cur)));
    }
}

/// A repository's section: its local tree has one leaf per local branch,
/// with every directory count and every level's order right; while its
/// remotes show, every remote group's count is the number of leaves in its
/// tree (counted and ordered the same way) and the rollup's branch count is
/// the sum of the group counts; while they do not, there are no groups.
pub proof fn lemma_section_laws(root: Root, tags: Seq<(Seq<char>, RefState)>, revealed: bool)
    ensures
        leaf_total(section_spec(root, tags, revealed).locals) == of_kind(
            views(root.branches@),
            BranchKind::Local,
        ).len(),
        counts_ok(section_spec(root, tags, revealed).locals),
        forest_ok(section_spec(root, tags, revealed).locals),
        revealed ==> total(section_spec(root, tags, revealed).remote_groups, |g: GroupValue| g.count)
            == section_spec(root, tags, revealed).remote_branch_count,
        forall|i: int|
            0 <= i < section_spec(root, tags, revealed).remote_groups.len() ==> {
                let g = #[trigger] section_spec(root, tags, revealed).remote_groups[i];
                &&& g.count == leaf_total(g.children)
                &&& counts_ok(g.children)
                &&& forest_ok(g.children)
            },
        !revealed ==> section_spec(root, tags, revealed).remote_groups.len() == 0,
{
    let bs = views(root.branches@);
    let cur = opt_view(root.current_branch);
    let rs = of_kind(bs, BranchKind::Remote);
    let sec = section_spec(root, tags, revealed);
    lemma_tree_laws(of_kind(bs, BranchKind::Local), cur, None);
    if revealed {
        let less = |a: (Seq<char>, Seq<BranchValue>), b: (Seq<char>, Seq<BranchValue>)|
            by_remote_name(a, b);
        let gs = sorted_groups(rs);
        lemma_group_total(rs);
        lemma_sort_total(group_remotes(rs), less, |g: (Seq<char>, Seq<BranchValue>)| g.1.len());
        lemma_group_counts(gs, cur);
        assert forall|i: int| 0 <= i < sec.remote_groups.len() implies {
            let g = #[trigger] sec.remote_groups[i];
            &&& g.count == leaf_total(g.children)
            &&& counts_ok(g.children)
            &&& forest_ok(g.children)
        } by {
            lemma_tree_laws(gs[i].1, cur, Some(gs[i].0));
        }
    }
}

/// The count laws of a built view, for every repository it holds: every
/// directory's count is the number of leaves beneath it, the local tree holds
/// one leaf per local branch, every remote group's count is its leaves, and
/// the remote groups, where the remotes show, add up to the repository's
/// remote-branch count; where they do not show, there are none.
pub proof fn lemma_view_counts<F: Fn(&RootId) -> bool>(
    show_remotes: F,
    roots: Seq<Root>,
    tags_by_root: Seq<(RootId, Vec<(String, RefState)>)>,
    repos: Seq<SectionValue>,
)
    requires
        repos.len() == roots.len(),
        forall|i: int| 0 <= i < roots.len() ==> section_for(show_remotes, roots[i], tags_by_root, #[trigger] repos[i]),
    ensures
        forall|i: int|
            0 <= i < roots.len() ==> {
                let s = #[trigger] repos[i];
                &&& counts_ok(s.locals)
                &&& leaf_total(s.locals) == of_kind(views(roots[i].branches@), BranchKind::Local).len()
                &&& forall|j: int|
                    0 <= j < s.remote_groups.len() ==> (#[trigger] s.remote_groups[j]).count == leaf_total(
                        s.remote_groups[j].children,
                    ) && counts_ok(s.remote_groups[j].children)
                &&& exists|rv: bool|
                    show_remotes.ensures((&roots[i].id,), rv) && (rv ==> total(s.remote_groups, |g: GroupValue| g.count)
                        == s.remote_branch_count) && (!rv ==> s.remote_groups.len() == 0)
            },
{
    assert forall|i: int| 0 <= i < roots.len() implies {
        let s = #[trigger] repos[i];
        &&& counts_ok(s.locals)
        &&& leaf_total(s.locals) == of_kind(views(roots[i].branches@), BranchKind::Local).len()
        &&& forall|j: int|
            0 <= j < s.remote_groups.len() ==> (#[trigger] s.remote_groups[j]).count == leaf_total(
                s.remote_groups[j].children,
            ) && counts_ok(s.remote_groups[j].children)
        &&& exists|rv: bool|
            show_remotes.ensures((&roots[i].id,), rv) && (rv ==> total(s.remote_groups, |g: GroupValue| g.count)
                == s.remote_branch_count) && (!rv ==> s.remote_groups.len() == 0)
    } by {
        assert(section_for(show_remotes, roots[i], tags_by_root, repos[i]));
        let tags = tags_for(tags_by_root, roots[i].id.0@);
        let rv = choose|rv: bool|
            #![trigger section_spec(roots[i], tags, rv)]
            show_remotes.ensures((&roots[i].id,), rv) && repos[i] == section_spec(roots[i], tags, rv);
        lemma_section_laws(roots[i], tags, rv);
        let s = repos[i];
        assert forall|j: int| 0 <= j < s.remote_groups.len() implies (#[trigger] s.remote_groups[j]).count
            == leaf_total(s.remote_groups[j].children) && counts_ok(s.remote_groups[j].children) by {
        }
    }
}

} // verus!
