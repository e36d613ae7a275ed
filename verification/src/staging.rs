//! The commit window's sections: each repository's changes split into
//! UNSTAGED, STAGED and merge-conflict sections, the untracked files of the
//! bottom group, the file filter over them, and the selection the Commit
//! buttons act on.

use vstd::prelude::*;

use crate::commit_window::{MERGE_CONFLICTS, STAGED, UNSTAGED, UNVERSIONED_FILES};
use crate::domain::{Change, ChangeStatus, ChangeValue, RootId};
use crate::sorting::views;
use crate::text::{
    chars_of, find, lowercase, push_str, span_find, span_trim, str_eq, string_from, string_of, to_lower, trim,
};

verus! {

/// One section of the commit window: its title, the repository it belongs
/// to (by position in the project's repository list) and its changes in
/// status order.
#[derive(Clone, Debug)]
pub struct Bucket {
    pub name: &'static str,
    pub root: usize,
    pub changes: Vec<Change>,
}

/// The mathematical value of a [`Bucket`].
pub struct BucketValue {
    pub name: Seq<char>,
    pub root: nat,
    pub changes: Seq<ChangeValue>,
}

impl View for Bucket {
    type V = BucketValue;

    open spec fn view(&self) -> BucketValue {
        BucketValue { name: self.name@, root: self.root as nat, changes: views(self.changes@) }
    }
}

/// The values of each repository's change list.
pub open spec fn change_lists(roots: Seq<Vec<Change>>) -> Seq<Seq<ChangeValue>> {
    roots.map_values(|v: Vec<Change>| views(v@))
}

/// The staging section of a change: conflicts in their own section (2),
/// fully staged content under STAGED (1), untracked and ignored files in
/// none, everything else (partially staged files too) under UNSTAGED (0).
pub open spec fn staging_section(c: ChangeValue) -> Option<int> {
    if c.status == ChangeStatus::Conflicted {
        Some(2)
    } else if c.staged && !c.unstaged {
        Some(1)
    } else if c.status == ChangeStatus::Ignored || c.status == ChangeStatus::Unversioned {
        None
    } else {
        Some(0)
    }
}

/// The changes of `cs` in section `k`, in order.
pub open spec fn in_section(cs: Seq<ChangeValue>, k: int) -> Seq<ChangeValue>
    decreases cs.len(),
{
    if cs.len() == 0 {
        cs
    } else if staging_section(cs.last()) == Some(k) {
        in_section(cs.drop_last(), k).push(cs.last())
    } else {
        in_section(cs.drop_last(), k)
    }
}

/// A section holding `cs`, or none when `cs` is empty.
pub open spec fn nonempty_bucket(name: Seq<char>, root: nat, cs: Seq<ChangeValue>) -> Seq<BucketValue> {
    if cs.len() == 0 {
        seq![]
    } else {
        seq![BucketValue { name, root, changes: cs }]
    }
}

/// The staging sections of one repository, empty ones dropped.
pub open spec fn root_staging(root: nat, cs: Seq<ChangeValue>) -> Seq<BucketValue> {
    nonempty_bucket(UNSTAGED@, root, in_section(cs, 0)) + nonempty_bucket(STAGED@, root, in_section(cs, 1))
        + nonempty_bucket(MERGE_CONFLICTS@, root, in_section(cs, 2))
}

/// The staging sections of every repository, in repository order.
pub open spec fn staging_spec(roots: Seq<Seq<ChangeValue>>) -> Seq<BucketValue>
    decreases roots.len(),
{
    if roots.len() == 0 {
        seq![]
    } else {
        staging_spec(roots.drop_last()) + root_staging((roots.len() - 1) as nat, roots.last())
    }
}

proof fn lemma_in_section_members(cs: Seq<ChangeValue>, k: int)
    ensures
        forall|t: int| 0 <= t < in_section(cs, k).len() ==> staging_section(#[trigger] in_section(cs, k)[t]) == Some(k),
    decreases cs.len(),
{
    if cs.len() > 0 {
        lemma_in_section_members(cs.drop_last(), k);
    }
}

proof fn lemma_in_section_has(cs: Seq<ChangeValue>, k: int, j: int)
    requires
        0 <= j < cs.len(),
        staging_section(cs[j]) == Some(k),
    ensures
        in_section(cs, k).contains(cs[j]),
    decreases cs.len(),
{
    let p = cs.drop_last();
    if j == cs.len() - 1 {
        assert(in_section(cs, k).last() == cs[j]);
    } else {
        assert(p[j] == cs[j]);
        lemma_in_section_has(p, k, j);
        let t = choose|t: int| 0 <= t < in_section(p, k).len() && in_section(p, k)[t] == cs[j];
        if staging_section(cs.last()) == Some(k) {
            assert(in_section(cs, k)[t] == cs[j]);
        }
    }
}

/// The title a change's section carries: Merge conflicts for a conflict,
/// STAGED for a change whose content is all in the index, UNSTAGED for any
/// other.
pub open spec fn section_title_for(c: ChangeValue) -> Seq<char> {
    if c.status == ChangeStatus::Conflicted {
        MERGE_CONFLICTS@
    } else if c.staged && !c.unstaged {
        STAGED@
    } else {
        UNSTAGED@
    }
}

spec fn title_of_section(k: int) -> Seq<char> {
    if k == 0 {
        UNSTAGED@
    } else if k == 1 {
        STAGED@
    } else {
        MERGE_CONFLICTS@
    }
}

/// Which section the `t`-th bucket of a repository's block holds, given
/// whether its UNSTAGED and STAGED buckets are there.
spec fn block_section(la: int, lb: int, t: int) -> int {
    if t < la {
        0
    } else if t < la + lb {
        1
    } else {
        2
    }
}

proof fn lemma_block(r: nat, cs: Seq<ChangeValue>, j: int)
    requires
        0 <= j < cs.len(),
        cs[j].status != ChangeStatus::Ignored,
        cs[j].status != ChangeStatus::Unversioned,
    ensures
        forall|t: int| 0 <= t < root_staging(r, cs).len() ==> (#[trigger] root_staging(r, cs)[t]).root == r,
        exists|t: int| 0 <= t < root_staging(r, cs).len() && (#[trigger] root_staging(r, cs)[t]).changes.contains(cs[j])
            && root_staging(r, cs)[t].name == section_title_for(cs[j]),
        forall|t1: int, t2: int|
            0 <= t1 < t2 < root_staging(r, cs).len() ==> !((#[trigger] root_staging(r, cs)[t1]).changes.contains(cs[j])
                && (#[trigger] root_staging(r, cs)[t2]).changes.contains(cs[j])),
{
    let a = nonempty_bucket(UNSTAGED@, r, in_section(cs, 0));
    let b = nonempty_bucket(STAGED@, r, in_section(cs, 1));
    let c = nonempty_bucket(MERGE_CONFLICTS@, r, in_section(cs, 2));
    let blk = root_staging(r, cs);
    let la = a.len() as int;
    let lb = b.len() as int;
    assert(blk == a + b + c);
    lemma_in_section_members(cs, 0);
    lemma_in_section_members(cs, 1);
    lemma_in_section_members(cs, 2);
    assert forall|t: int| 0 <= t < blk.len() implies (#[trigger] blk[t]).root == r
        && blk[t].changes == in_section(cs, block_section(la, lb, t)) && blk[t].name == title_of_section(
        block_section(la, lb, t),
    ) by {
        if t < la {
            assert(blk[t] == a[t]);
        } else if t < la + lb {
            assert(blk[t] == b[t - la]);
        } else {
            assert(blk[t] == c[t - la - lb]);
        }
    }
    let k = staging_section(cs[j]).unwrap();
    lemma_in_section_has(cs, k, j);
    let t = if k == 0 {
        0
    } else if k == 1 {
        la
    } else {
        la + lb
    };
    assert(block_section(la, lb, t) == k);
    assert(blk[t].changes.contains(cs[j]));
    assert(title_of_section(k) == section_title_for(cs[j]));
    assert forall|t1: int, t2: int|
        0 <= t1 < t2 < blk.len() implies !((#[trigger] blk[t1]).changes.contains(cs[j])
            && (#[trigger] blk[t2]).changes.contains(cs[j])) by {
        if blk[t1].changes.contains(cs[j]) && blk[t2].changes.contains(cs[j]) {
            let s1 = block_section(la, lb, t1);
            let s2 = block_section(la, lb, t2);
            let u1 = choose|u: int| 0 <= u < in_section(cs, s1).len() && in_section(cs, s1)[u] == cs[j];
            let u2 = choose|u: int| 0 <= u < in_section(cs, s2).len() && in_section(cs, s2)[u] == cs[j];
            assert(staging_section(in_section(cs, s1)[u1]) == Some(s1));
            assert(staging_section(in_section(cs, s2)[u2]) == Some(s2));
            assert(s1 != s2);
        }
    }
}

proof fn lemma_roots_below(roots: Seq<Seq<ChangeValue>>)
    ensures
        forall|b: int| 0 <= b < staging_spec(roots).len() ==> (#[trigger] staging_spec(roots)[b]).root < roots.len(),
    decreases roots.len(),
{
    if roots.len() > 0 {
        let p = roots.drop_last();
        let n = (roots.len() - 1) as nat;
        lemma_roots_below(p);
        let pre = staging_spec(p);
        let blk = root_staging(n, roots.last());
        assert(staging_spec(roots) == pre + blk);
        assert forall|b: int| 0 <= b < staging_spec(roots).len() implies (#[trigger] staging_spec(roots)[b]).root
            < roots.len() by {
            if b < pre.len() {
                assert(staging_spec(roots)[b] == pre[b]);
            } else {
                let q = b - pre.len();
                let x = blk[q];
                assert(staging_spec(roots)[b] == x);
                let a = nonempty_bucket(UNSTAGED@, n, in_section(roots.last(), 0));
                let bb = nonempty_bucket(STAGED@, n, in_section(roots.last(), 1));
                let c = nonempty_bucket(MERGE_CONFLICTS@, n, in_section(roots.last(), 2));
                assert(blk == a + bb + c);
                if q < a.len() {
                    assert(blk[q] == a[q]);
                } else if q < a.len() + bb.len() {
                    assert(blk[q] == bb[q - a.len()]);
                } else {
                    assert(blk[q] == c[q - a.len() - bb.len()]);
                }
            }
        }
    }
}

/// Every tracked change shows in exactly one section: a change of
/// repository `r` whose status is neither ignored nor unversioned lands in
/// one of the staging sections of that repository, the one its state names
/// (Merge conflicts for a conflict, STAGED when all its content is in the
/// index, UNSTAGED otherwise), and in no second one.
pub proof fn lemma_change_in_one_section(roots: Seq<Seq<ChangeValue>>, r: int, j: int)
    requires
        0 <= r < roots.len(),
        0 <= j < roots[r].len(),
        roots[r][j].status != ChangeStatus::Ignored,
        roots[r][j].status != ChangeStatus::Unversioned,
    ensures
        exists|b: int|
            0 <= b < staging_spec(roots).len() && (#[trigger] staging_spec(roots)[b]).root == r
                && staging_spec(roots)[b].changes.contains(roots[r][j]) && staging_spec(roots)[b].name
                == section_title_for(roots[r][j]),
        forall|b1: int, b2: int|
            0 <= b1 < b2 < staging_spec(roots).len() && (#[trigger] staging_spec(roots)[b1]).root == r
                && (#[trigger] staging_spec(roots)[b2]).root == r ==> !(staging_spec(roots)[b1].changes.contains(
                roots[r][j],
            ) && staging_spec(roots)[b2].changes.contains(roots[r][j])),
    decreases roots.len(),
{
    let p = roots.drop_last();
    let n = (roots.len() - 1) as nat;
    let pre = staging_spec(p);
    let blk = root_staging(n, roots.last());
    let all = staging_spec(roots);
    let cj = roots[r][j];
    assert(all == pre + blk);
    lemma_roots_below(p);
    if r < n {
        assert(p[r] == roots[r]);
        lemma_change_in_one_section(p, r, j);
        lemma_block_roots(n, roots.last());
        let b = choose|b: int|
            0 <= b < pre.len() && (#[trigger] pre[b]).root == r && pre[b].changes.contains(cj) && pre[b].name
                == section_title_for(cj);
        assert(all[b] == pre[b]);
        assert forall|b1: int, b2: int|
            0 <= b1 < b2 < all.len() && (#[trigger] all[b1]).root == r && (#[trigger] all[b2]).root == r implies !(
            all[b1].changes.contains(cj) && all[b2].changes.contains(cj)) by {
            if b2 >= pre.len() {
                assert(all[b2] == blk[b2 - pre.len()]);
            } else {
                assert(all[b1] == pre[b1]);
                assert(all[b2] == pre[b2]);
            }
        }
    } else {
        assert(roots.last() == roots[r]);
        lemma_block(n, roots[r], j);
        let t = choose|t: int|
            0 <= t < blk.len() && (#[trigger] blk[t]).changes.contains(cj) && blk[t].name == section_title_for(cj);
        assert(all[pre.len() + t] == blk[t]);
        assert forall|b1: int, b2: int|
            0 <= b1 < b2 < all.len() && (#[trigger] all[b1]).root == r && (#[trigger] all[b2]).root == r implies !(
            all[b1].changes.contains(cj) && all[b2].changes.contains(cj)) by {
            if b1 < pre.len() {
                assert(all[b1] == pre[b1]);
            } else {
                assert(all[b1] == blk[b1 - pre.len()]);
                assert(all[b2] == blk[b2 - pre.len()]);
            }
        }
    }
}

proof fn lemma_block_roots(r: nat, cs: Seq<ChangeValue>)
    ensures
        forall|t: int| 0 <= t < root_staging(r, cs).len() ==> (#[trigger] root_staging(r, cs)[t]).root == r,
{
    let a = nonempty_bucket(UNSTAGED@, r, in_section(cs, 0));
    let b = nonempty_bucket(STAGED@, r, in_section(cs, 1));
    let c = nonempty_bucket(MERGE_CONFLICTS@, r, in_section(cs, 2));
    let blk = root_staging(r, cs);
    assert(blk == a + b + c);
    assert forall|t: int| 0 <= t < blk.len() implies (#[trigger] blk[t]).root == r by {
        if t < a.len() {
            assert(blk[t] == a[t]);
        } else if t < a.len() + b.len() {
            assert(blk[t] == b[t - a.len()]);
        } else {
            assert(blk[t] == c[t - a.len() - b.len()]);
        }
    }
}

fn section_of(c: &Change) -> (r: Option<u8>)
    ensures
        r matches Some(k) ==> k <= 2 && staging_section(c@) == Some(k as int),
        r is None ==> staging_section(c@) is None,
{
    match c.status {
        ChangeStatus::Conflicted => Some(2),
        _ if c.staged && !c.unstaged => Some(1),
        ChangeStatus::Ignored | ChangeStatus::Unversioned => None,
        _ => Some(0),
    }
}

fn section_changes(cs: &Vec<Change>, k: u8) -> (r: Vec<Change>)
    ensures
        views(r@) == in_section(views(cs@), k as int),
{
    let ghost cv = views(cs@);
    let mut out: Vec<Change> = Vec::new();
    let mut i: usize = 0;
    while i < cs.len()
        invariant
            0 <= i <= cs@.len(),
            cv == views(cs@),
            views(out@) == in_section(cv.take(i as int), k as int),
        decreases cs@.len() - i,
    {
        assert(cv.take(i + 1).drop_last() =~= cv.take(i as int));
        assert(cv.take(i + 1).last() == cs@[i as int]@);
        if section_of(&cs[i]) == Some(k) {
            let ghost before = views(out@);
            out.push(cs[i].copy());
            assert(views(out@) =~= before.push(cs@[i as int]@));
        }
        i += 1;
    }
    assert(cv.take(i as int) =~= cv);
    out
}

fn push_nonempty(out: &mut Vec<Bucket>, name: &'static str, root: usize, changes: Vec<Change>)
    ensures
        views(final(out)@) == views(old(out)@) + nonempty_bucket(name@, root as nat, views(changes@)),
{
    let ghost before = views(out@);
    if changes.len() > 0 {
        let b = Bucket { name, root, changes };
        let ghost bv = b@;
        out.push(b);
        assert(views(out@) =~= before + seq![bv]);
    } else {
        assert(views(out@) =~= before + Seq::<BucketValue>::empty());
    }
}

/// Splits each repository's status into the staging sections: files with
/// unstaged content under UNSTAGED, fully staged files under STAGED and
/// conflicts in their own section, empty sections dropped. Untracked and
/// ignored files are left to the bottom group.
pub fn staging_buckets(roots: &[Vec<Change>]) -> (r: Vec<Bucket>)
    ensures
        views(r@) == staging_spec(change_lists(roots@)),
{
    let ghost rv = change_lists(roots@);
    let mut out: Vec<Bucket> = Vec::new();
    let mut i: usize = 0;
    while i < roots.len()
        invariant
            0 <= i <= roots@.len(),
            rv == change_lists(roots@),
            views(out@) == staging_spec(rv.take(i as int)),
        decreases roots@.len() - i,
    {
        assert(rv.take(i + 1).drop_last() =~= rv.take(i as int));
        assert(rv.take(i + 1).last() == views(roots@[i as int]@));
        let ghost before = views(out@);
        let unstaged = section_changes(&roots[i], 0);
        let staged = section_changes(&roots[i], 1);
        let conflicts = section_changes(&roots[i], 2);
        push_nonempty(&mut out, UNSTAGED, i, unstaged);
        push_nonempty(&mut out, STAGED, i, staged);
        push_nonempty(&mut out, MERGE_CONFLICTS, i, conflicts);
        assert(views(out@) =~= before + root_staging(i as nat, rv[i as int]));
        i += 1;
    }
    assert(rv.take(i as int) =~= rv);
    out
}

/// The values of a list of path keys: each a repository (by position) and
/// a path within it.
pub open spec fn key_values(keys: Seq<(usize, String)>) -> Seq<(nat, Seq<char>)> {
    keys.map_values(|k: (usize, String)| (k.0 as nat, k.1@))
}

/// Whether `path` of repository `root` is among `keys`.
pub open spec fn key_listed(keys: Seq<(nat, Seq<char>)>, root: nat, path: Seq<char>) -> bool {
    exists|i: int| 0 <= i < keys.len() && keys[i] == (root, path)
}

/// The untracked files of repository `root` whose key is not in `done`.
pub open spec fn untracked_in(root: nat, cs: Seq<ChangeValue>, done: Seq<(nat, Seq<char>)>) -> Seq<ChangeValue>
    decreases cs.len(),
{
    if cs.len() == 0 {
        cs
    } else if cs.last().status == ChangeStatus::Unversioned && !key_listed(done, root, cs.last().path) {
        untracked_in(root, cs.drop_last(), done).push(cs.last())
    } else {
        untracked_in(root, cs.drop_last(), done)
    }
}

/// One Unversioned Files group per repository that has untracked files left.
pub open spec fn unversioned_spec(roots: Seq<Seq<ChangeValue>>, done: Seq<(nat, Seq<char>)>) -> Seq<BucketValue>
    decreases roots.len(),
{
    if roots.len() == 0 {
        seq![]
    } else {
        let root = (roots.len() - 1) as nat;
        unversioned_spec(roots.drop_last(), done) + nonempty_bucket(
            UNVERSIONED_FILES@,
            root,
            untracked_in(root, roots.last(), done),
        )
    }
}

/// Whether `path` of repository `root` is among `keys`.
pub fn is_listed(keys: &[(usize, String)], root: usize, path: &str) -> (r: bool)
    ensures
        r == key_listed(key_values(keys@), root as nat, path@),
{
    let ghost kv = key_values(keys@);
    let mut i: usize = 0;
    while i < keys.len()
        invariant
            0 <= i <= keys@.len(),
            kv == key_values(keys@),
            forall|j: int| 0 <= j < i ==> kv[j] != (root as nat, path@),
        decreases keys@.len() - i,
    {
        assert(kv[i as int] == (keys@[i as int].0 as nat, keys@[i as int].1@));
        if keys[i].0 == root && crate::text::str_eq(keys[i].1.as_str(), path) {
            return true;
        }
        i += 1;
    }
    false
}

fn untracked_changes(root: usize, cs: &Vec<Change>, done: &[(usize, String)]) -> (r: Vec<Change>)
    ensures
        views(r@) == untracked_in(root as nat, views(cs@), key_values(done@)),
{
    let ghost cv = views(cs@);
    let mut out: Vec<Change> = Vec::new();
    let mut i: usize = 0;
    while i < cs.len()
        invariant
            0 <= i <= cs@.len(),
            cv == views(cs@),
            views(out@) == untracked_in(root as nat, cv.take(i as int), key_values(done@)),
        decreases cs@.len() - i,
    {
        assert(cv.take(i + 1).drop_last() =~= cv.take(i as int));
        assert(cv.take(i + 1).last() == cs@[i as int]@);
        if cs[i].status == ChangeStatus::Unversioned && !is_listed(done, root, cs[i].path.as_str()) {
            let ghost before = views(out@);
            out.push(cs[i].copy());
            assert(views(out@) =~= before.push(cs@[i as int]@));
        }
        i += 1;
    }
    assert(cv.take(i as int) =~= cv);
    out
}

/// The untracked files of every repository as one Unversioned Files group
/// per repository; files whose key is in `done` (granularly completed) are
/// left out, and a repository with none left has no group.
pub fn unversioned_buckets(roots: &[Vec<Change>], done: &[(usize, String)]) -> (r: Vec<Bucket>)
    ensures
        views(r@) == unversioned_spec(change_lists(roots@), key_values(done@)),
{
    let ghost rv = change_lists(roots@);
    let mut out: Vec<Bucket> = Vec::new();
    let mut i: usize = 0;
    while i < roots.len()
        invariant
            0 <= i <= roots@.len(),
            rv == change_lists(roots@),
            views(out@) == unversioned_spec(rv.take(i as int), key_values(done@)),
        decreases roots@.len() - i,
    {
        assert(rv.take(i + 1).drop_last() =~= rv.take(i as int));
        assert(rv.take(i + 1).last() == views(roots@[i as int]@));
        let untracked = untracked_changes(i, &roots[i], done);
        push_nonempty(&mut out, UNVERSIONED_FILES, i, untracked);
        i += 1;
    }
    assert(rv.take(i as int) =~= rv);
    out
}

/// Whether a change's path, lower-cased, contains the query `q`.
pub open spec fn path_matches(c: ChangeValue, q: Seq<char>) -> bool {
    find(to_lower(c.path), q) is Some
}

/// The changes of `cs` whose path matches `q`, in order.
pub open spec fn keep_paths(cs: Seq<ChangeValue>, q: Seq<char>) -> Seq<ChangeValue>
    decreases cs.len(),
{
    if cs.len() == 0 {
        cs
    } else if path_matches(cs.last(), q) {
        keep_paths(cs.drop_last(), q).push(cs.last())
    } else {
        keep_paths(cs.drop_last(), q)
    }
}

/// The sections narrowed to the changes matching `q`, emptied ones dropped.
pub open spec fn kept_buckets(bs: Seq<BucketValue>, q: Seq<char>) -> Seq<BucketValue>
    decreases bs.len(),
{
    if bs.len() == 0 {
        bs
    } else {
        let b = bs.last();
        kept_buckets(bs.drop_last(), q) + nonempty_bucket(b.name, b.root, keep_paths(b.changes, q))
    }
}

/// The file filter over the sections: with no query (after trimming) the
/// sections as they are and no message; otherwise the sections narrowed to
/// the paths containing the lower-cased query, case-insensitively, and the
/// zero-match message naming the trimmed query.
pub open spec fn filter_spec(bs: Seq<BucketValue>, filter: Seq<char>) -> (Seq<BucketValue>, Seq<char>) {
    let q = to_lower(trim(filter));
    if q.len() == 0 {
        (bs, seq![])
    } else {
        (kept_buckets(bs, q), "No files match '"@ + trim(filter) + "'."@)
    }
}

fn matching_changes(cs: &Vec<Change>, q: &Vec<char>) -> (r: Vec<Change>)
    ensures
        views(r@) == keep_paths(views(cs@), q@),
{
    let ghost cv = views(cs@);
    let mut out: Vec<Change> = Vec::new();
    let mut i: usize = 0;
    while i < cs.len()
        invariant
            0 <= i <= cs@.len(),
            cv == views(cs@),
            views(out@) == keep_paths(cv.take(i as int), q@),
        decreases cs@.len() - i,
    {
        assert(cv.take(i + 1).drop_last() =~= cv.take(i as int));
        assert(cv.take(i + 1).last() == cs@[i as int]@);
        let lower = lowercase(cs[i].path.as_str());
        let lv = chars_of(lower.as_str());
        assert(lv@.subrange(0, lv@.len() as int) =~= lv@);
        if span_find(&lv, 0, lv.len(), q).is_some() {
            let ghost before = views(out@);
            out.push(cs[i].copy());
            assert(views(out@) =~= before.push(cs@[i as int]@));
        }
        i += 1;
    }
    assert(cv.take(i as int) =~= cv);
    out
}

/// Narrows the sections to the files whose path contains the trimmed,
/// lower-cased filter text, dropping sections left empty, and gives the
/// zero-match message to paint (empty when no filter is active).
pub fn filter_buckets(buckets: Vec<Bucket>, filter: &str) -> (r: (Vec<Bucket>, String))
    ensures
        (views(r.0@), r.1@) == filter_spec(views(buckets@), filter@),
{
    let fv = chars_of(filter);
    let (a, b) = span_trim(&fv, 0, fv.len());
    assert(fv@.subrange(0, fv@.len() as int) =~= fv@);
    let shown = string_of(&fv, a, b);
    let query = lowercase(shown.as_str());
    let q = chars_of(query.as_str());
    if q.len() == 0 {
        return (buckets, String::new());
    }
    let ghost bv = views(buckets@);
    let mut out: Vec<Bucket> = Vec::new();
    let mut i: usize = 0;
    while i < buckets.len()
        invariant
            0 <= i <= buckets@.len(),
            bv == views(buckets@),
            q@ == to_lower(trim(filter@)),
            views(out@) == kept_buckets(bv.take(i as int), q@),
        decreases buckets@.len() - i,
    {
        assert(bv.take(i + 1).drop_last() =~= bv.take(i as int));
        assert(bv.take(i + 1).last() == buckets@[i as int]@);
        let kept = matching_changes(&buckets[i].changes, &q);
        push_nonempty(&mut out, buckets[i].name, buckets[i].root, kept);
        i += 1;
    }
    assert(bv.take(i as int) =~= bv);
    let mut msg = string_from("No files match '");
    push_str(&mut msg, shown.as_str());
    push_str(&mut msg, "'.");
    (out, msg)
}

/// The commit window's sub-tabs.
#[derive(Clone, Copy, Debug, PartialEq, Eq, Structural)]
pub enum CommitSubTab {
    LocalChanges,
    Shelf,
    Stash,
}

/// The paths of the sections' changes, section by section.
pub open spec fn bucket_paths(bs: Seq<BucketValue>) -> Seq<Seq<char>>
    decreases bs.len(),
{
    if bs.len() == 0 {
        seq![]
    } else {
        bucket_paths(bs.drop_last()) + bs.last().changes.map_values(|c: ChangeValue| c.path)
    }
}

/// The files a sub-tab lists in display order: for Local Changes the
/// staging sections and then the Unversioned Files groups; the Shelf and
/// Stash tabs list none.
pub open spec fn active_files_spec(
    roots: Seq<Seq<ChangeValue>>,
    done: Seq<(nat, Seq<char>)>,
    tab: CommitSubTab,
) -> Seq<Seq<char>> {
    match tab {
        CommitSubTab::LocalChanges => bucket_paths(staging_spec(roots) + unversioned_spec(roots, done)),
        _ => seq![],
    }
}

fn push_paths(out: &mut Vec<String>, bs: &Vec<Bucket>)
    ensures
        views(final(out)@) == views(old(out)@) + bucket_paths(views(bs@)),
{
    let ghost bv = views(bs@);
    let ghost start = views(out@);
    let mut i: usize = 0;
    while i < bs.len()
        invariant
            0 <= i <= bs@.len(),
            bv == views(bs@),
            views(out@) == start + bucket_paths(bv.take(i as int)),
        decreases bs@.len() - i,
    {
        assert(bv.take(i + 1).drop_last() =~= bv.take(i as int));
        assert(bv.take(i + 1).last() == bs@[i as int]@);
        let cs = &bs[i].changes;
        let ghost cv = views(cs@);
        let ghost mid = views(out@);
        let mut j: usize = 0;
        while j < cs.len()
            invariant
                0 <= j <= cs@.len(),
                cv == views(cs@),
                views(out@) == mid + cv.take(j as int).map_values(|c: ChangeValue| c.path),
            decreases cs@.len() - j,
        {
            let ghost before = views(out@);
            out.push(string_from(cs[j].path.as_str()));
            assert(cv.take(j + 1).map_values(|c: ChangeValue| c.path) =~= cv.take(j as int).map_values(
                |c: ChangeValue| c.path,
            ).push(cs@[j as int]@.path));
            assert(views(out@) =~= before.push(cs@[j as int].path@));
            j += 1;
        }
        assert(cv.take(j as int) =~= cv);
        i += 1;
    }
    assert(bv.take(i as int) =~= bv);
}

proof fn lemma_bucket_paths_add(a: Seq<BucketValue>, b: Seq<BucketValue>)
    ensures
        bucket_paths(a + b) == bucket_paths(a) + bucket_paths(b),
    decreases b.len(),
{
    if b.len() == 0 {
        assert(a + b =~= a);
    } else {
        lemma_bucket_paths_add(a, b.drop_last());
        assert((a + b).drop_last() =~= a + b.drop_last());
        assert((a + b).last() == b.last());
    }
}

/// The changed-file paths of the active sub-tab in display order: the
/// list that next/previous-file navigation walks (unfiltered by the file
/// filter).
pub fn active_subtab_files(roots: &[Vec<Change>], done: &[(usize, String)], tab: CommitSubTab) -> (r: Vec<
    String,
>)
    ensures
        views(r@) == active_files_spec(change_lists(roots@), key_values(done@), tab),
{
    match tab {
        CommitSubTab::LocalChanges => {
            let staged = staging_buckets(roots);
            let untracked = unversioned_buckets(roots, done);
            let mut out: Vec<String> = Vec::new();
            push_paths(&mut out, &staged);
            push_paths(&mut out, &untracked);
            proof {
                lemma_bucket_paths_add(views(staged@), views(untracked@));
                assert(views(staged@) + views(untracked@) =~= views(staged@ + untracked@));
            }
            assert(views(out@) =~= bucket_paths(views(staged@) + views(untracked@)));
            out
        },
        CommitSubTab::Shelf | CommitSubTab::Stash => {
            let out: Vec<String> = Vec::new();
            assert(views(out@) =~= Seq::<Seq<char>>::empty());
            out
        },
    }
}

/// The changes of repository `root` whose key is selected, in order.
pub open spec fn selected_in(root: nat, cs: Seq<ChangeValue>, keys: Seq<(nat, Seq<char>)>) -> Seq<ChangeValue>
    decreases cs.len(),
{
    if cs.len() == 0 {
        cs
    } else if key_listed(keys, root, cs.last().path) {
        selected_in(root, cs.drop_last(), keys).push(cs.last())
    } else {
        selected_in(root, cs.drop_last(), keys)
    }
}

/// The included changes of the selected repository; none when no
/// repository is selected or the selected one is not in the project.
pub open spec fn selection_spec(
    roots: Seq<Seq<ChangeValue>>,
    selected_root: Option<usize>,
    keys: Seq<(nat, Seq<char>)>,
) -> Seq<ChangeValue> {
    match selected_root {
        Some(r) => if r < roots.len() {
            selected_in(r as nat, roots[r as int], keys)
        } else {
            seq![]
        },
        None => seq![],
    }
}

/// The changes of the selected repository whose key is selected: what the
/// Commit buttons commit.
pub fn selected_changes(roots: &[Vec<Change>], selected_root: Option<usize>, selected: &[(usize, String)]) -> (r:
    Vec<Change>)
    ensures
        views(r@) == selection_spec(change_lists(roots@), selected_root, key_values(selected@)),
{
    let mut out: Vec<Change> = Vec::new();
    match selected_root {
        Some(r) => {
            if r < roots.len() {
                let cs = &roots[r];
                let ghost cv = views(cs@);
                assert(change_lists(roots@)[r as int] == cv);
                let mut i: usize = 0;
                while i < cs.len()
                    invariant
                        0 <= i <= cs@.len(),
                        cv == views(cs@),
                        views(out@) == selected_in(r as nat, cv.take(i as int), key_values(selected@)),
                    decreases cs@.len() - i,
                {
                    assert(cv.take(i + 1).drop_last() =~= cv.take(i as int));
                    assert(cv.take(i + 1).last() == cs@[i as int]@);
                    if is_listed(selected, r, cs[i].path.as_str()) {
                        let ghost before = views(out@);
                        out.push(cs[i].copy());
                        assert(views(out@) =~= before.push(cs@[i as int]@));
                    }
                    i += 1;
                }
                assert(cv.take(i as int) =~= cv);
            } else {
                assert(views(out@) =~= Seq::<ChangeValue>::empty());
            }
        },
        None => {
            assert(views(out@) =~= Seq::<ChangeValue>::empty());
        },
    }
    out
}

proof fn lemma_selected_in_empty(root: nat, cs: Seq<ChangeValue>, keys: Seq<(nat, Seq<char>)>)
    ensures
        (selected_in(root, cs, keys).len() > 0) == (exists|i: int|
            0 <= i < cs.len() && key_listed(keys, root, (#[trigger] cs[i]).path)),
    decreases cs.len(),
{
    if cs.len() > 0 {
        lemma_selected_in_empty(root, cs.drop_last(), keys);
        let d = cs.drop_last();
        if exists|i: int| 0 <= i < d.len() && key_listed(keys, root, (#[trigger] d[i]).path) {
            let i = choose|i: int| 0 <= i < d.len() && key_listed(keys, root, (#[trigger] d[i]).path);
            assert(cs[i] == d[i]);
        }
        if exists|i: int| 0 <= i < cs.len() && key_listed(keys, root, (#[trigger] cs[i]).path) {
            let i = choose|i: int| 0 <= i < cs.len() && key_listed(keys, root, (#[trigger] cs[i]).path);
            if i < cs.len() - 1 {
                assert(d[i] == cs[i]);
            }
        }
    }
}

/// Whether the selected repository has at least one included change: the
/// Commit buttons' gate. It holds exactly when [`selected_changes`] would
/// return something.
pub fn has_selected_changes(roots: &[Vec<Change>], selected_root: Option<usize>, selected: &[(usize, String)]) -> (r:
    bool)
    ensures
        r == (selection_spec(change_lists(roots@), selected_root, key_values(selected@)).len() > 0),
{
    match selected_root {
        Some(r) => {
            if r >= roots.len() {
                return false;
            }
            let cs = &roots[r];
            let ghost cv = views(cs@);
            let ghost keys = key_values(selected@);
            assert(change_lists(roots@)[r as int] == cv);
            proof {
                lemma_selected_in_empty(r as nat, cv, keys);
            }
            let mut i: usize = 0;
            while i < cs.len()
                invariant
                    0 <= i <= cs@.len(),
                    cv == views(cs@),
                    keys == key_values(selected@),
                    selected_root == Some(r),
                    r < roots@.len(),
                    change_lists(roots@)[r as int] == cv,
                    forall|j: int| 0 <= j < i ==> !key_listed(keys, r as nat, (#[trigger] cv[j]).path),
                decreases cs@.len() - i,
            {
                assert(cv[i as int] == cs@[i as int]@);
                if is_listed(selected, r, cs[i].path.as_str()) {
                    proof {
                        assert(key_listed(keys, r as nat, cv[i as int].path));
                        lemma_selected_in_empty(r as nat, cv, keys);
                    }
                    return true;
                }
                i += 1;
            }
            false
        },
        None => false,
    }
}

// --- committing -------------------------------------------------------------------------

/// Whether the Commit button is enabled: a message with more than
/// whitespace, and at least one included change in the selected repository.
pub fn can_commit(message: &str, roots: &[Vec<Change>], selected_root: Option<usize>, selected: &[(usize, String)]) -> (r:
    bool)
    ensures
        r == (trim(message@).len() > 0 && selection_spec(change_lists(roots@), selected_root, key_values(selected@)).len()
            > 0),
{
    let v = chars_of(message);
    let (a, b) = span_trim(&v, 0, v.len());
    assert(v@.subrange(0, v@.len() as int) =~= v@);
    a < b && has_selected_changes(roots, selected_root, selected)
}

/// The most recent commit messages kept for reuse.
pub const RECENT_MESSAGES: usize = 12;

/// The recent messages after committing with `msg`: a new message goes to
/// the front and the list is cut to its first twelve; a known one leaves the
/// list as it is.
pub open spec fn remember_spec(recents: Seq<Seq<char>>, msg: Seq<char>) -> Seq<Seq<char>> {
    if recents.contains(msg) {
        recents
    } else {
        let grown = seq![msg] + recents;
        if grown.len() > RECENT_MESSAGES {
            grown.take(RECENT_MESSAGES as int)
        } else {
            grown
        }
    }
}

/// The changes of `cs` whose index is untouched (`staged` is false, when
/// `staged` is false) or already diverges from HEAD (when it is true).
pub open spec fn with_staged(cs: Seq<ChangeValue>, staged: bool) -> Seq<ChangeValue>
    decreases cs.len(),
{
    if cs.len() == 0 {
        cs
    } else if cs.last().staged == staged {
        with_staged(cs.drop_last(), staged).push(cs.last())
    } else {
        with_staged(cs.drop_last(), staged)
    }
}

/// The commit form's state: the message, whether to amend, the recent
/// messages and the included changes' keys.
pub struct CommitForm {
    pub message: String,
    pub amend: bool,
    pub recent_messages: Vec<String>,
    pub selected: Vec<(usize, String)>,
}

/// The commit to run: its message, whether it amends, the included changes
/// whose index is untouched (staged whole before committing) and those whose
/// index already carries a (possibly partial) selection (committed as they
/// are), and whether the push dialog opens afterwards.
pub struct CommitJob {
    pub message: String,
    pub amend: bool,
    pub untouched: Vec<Change>,
    pub partial: Vec<Change>,
    pub open_push: bool,
}

fn split_staged(cs: Vec<Change>) -> (r: (Vec<Change>, Vec<Change>))
    ensures
        views(r.0@) == with_staged(views(cs@), false),
        views(r.1@) == with_staged(views(cs@), true),
{
    let ghost cv = views(cs@);
    let mut untouched: Vec<Change> = Vec::new();
    let mut partial: Vec<Change> = Vec::new();
    let mut i: usize = 0;
    while i < cs.len()
        invariant
            0 <= i <= cs@.len(),
            cv == views(cs@),
            views(untouched@) == with_staged(cv.take(i as int), false),
            views(partial@) == with_staged(cv.take(i as int), true),
        decreases cs@.len() - i,
    {
        assert(cv.take(i + 1).drop_last() =~= cv.take(i as int));
        assert(cv.take(i + 1).last() == cs@[i as int]@);
        let ghost u0 = views(untouched@);
        let ghost p0 = views(partial@);
        if cs[i].staged {
            partial.push(cs[i].copy());
            assert(views(partial@) =~= p0.push(cs@[i as int]@));
        } else {
            untouched.push(cs[i].copy());
            assert(views(untouched@) =~= u0.push(cs@[i as int]@));
        }
        i += 1;
    }
    assert(cv.take(i as int) =~= cv);
    (untouched, partial)
}

fn contains_message(recents: &Vec<String>, msg: &str) -> (r: bool)
    ensures
        r == views(recents@).contains(msg@),
{
    let ghost rv = views(recents@);
    let mut i: usize = 0;
    while i < recents.len()
        invariant
            0 <= i <= recents@.len(),
            rv == views(recents@),
            forall|j: int| 0 <= j < i ==> rv[j] != msg@,
        decreases recents@.len() - i,
    {
        assert(rv[i as int] == recents@[i as int]@);
        if str_eq(recents[i].as_str(), msg) {
            return true;
        }
        i += 1;
    }
    false
}

/// Records `msg` among the recent messages (see [`remember_spec`]).
pub fn remember_message(recents: &mut Vec<String>, msg: &str)
    ensures
        views(final(recents)@) == remember_spec(views(old(recents)@), msg@),
{
    if contains_message(recents, msg) {
        return;
    }
    let ghost r0 = views(recents@);
    recents.insert(0, string_from(msg));
    assert(views(recents@) =~= seq![msg@] + r0);
    if recents.len() > RECENT_MESSAGES {
        recents.truncate(RECENT_MESSAGES);
        assert(views(recents@) =~= (seq![msg@] + r0).take(RECENT_MESSAGES as int));
    }
}

/// Commits the included changes of the selected repository: the recent
/// messages remember the message, the form's message and selection are
/// cleared, and the commit to run is returned (see [`CommitJob`]).
pub fn do_commit(form: &mut CommitForm, roots: &[Vec<Change>], selected_root: Option<usize>, and_push: bool) -> (r:
    CommitJob)
    ensures
        r.message@ == old(form).message@,
        r.amend == old(form).amend,
        views(r.untouched@) == with_staged(
            selection_spec(change_lists(roots@), selected_root, key_values(old(form).selected@)),
            false,
        ),
        views(r.partial@) == with_staged(
            selection_spec(change_lists(roots@), selected_root, key_values(old(form).selected@)),
            true,
        ),
        r.open_push == and_push,
        final(form).message@ == Seq::<char>::empty(),
        final(form).selected@.len() == 0,
        final(form).amend == old(form).amend,
        views(final(form).recent_messages@) == remember_spec(views(old(form).recent_messages@), old(form).message@),
{
    let chosen = selected_changes(roots, selected_root, form.selected.as_slice());
    let (untouched, partial) = split_staged(chosen);
    let msg = string_from(form.message.as_str());
    remember_message(&mut form.recent_messages, msg.as_str());
    form.message = String::new();
    form.selected = Vec::new();
    CommitJob { message: msg, amend: form.amend, untouched, partial, open_push: and_push }
}

/// After a commit its message is among the recent messages, and a list of
/// at most twelve stays at most twelve.
pub proof fn lemma_remember_keeps_message(recents: Seq<Seq<char>>, msg: Seq<char>)
    ensures
        remember_spec(recents, msg).contains(msg),
        recents.len() <= RECENT_MESSAGES ==> remember_spec(recents, msg).len() <= RECENT_MESSAGES,
        !recents.contains(msg) ==> remember_spec(recents, msg)[0] == msg,
{
    if !recents.contains(msg) {
        let grown = seq![msg] + recents;
        assert(grown[0] == msg);
        if grown.len() > RECENT_MESSAGES {
            assert(grown.take(RECENT_MESSAGES as int)[0] == msg);
        }
        assert(remember_spec(recents, msg)[0] == msg);
    }
}

// --- row interactions ---------------------------------------------------------------------

/// A row interaction collected while the sections render, applied after.
#[derive(Clone, Debug, PartialEq, Eq)]
pub enum RowAction {
    /// Include or exclude one change, by its key (repository and path).
    Toggle { root: usize, key: String, checked: bool },
    /// Expand or collapse one repository's group.
    ToggleGroup(RootId),
    /// The row click: check the change and preview it.
    Select { root: usize, key: String, path: String },
    /// Preview a file.
    Preview(String),
}

/// The commit window's selection: the included changes' keys and the
/// expanded repository groups (both sets), and the previewed file.
pub struct SelectionState {
    pub selected: Vec<(usize, String)>,
    pub preview: Option<String>,
    pub expanded: Vec<RootId>,
}

/// The mathematical value of a [`SelectionState`].
pub struct SelectionModel {
    pub selected: Set<(nat, Seq<char>)>,
    pub preview: Option<Seq<char>>,
    pub expanded: Set<Seq<char>>,
}

/// The model of a selection state.
pub open spec fn selection_model(st: SelectionState) -> SelectionModel {
    SelectionModel {
        selected: key_values(st.selected@).to_set(),
        preview: crate::diff_model::opt_view(st.preview),
        expanded: id_values(st.expanded@).to_set(),
    }
}

/// The selection after one row interaction.
pub open spec fn row_action_spec(m: SelectionModel, a: RowAction) -> SelectionModel {
    match a {
        RowAction::Toggle { root, key, checked } => {
            let k = (root as nat, key@);
            SelectionModel {
                selected: if checked {
                    m.selected.insert(k)
                } else {
                    m.selected.remove(k)
                },
                ..m
            }
        },
        RowAction::Select { root, key, path } => SelectionModel {
            selected: m.selected.insert((root as nat, key@)),
            preview: Some(path@),
            ..m
        },
        RowAction::Preview(path) => SelectionModel { preview: Some(path@), ..m },
        RowAction::ToggleGroup(id) => SelectionModel {
            expanded: if m.expanded.contains(id.0@) {
                m.expanded.remove(id.0@)
            } else {
                m.expanded.insert(id.0@)
            },
            ..m
        },
    }
}

/// The selection after the interactions in order.
pub open spec fn row_actions_spec(m: SelectionModel, acts: Seq<RowAction>) -> SelectionModel
    decreases acts.len(),
{
    if acts.len() == 0 {
        m
    } else {
        row_action_spec(row_actions_spec(m, acts.drop_last()), acts.last())
    }
}

fn insert_key(keys: &mut Vec<(usize, String)>, root: usize, path: &str)
    ensures
        key_values(final(keys)@).to_set() == key_values(old(keys)@).to_set().insert((root as nat, path@)),
{
    let ghost k0 = key_values(keys@);
    if is_listed(keys.as_slice(), root, path) {
        assert(k0.to_set().insert((root as nat, path@)) =~= k0.to_set()) by {
            let i = choose|i: int| 0 <= i < k0.len() && k0[i] == (root as nat, path@);
            assert(k0.to_set().contains(k0[i]));
        }
        return;
    }
    keys.push((root, string_from(path)));
    assert(key_values(keys@) =~= k0 + seq![(root as nat, path@)]);
    proof {
        Seq::lemma_to_set_insert_commutes(k0, (root as nat, path@));
    }
}

fn remove_key(keys: &mut Vec<(usize, String)>, root: usize, path: &str)
    ensures
        key_values(final(keys)@).to_set() == key_values(old(keys)@).to_set().remove((root as nat, path@)),
{
    let ghost k0 = key_values(keys@);
    let ghost target = (root as nat, path@);
    let mut kept: Vec<(usize, String)> = Vec::new();
    let mut i: usize = 0;
    assert(k0.take(0).to_set() =~= Set::<(nat, Seq<char>)>::empty());
    assert(key_values(kept@).to_set() =~= Set::<(nat, Seq<char>)>::empty());
    while i < keys.len()
        invariant
            0 <= i <= keys@.len(),
            k0 == key_values(keys@),
            target == (root as nat, path@),
            key_values(kept@).to_set() == k0.take(i as int).to_set().remove(target),
        decreases keys@.len() - i,
    {
        let ghost here = k0[i as int];
        assert(here == (keys@[i as int].0 as nat, keys@[i as int].1@));
        proof {
            assert(k0.take(i + 1) =~= k0.take(i as int) + seq![here]);
            Seq::lemma_to_set_insert_commutes(k0.take(i as int), here);
        }
        if keys[i].0 == root && crate::text::str_eq(keys[i].1.as_str(), path) {
            assert(k0.take(i + 1).to_set().remove(target) =~= k0.take(i as int).to_set().remove(target));
        } else {
            let ghost kv0 = key_values(kept@);
            kept.push((keys[i].0, string_from(keys[i].1.as_str())));
            assert(key_values(kept@) =~= kv0 + seq![here]);
            proof {
                Seq::lemma_to_set_insert_commutes(kv0, here);
            }
            assert(key_values(kept@).to_set() =~= k0.take(i + 1).to_set().remove(target));
        }
        i += 1;
    }
    assert(k0.take(i as int) =~= k0);
    *keys = kept;
}

/// The ids of a list of repositories.
pub open spec fn id_values(ids: Seq<RootId>) -> Seq<Seq<char>> {
    ids.map_values(|r: RootId| r.0@)
}

fn toggle_root(expanded: &mut Vec<RootId>, id: &RootId)
    ensures
        ({
            let before = id_values(old(expanded)@).to_set();
            id_values(final(expanded)@).to_set() == if before.contains(id.0@) {
                before.remove(id.0@)
            } else {
                before.insert(id.0@)
            }
        }),
{
    let ghost e0 = id_values(expanded@);
    let mut found = false;
    let mut kept: Vec<RootId> = Vec::new();
    let mut i: usize = 0;
    assert(e0.take(0).to_set() =~= Set::<Seq<char>>::empty());
    assert(id_values(kept@).to_set() =~= Set::<Seq<char>>::empty());
    while i < expanded.len()
        invariant
            0 <= i <= expanded@.len(),
            e0 == id_values(expanded@),
            found == e0.take(i as int).to_set().contains(id.0@),
            id_values(kept@).to_set() == e0.take(i as int).to_set().remove(id.0@),
        decreases expanded@.len() - i,
    {
        let ghost here = e0[i as int];
        assert(here == expanded@[i as int].0@);
        proof {
            assert(e0.take(i + 1) =~= e0.take(i as int) + seq![here]);
            Seq::lemma_to_set_insert_commutes(e0.take(i as int), here);
        }
        if expanded[i].same(id) {
            found = true;
            assert(e0.take(i + 1).to_set().remove(id.0@) =~= e0.take(i as int).to_set().remove(id.0@));
        } else {
            let ghost kv0 = id_values(kept@);
            kept.push(RootId(string_from(expanded[i].0.as_str())));
            assert(id_values(kept@) =~= kv0 + seq![here]);
            proof {
                Seq::lemma_to_set_insert_commutes(kv0, here);
            }
            assert(id_values(kept@).to_set() =~= e0.take(i + 1).to_set().remove(id.0@));
        }
        i += 1;
    }
    assert(e0.take(i as int) =~= e0);
    if found {
        *expanded = kept;
    } else {
        let ghost kv = id_values(kept@);
        kept.push(RootId(string_from(id.0.as_str())));
        assert(id_values(kept@) =~= kv + seq![id.0@]);
        proof {
            Seq::lemma_to_set_insert_commutes(kv, id.0@);
        }
        assert(id_values(kept@).to_set() =~= e0.to_set().insert(id.0@));
        *expanded = kept;
    }
}

/// Applies the row interactions collected during one render pass, in
/// order: a checkbox includes or excludes its change; a row click includes
/// the change and previews it; a preview request previews; a group header
/// expands or collapses its repository.
pub fn apply_actions(st: &mut SelectionState, actions: Vec<RowAction>)
    ensures
        selection_model(*final(st)) == row_actions_spec(selection_model(*old(st)), actions@),
{
    let ghost m0 = selection_model(*st);
    let mut i: usize = 0;
    while i < actions.len()
        invariant
            0 <= i <= actions@.len(),
            selection_model(*st) == row_actions_spec(m0, actions@.take(i as int)),
        decreases actions@.len() - i,
    {
        assert(actions@.take(i + 1).drop_last() =~= actions@.take(i as int));
        assert(actions@.take(i + 1).last() == actions@[i as int]);
        match &actions[i] {
            RowAction::Toggle { root, key, checked } => {
                if *checked {
                    insert_key(&mut st.selected, *root, key.as_str());
                } else {
                    remove_key(&mut st.selected, *root, key.as_str());
                }
            },
            RowAction::Select { root, key, path } => {
                insert_key(&mut st.selected, *root, key.as_str());
                st.preview = Some(string_from(path.as_str()));
            },
            RowAction::Preview(path) => {
                st.preview = Some(string_from(path.as_str()));
            },
            RowAction::ToggleGroup(id) => {
                toggle_root(&mut st.expanded, id);
            },
        }
        i += 1;
    }
    assert(actions@.take(i as int) =~= actions@);
}

// --- the one tree ------------------------------------------------------------------------

/// Focus follows the selected repository: when it moves, the manual group
/// expansions reset so only the newly focused repository's files show.
pub fn refocus(focus: &mut Option<RootId>, expanded: &mut Vec<RootId>, selected_root: &Option<RootId>)
    ensures
        crate::branches::opt_root(*final(focus)) == crate::branches::opt_root(*selected_root),
        crate::branches::opt_root(*old(focus)) == crate::branches::opt_root(*selected_root) ==> id_values(
            final(expanded)@,
        ) == id_values(old(expanded)@),
        crate::branches::opt_root(*old(focus)) != crate::branches::opt_root(*selected_root) ==> final(expanded)@.len()
            == 0,
{
    let same = match (&*focus, selected_root) {
        (Some(a), Some(b)) => a.same(b),
        (None, None) => true,
        _ => false,
    };
    if !same {
        *focus = match selected_root {
            Some(r) => Some(RootId(string_from(r.0.as_str()))),
            None => None,
        };
        *expanded = Vec::new();
    }
}

/// The total number of changes of the sections.
pub open spec fn change_total(bs: Seq<BucketValue>) -> nat
    decreases bs.len(),
{
    if bs.len() == 0 {
        0
    } else {
        change_total(bs.drop_last()) + bs.last().changes.len()
    }
}

/// A repository group's header in the one tree: whether its files show (the
/// focused repository always, any other when expanded by hand), its name,
/// its branch (or `<detached>`) and its file count.
pub struct GroupHeader {
    pub focused: bool,
    pub expanded: bool,
    pub name: String,
    pub branch: String,
    pub count: usize,
}

/// The header of repository `id`'s group over its sections `buckets`;
/// `current` is its checked-out branch.
pub fn group_header(
    id: &RootId,
    current: &Option<String>,
    buckets: &[Bucket],
    selected_root: &Option<RootId>,
    expanded: &[RootId],
) -> (r: GroupHeader)
    requires
        change_total(views(buckets@)) <= usize::MAX,
    ensures
        r.focused == (crate::branches::opt_root(*selected_root) == Some(id.0@)),
        r.expanded == (r.focused || id_values(expanded@).contains(id.0@)),
        r.name@ == crate::domain::root_name_spec(id.0@),
        r.branch@ == match current {
            Some(b) => b@,
            None => "<detached>"@,
        },
        r.count == change_total(views(buckets@)),
{
    let focused = match selected_root {
        Some(s) => s.same(id),
        None => false,
    };
    let ghost ev = id_values(expanded@);
    let mut listed = false;
    let mut i: usize = 0;
    while i < expanded.len()
        invariant
            0 <= i <= expanded@.len(),
            ev == id_values(expanded@),
            listed == ev.take(i as int).contains(id.0@),
        decreases expanded@.len() - i,
    {
        assert(ev.take(i + 1) =~= ev.take(i as int).push(ev[i as int]));
        assert(ev[i as int] == expanded@[i as int].0@);
        if expanded[i].same(id) {
            listed = true;
            assert(ev.take(i + 1)[i as int] == id.0@);
        } else {
            assert(ev.take(i + 1).contains(id.0@) == ev.take(i as int).contains(id.0@)) by {
                if ev.take(i + 1).contains(id.0@) {
                    let j = choose|j: int| 0 <= j < i + 1 && #[trigger] ev.take(i + 1)[j] == id.0@;
                    if j < i {
                        assert(ev.take(i as int)[j] == id.0@);
                    }
                }
                if ev.take(i as int).contains(id.0@) {
                    let j = choose|j: int| 0 <= j < i && #[trigger] ev.take(i as int)[j] == id.0@;
                    assert(ev.take(i + 1)[j] == id.0@);
                }
            }
        }
        i += 1;
    }
    assert(ev.take(i as int) =~= ev);
    let ghost bv = views(buckets@);
    let mut count: usize = 0;
    let mut k: usize = 0;
    while k < buckets.len()
        invariant
            0 <= k <= buckets@.len(),
            bv == views(buckets@),
            change_total(bv) <= usize::MAX,
            count == change_total(bv.take(k as int)),
        decreases buckets@.len() - k,
    {
        assert(bv.take(k + 1).drop_last() =~= bv.take(k as int));
        assert(bv.take(k + 1).last() == buckets@[k as int]@);
        proof {
            lemma_change_total_prefix(bv, k + 1);
        }
        count = count + buckets[k].changes.len();
        k += 1;
    }
    assert(bv.take(k as int) =~= bv);
    let branch = match current {
        Some(b) => string_from(b.as_str()),
        None => string_from("<detached>"),
    };
    GroupHeader { focused, expanded: focused || listed, name: id.name(), branch, count }
}

proof fn lemma_change_total_prefix(bs: Seq<BucketValue>, j: int)
    requires
        0 <= j <= bs.len(),
    ensures
        change_total(bs.take(j)) <= change_total(bs),
    decreases bs.len() - j,
{
    if j < bs.len() {
        lemma_change_total_prefix(bs, j + 1);
        assert(bs.take(j + 1).drop_last() =~= bs.take(j));
    } else {
        assert(bs.take(j) =~= bs);
    }
}

/// The bottom group's header: "Unversioned Files (N)" with N the number of
/// untracked files listed.
pub fn unversioned_header(buckets: &[Bucket]) -> (r: String)
    requires
        change_total(views(buckets@)) <= usize::MAX,
    ensures
        r@ == UNVERSIONED_FILES@ + " ("@ + crate::text::decimal(change_total(views(buckets@))) + ")"@,
{
    let ghost bv = views(buckets@);
    let mut count: usize = 0;
    let mut k: usize = 0;
    while k < buckets.len()
        invariant
            0 <= k <= buckets@.len(),
            bv == views(buckets@),
            change_total(bv) <= usize::MAX,
            count == change_total(bv.take(k as int)),
        decreases buckets@.len() - k,
    {
        assert(bv.take(k + 1).drop_last() =~= bv.take(k as int));
        assert(bv.take(k + 1).last() == buckets@[k as int]@);
        proof {
            lemma_change_total_prefix(bv, k + 1);
        }
        count = count + buckets[k].changes.len();
        k += 1;
    }
    assert(bv.take(k as int) =~= bv);
    let mut s = string_from(UNVERSIONED_FILES);
    push_str(&mut s, " (");
    crate::text::push_decimal(&mut s, count as u64);
    push_str(&mut s, ")");
    s
}

} // verus!
