//! The repository snapshot the branch views read: plain-value models of the
//! branches, repositories and their working-tree status. Times are seconds
//! since the Unix epoch.

use vstd::prelude::*;

use crate::diff_model::{file_name_spec, opt_view};
use crate::sorting::views;
use crate::text::{chars_of, span_eq, string_from};

verus! {

/// Whether a branch is a local branch or a remote-tracking ref.
#[derive(Clone, Copy, Debug, PartialEq, Eq, Structural)]
pub enum BranchKind {
    Local,
    Remote,
}

/// The decoration state of a ref (tags, remote rows).
#[derive(Clone, Copy, Debug, PartialEq, Eq, Structural)]
pub enum RefState {
    Default,
    Gone,
    Pushed,
    LocalOnly,
}

/// The tip commit of a branch.
#[derive(Clone, Debug, PartialEq, Eq)]
pub struct BranchTip {
    pub short_hash: String,
    pub message: String,
    pub author: String,
    /// Commit time, seconds since the epoch.
    pub time: i64,
}

/// One branch of a repository snapshot, already classified.
#[derive(Clone, Debug, PartialEq, Eq)]
pub struct Branch {
    pub name: String,
    pub kind: BranchKind,
    /// Upstream tracking branch (e.g. `origin/main`), if any.
    pub tracking: Option<String>,
    pub favorite: bool,
    pub protected: bool,
    pub exists: bool,
    pub ahead: usize,
    pub behind: usize,
    /// The tracked upstream was deleted.
    pub gone: bool,
    /// Tip commit time, seconds since the epoch.
    pub last_touched: Option<i64>,
    pub tip: Option<BranchTip>,
    /// The remote a remote-tracking ref belongs to.
    pub remote: Option<String>,
}

/// The mathematical value of a [`Branch`].
pub struct BranchValue {
    pub name: Seq<char>,
    pub kind: BranchKind,
    pub tracking: Option<Seq<char>>,
    pub favorite: bool,
    pub ahead: nat,
    pub behind: nat,
    pub gone: bool,
    pub last_touched: Option<int>,
    pub protected: bool,
    pub exists: bool,
    pub tip: Option<TipValue>,
    pub remote: Option<Seq<char>>,
}

/// The mathematical value of a [`BranchTip`].
pub struct TipValue {
    pub short_hash: Seq<char>,
    pub message: Seq<char>,
    pub author: Seq<char>,
    pub time: int,
}

impl View for Branch {
    type V = BranchValue;

    open spec fn view(&self) -> BranchValue {
        BranchValue {
            name: self.name@,
            kind: self.kind,
            tracking: opt_view(self.tracking),
            favorite: self.favorite,
            ahead: self.ahead as nat,
            behind: self.behind as nat,
            gone: self.gone,
            last_touched: match self.last_touched {
                Some(t) => Some(t as int),
                None => None,
            },
            protected: self.protected,
            exists: self.exists,
            tip: match self.tip {
                Some(t) => Some(
                    TipValue {
                        short_hash: t.short_hash@,
                        message: t.message@,
                        author: t.author@,
                        time: t.time as int,
                    },
                ),
                None => None,
            },
            remote: opt_view(self.remote),
        }
    }
}

/// A repository's identity: its root path.
#[derive(Clone, Debug, PartialEq, Eq, Hash)]
pub struct RootId(pub String);

/// The display name of a repository: the last component of its path, or the
/// whole path when it has none.
pub open spec fn root_name_spec(path: Seq<char>) -> Seq<char> {
    match file_name_spec(path) {
        Some(n) => n,
        None => path,
    }
}

impl RootId {
    /// The display name of the repository.
    pub fn name(&self) -> (r: String)
        ensures
            r@ == root_name_spec(self.0@),
    {
        let v = chars_of(self.0.as_str());
        let n = crate::diff_model::file_name_bounds(&v);
        match n {
            Some((a, b)) => crate::text::string_of(&v, a, b),
            None => string_from(self.0.as_str()),
        }
    }

    /// Whether two ids name the same repository.
    pub fn same(&self, other: &RootId) -> (r: bool)
        ensures
            r == (self.0@ == other.0@),
    {
        let x = chars_of(self.0.as_str());
        let y = chars_of(other.0.as_str());
        assert(x@.subrange(0, x@.len() as int) =~= x@);
        span_eq(&x, 0, x.len(), &y)
    }
}

/// Working-tree status counts of a repository.
#[derive(Clone, Copy, Debug, PartialEq, Eq, Default)]
pub struct RootStatus {
    /// Tracked files with local modifications.
    pub modified: usize,
    /// Untracked files.
    pub unversioned: usize,
    /// Files with unresolved conflicts.
    pub conflicted: usize,
}

/// A repository snapshot: branches, remotes, current branch, HEAD and status.
#[derive(Clone, Debug, PartialEq, Eq)]
pub struct Root {
    pub id: RootId,
    /// Names of the configured remotes.
    pub remotes: Vec<String>,
    pub branches: Vec<Branch>,
    pub current_branch: Option<String>,
    /// The HEAD commit, `None` for an unborn branch.
    pub head: Option<String>,
    pub status: RootStatus,
}


/// A fresh copy of an optional string.
pub fn copy_opt(o: &Option<String>) -> (r: Option<String>)
    ensures
        opt_view(r) == opt_view(*o),
{
    match o {
        Some(s) => Some(string_from(s.as_str())),
        None => None,
    }
}

impl BranchTip {
    /// A copy of this tip.
    pub fn copy(&self) -> (r: BranchTip)
        ensures
            r.short_hash@ == self.short_hash@,
            r.message@ == self.message@,
            r.author@ == self.author@,
            r.time == self.time,
    {
        BranchTip {
            short_hash: string_from(self.short_hash.as_str()),
            message: string_from(self.message.as_str()),
            author: string_from(self.author.as_str()),
            time: self.time,
        }
    }
}

impl Branch {
    /// A copy of this branch.
    pub fn copy(&self) -> (r: Branch)
        ensures
            r@ == self@,
    {
        Branch {
            name: string_from(self.name.as_str()),
            kind: self.kind,
            tracking: copy_opt(&self.tracking),
            favorite: self.favorite,
            protected: self.protected,
            exists: self.exists,
            ahead: self.ahead,
            behind: self.behind,
            gone: self.gone,
            last_touched: self.last_touched,
            tip: match &self.tip {
                Some(t) => Some(t.copy()),
                None => None,
            },
            remote: copy_opt(&self.remote),
        }
    }
}

/// The state of one changed path in the working tree or index.
#[derive(Clone, Copy, Debug, PartialEq, Eq, Structural)]
pub enum ChangeStatus {
    Modified,
    Added,
    Deleted,
    Renamed,
    Copied,
    Unversioned,
    Ignored,
    Conflicted,
}

/// One changed path of a repository's status: its path relative to the
/// repository root, its state, and whether the index and the working tree
/// hold changes of it.
#[derive(Clone, Debug, PartialEq, Eq)]
pub struct Change {
    pub path: String,
    pub status: ChangeStatus,
    pub staged: bool,
    pub unstaged: bool,
}

/// The mathematical value of a [`Change`].
pub struct ChangeValue {
    pub path: Seq<char>,
    pub status: ChangeStatus,
    pub staged: bool,
    pub unstaged: bool,
}

impl View for Change {
    type V = ChangeValue;

    open spec fn view(&self) -> ChangeValue {
        ChangeValue { path: self.path@, status: self.status, staged: self.staged, unstaged: self.unstaged }
    }
}

impl Change {
    /// A copy of this change.
    pub fn copy(&self) -> (r: Change)
        ensures
            r@ == self@,
    {
        Change { path: string_from(self.path.as_str()), status: self.status, staged: self.staged, unstaged: self.unstaged }
    }
}

/// One commit of a history listing.
#[derive(Clone, Debug, PartialEq, Eq)]
pub struct Commit {
    pub id: String,
    /// Parent ids, first parent first.
    pub parents: Vec<String>,
    /// The author's name.
    pub author: String,
    /// Commit time, seconds since the epoch.
    pub time: i64,
    pub message: String,
}

/// The mathematical value of a [`Commit`].
pub struct CommitValue {
    pub id: Seq<char>,
    pub parents: Seq<Seq<char>>,
    pub author: Seq<char>,
    pub time: int,
    pub message: Seq<char>,
}

impl View for Commit {
    type V = CommitValue;

    open spec fn view(&self) -> CommitValue {
        CommitValue {
            id: self.id@,
            parents: views(self.parents@),
            author: self.author@,
            time: self.time as int,
            message: self.message@,
        }
    }
}

/// A fresh copy of a string list.
pub fn copy_strings(v: &Vec<String>) -> (r: Vec<String>)
    ensures
        views(r@) == views(v@),
{
    let mut out: Vec<String> = Vec::new();
    let mut i: usize = 0;
    while i < v.len()
        invariant
            0 <= i <= v@.len(),
            views(out@) == views(v@).take(i as int),
        decreases v@.len() - i,
    {
        let ghost before = views(out@);
        out.push(string_from(v[i].as_str()));
        assert(views(out@) =~= before.push(v@[i as int]@));
        assert(views(v@).take(i + 1) =~= views(v@).take(i as int).push(v@[i as int]@));
        i += 1;
    }
    assert(views(v@).take(i as int) =~= views(v@));
    out
}

impl Commit {
    /// A copy of this commit.
    pub fn copy(&self) -> (r: Commit)
        ensures
            r@ == self@,
    {
        Commit {
            id: string_from(self.id.as_str()),
            parents: copy_strings(&self.parents),
            author: string_from(self.author.as_str()),
            time: self.time,
            message: string_from(self.message.as_str()),
        }
    }
}

} // verus!
