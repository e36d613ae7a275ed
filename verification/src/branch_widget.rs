//! The branches popup's row model: grouped, ordered and filtered rows, the
//! recent-branch list, stale and sync markers, the row-action gates, and the
//! popup's keyboard.

use vstd::prelude::*;

use crate::branches::{first_named, not_named, opt_str_view};
use crate::diff_model::opt_view;
use crate::domain::{Branch, BranchValue};
use crate::sorting::{sort_by_spec, stable_sort, views, ViewOrder};
use crate::text::{
    chars_of, decimal, find, lemma_find_from, lowercase, push_decimal, push_str, span_eq, span_find, str_less,
    str_lt, string_from, string_of, to_lower, str_eq,
};

verus! {

broadcast use vstd::string::group_string_axioms;

/// One selectable row of the branches popup. Times are seconds since the
/// epoch.
#[derive(Clone, Debug, PartialEq, Eq)]
pub enum PopupEntry {
    Recent {
        name: String,
        favorite: bool,
        ahead: usize,
        behind: usize,
        gone: bool,
        last_touched: Option<i64>,
    },
    Local {
        name: String,
        favorite: bool,
        ahead: usize,
        behind: usize,
        gone: bool,
        last_touched: Option<i64>,
    },
    Remote { name: String, ahead: usize, behind: usize, gone: bool, last_touched: Option<i64> },
    Tag { name: String },
}

/// The mathematical value of a [`PopupEntry`].
pub enum PopupView {
    Recent {
        name: Seq<char>,
        favorite: bool,
        ahead: nat,
        behind: nat,
        gone: bool,
        last_touched: Option<int>,
    },
    Local {
        name: Seq<char>,
        favorite: bool,
        ahead: nat,
        behind: nat,
        gone: bool,
        last_touched: Option<int>,
    },
    Remote { name: Seq<char>, ahead: nat, behind: nat, gone: bool, last_touched: Option<int> },
    Tag { name: Seq<char> },
}

/// The view of an optional time.
pub open spec fn opt_time(t: Option<i64>) -> Option<int> {
    match t {
        Some(x) => Some(x as int),
        None => None,
    }
}

impl View for PopupEntry {
    type V = PopupView;

    open spec fn view(&self) -> PopupView {
        match self {
            PopupEntry::Recent { name, favorite, ahead, behind, gone, last_touched } => PopupView::Recent {
                name: name@,
                favorite: *favorite,
                ahead: *ahead as nat,
                behind: *behind as nat,
                gone: *gone,
                last_touched: opt_time(*last_touched),
            },
            PopupEntry::Local { name, favorite, ahead, behind, gone, last_touched } => PopupView::Local {
                name: name@,
                favorite: *favorite,
                ahead: *ahead as nat,
                behind: *behind as nat,
                gone: *gone,
                last_touched: opt_time(*last_touched),
            },
            PopupEntry::Remote { name, ahead, behind, gone, last_touched } => PopupView::Remote {
                name: name@,
                ahead: *ahead as nat,
                behind: *behind as nat,
                gone: *gone,
                last_touched: opt_time(*last_touched),
            },
            PopupEntry::Tag { name } => PopupView::Tag { name: name@ },
        }
    }
}

/// The underlying branch name of a row (no `origin/` prefix).
pub open spec fn entry_name(e: PopupView) -> Seq<char> {
    match e {
        PopupView::Recent { name, .. } => name,
        PopupView::Local { name, .. } => name,
        PopupView::Remote { name, .. } => name,
        PopupView::Tag { name } => name,
    }
}

/// The painted label: remote rows carry the `origin/` prefix.
pub open spec fn entry_label(e: PopupView) -> Seq<char> {
    match e {
        PopupView::Remote { name, .. } => "origin/"@ + name,
        _ => entry_name(e),
    }
}

/// Live-filter match of a row against the lower-cased filter.
pub open spec fn entry_matches(e: PopupView, filter_lower: Seq<char>) -> bool {
    filter_lower.len() == 0 || find(to_lower(entry_label(e)), filter_lower) is Some
}

/// A starred recent or local row.
pub open spec fn entry_starred(e: PopupView) -> bool {
    match e {
        PopupView::Recent { favorite, .. } => favorite,
        PopupView::Local { favorite, .. } => favorite,
        _ => false,
    }
}

/// The section tag of a row.
pub open spec fn entry_section(e: PopupView) -> Seq<char> {
    match e {
        PopupView::Recent { .. } => "RECENT"@,
        PopupView::Local { .. } => "LOCAL"@,
        PopupView::Remote { .. } => "REMOTE"@,
        PopupView::Tag { .. } => "TAGS"@,
    }
}

impl PopupEntry {
    /// Painted row label (remote rows carry the `origin/` prefix).
    pub fn label(&self) -> (r: String)
        ensures
            r@ == entry_label(self@),
    {
        match self {
            PopupEntry::Remote { name, .. } => {
                let mut s = string_from("origin/");
                push_str(&mut s, name.as_str());
                s
            },
            PopupEntry::Recent { name, .. } | PopupEntry::Local { name, .. } | PopupEntry::Tag {
                name,
            } => string_from(name.as_str()),
        }
    }

    /// The underlying branch name (no `origin/` prefix for remote rows).
    pub fn branch_name(&self) -> (r: &str)
        ensures
            r@ == entry_name(self@),
    {
        match self {
            PopupEntry::Recent { name, .. } | PopupEntry::Local { name, .. }
            | PopupEntry::Remote { name, .. } | PopupEntry::Tag { name } => name.as_str(),
        }
    }

    /// Branch-tip time for the stale badge (`None` for tags).
    pub fn last_touched(&self) -> (r: Option<i64>)
        ensures
            r == match self {
                PopupEntry::Recent { last_touched, .. } => *last_touched,
                PopupEntry::Local { last_touched, .. } => *last_touched,
                PopupEntry::Remote { last_touched, .. } => *last_touched,
                PopupEntry::Tag { .. } => None,
            },
    {
        match self {
            PopupEntry::Recent { last_touched, .. } | PopupEntry::Local { last_touched, .. }
            | PopupEntry::Remote { last_touched, .. } => *last_touched,
            PopupEntry::Tag { .. } => None,
        }
    }

    /// Live-filter match against the display label.
    pub fn matches(&self, filter_lower: &str) -> (r: bool)
        ensures
            r == entry_matches(self@, filter_lower@),
    {
        let f = chars_of(filter_lower);
        if f.len() == 0 {
            return true;
        }
        let label = self.label();
        let l = lowercase(label.as_str());
        let lv = chars_of(l.as_str());
        assert(lv@.subrange(0, lv@.len() as int) =~= lv@);
        span_find(&lv, 0, lv.len(), &f).is_some()
    }

    /// Whether the row is a starred recent or local row.
    pub fn starred(&self) -> (r: bool)
        ensures
            r == entry_starred(self@),
    {
        match self {
            PopupEntry::Recent { favorite, .. } | PopupEntry::Local { favorite, .. } => *favorite,
            _ => false,
        }
    }

    /// The section tag driving group-title emission.
    pub fn section(&self) -> (r: &'static str)
        ensures
            r@ == entry_section(self@),
    {
        match self {
            PopupEntry::Recent { .. } => "RECENT",
            PopupEntry::Local { .. } => "LOCAL",
            PopupEntry::Remote { .. } => "REMOTE",
            PopupEntry::Tag { .. } => "TAGS",
        }
    }
}

// --- the popup rows ---------------------------------------------------------------

/// The rows of `s` that match the lower-cased filter `f`, in order.
pub open spec fn keep_matching(s: Seq<PopupView>, f: Seq<char>) -> Seq<PopupView>
    decreases s.len(),
{
    if s.len() == 0 {
        s
    } else {
        let rest = keep_matching(s.drop_last(), f);
        if entry_matches(s.last(), f) {
            rest.push(s.last())
        } else {
            rest
        }
    }
}

/// A recent row for `n`: the star and the sync markers come from the local
/// branch of that name when one still exists.
pub open spec fn recent_entry(locals: Seq<BranchValue>, n: Seq<char>) -> PopupView {
    match first_named(locals, Some(n)) {
        Some(b) => PopupView::Recent {
            name: n,
            favorite: b.favorite,
            ahead: b.ahead,
            behind: b.behind,
            gone: b.gone,
            last_touched: b.last_touched,
        },
        None => PopupView::Recent {
            name: n,
            favorite: false,
            ahead: 0,
            behind: 0,
            gone: false,
            last_touched: None,
        },
    }
}

/// The recent names other than `current`, as rows, in order.
pub open spec fn recent_rows(
    locals: Seq<BranchValue>,
    recents: Seq<Seq<char>>,
    current: Option<Seq<char>>,
) -> Seq<PopupView>
    decreases recents.len(),
{
    if recents.len() == 0 {
        seq![]
    } else {
        let rest = recent_rows(locals, recents.drop_last(), current);
        if current == Some(recents.last()) {
            rest
        } else {
            rest.push(recent_entry(locals, recents.last()))
        }
    }
}

/// Starred rows sort before unstarred ones.
pub open spec fn starred_first(a: PopupView, b: PopupView) -> bool {
    entry_starred(a) && !entry_starred(b)
}

/// The row of a local branch.
pub open spec fn local_entry(b: BranchValue) -> PopupView {
    PopupView::Local {
        name: b.name,
        favorite: b.favorite,
        ahead: b.ahead,
        behind: b.behind,
        gone: b.gone,
        last_touched: b.last_touched,
    }
}

/// Favorites first, then alphabetical.
pub open spec fn favorite_then_name(a: BranchValue, b: BranchValue) -> bool {
    (a.favorite && !b.favorite) || (a.favorite == b.favorite && str_less(a.name, b.name))
}

/// The first branch whose upstream is `target`.
pub open spec fn first_tracking(s: Seq<BranchValue>, target: Seq<char>) -> Option<BranchValue>
    decreases s.len(),
{
    if s.len() == 0 {
        None
    } else if s[0].tracking == Some(target) {
        Some(s[0])
    } else {
        first_tracking(s.skip(1), target)
    }
}

/// The row of a remote-tracking ref: sync state from the local branch that
/// tracks `origin/<name>`, tip time from it too when it has one.
pub open spec fn remote_entry(locals: Seq<BranchValue>, b: BranchValue) -> PopupView {
    match first_tracking(locals, "origin/"@ + b.name) {
        Some(l) => PopupView::Remote {
            name: b.name,
            ahead: l.ahead,
            behind: l.behind,
            gone: l.gone,
            last_touched: match l.last_touched {
                Some(t) => Some(t),
                None => b.last_touched,
            },
        },
        None => PopupView::Remote {
            name: b.name,
            ahead: 0,
            behind: 0,
            gone: false,
            last_touched: b.last_touched,
        },
    }
}

/// The branch part of an upstream `remote/name` (after the first `/`).
pub open spec fn tracked_name(t: Option<Seq<char>>) -> Option<Seq<char>> {
    match t {
        Some(s) => match find(s, "/"@) {
            Some(k) => Some(s.subrange(k + 1, s.len() as int)),
            None => None,
        },
        None => None,
    }
}

/// The remote row a local branch's upstream stands for.
pub open spec fn upstream_entry(name: Seq<char>, l: BranchValue) -> PopupView {
    PopupView::Remote {
        name,
        ahead: l.ahead,
        behind: l.behind,
        gone: l.gone,
        last_touched: l.last_touched,
    }
}

/// Remote rows for the upstreams the locals track that are not already
/// `seen`, each name once; with the names seen afterwards.
pub open spec fn upstream_rows(locals: Seq<BranchValue>, seen: Seq<Seq<char>>) -> (
    Seq<Seq<char>>,
    Seq<PopupView>,
)
    decreases locals.len(),
{
    if locals.len() == 0 {
        (seen, seq![])
    } else {
        let (s, rows) = upstream_rows(locals.drop_last(), seen);
        let l = locals.last();
        match tracked_name(l.tracking) {
            Some(name) => if s.contains(name) {
                (s, rows)
            } else {
                (s.push(name), rows.push(upstream_entry(name, l)))
            },
            None => (s, rows),
        }
    }
}

/// Rows ordered by branch name.
pub open spec fn by_name(a: PopupView, b: PopupView) -> bool {
    str_less(entry_name(a), entry_name(b))
}

/// The names of branches.
pub open spec fn names_of(s: Seq<BranchValue>) -> Seq<Seq<char>> {
    s.map_values(|b: BranchValue| b.name)
}

/// RECENT: the recent names but the current one, starred first, filtered.
pub open spec fn recent_section(
    locals: Seq<BranchValue>,
    recents: Seq<Seq<char>>,
    current: Option<Seq<char>>,
    f: Seq<char>,
) -> Seq<PopupView> {
    keep_matching(
        sort_by_spec(
            recent_rows(locals, recents, current),
            |a: PopupView, b: PopupView| starred_first(a, b),
        ),
        f,
    )
}

/// LOCAL: every local branch but the current one, favorites first then
/// alphabetical, filtered.
pub open spec fn local_section(locals: Seq<BranchValue>, current: Option<Seq<char>>, f: Seq<char>) -> Seq<
    PopupView,
> {
    keep_matching(
        sort_by_spec(
            not_named(locals, current),
            |a: BranchValue, b: BranchValue| favorite_then_name(a, b),
        ).map_values(|b: BranchValue| local_entry(b)),
        f,
    )
}

/// REMOTE: the remote-tracking refs, then the upstreams of the locals that
/// no ref stands for, filtered, by name.
pub open spec fn remote_section(locals: Seq<BranchValue>, remotes: Seq<BranchValue>, f: Seq<char>) -> Seq<
    PopupView,
> {
    sort_by_spec(
        keep_matching(
            remotes.map_values(|b: BranchValue| remote_entry(locals, b)) + upstream_rows(
                locals,
                names_of(remotes),
            ).1,
            f,
        ),
        |a: PopupView, b: PopupView| by_name(a, b),
    )
}

/// TAGS: alphabetical, filtered.
pub open spec fn tag_section(tags: Seq<Seq<char>>, f: Seq<char>) -> Seq<PopupView> {
    keep_matching(
        sort_by_spec(tags, |a: Seq<char>, b: Seq<char>| str_less(a, b)).map_values(
            |n: Seq<char>| PopupView::Tag { name: n },
        ),
        f,
    )
}

/// The flattened popup rows: RECENT, LOCAL, REMOTE, TAGS.
pub open spec fn popup_entries_spec(
    locals: Seq<BranchValue>,
    remotes: Seq<BranchValue>,
    tags: Seq<Seq<char>>,
    recents: Seq<Seq<char>>,
    current: Option<Seq<char>>,
    f: Seq<char>,
) -> Seq<PopupView> {
    recent_section(locals, recents, current, f) + local_section(locals, current, f)
        + remote_section(locals, remotes, f) + tag_section(tags, f)
}

fn keep(out: &mut Vec<PopupEntry>, e: PopupEntry, f: &str)
    ensures
        views(final(out)@) == if entry_matches(e@, f@) {
            views(old(out)@).push(e@)
        } else {
            views(old(out)@)
        },
{
    if e.matches(f) {
        let ghost before = views(out@);
        out.push(e);
        assert(views(out@) =~= before.push(e@));
    }
}

fn find_local<'a>(locals: &'a [Branch], n: &str) -> (r: Option<&'a Branch>)
    ensures
        match r {
            Some(b) => first_named(views(locals@), Some(n@)) == Some(b@),
            None => first_named(views(locals@), Some(n@)) is None,
        },
{
    let ghost s = views(locals@);
    let mut i: usize = 0;
    assert(s.skip(0) =~= s);
    while i < locals.len()
        invariant
            0 <= i <= locals@.len(),
            s == views(locals@),
            first_named(s, Some(n@)) == first_named(s.skip(i as int), Some(n@)),
        decreases locals@.len() - i,
    {
        assert(s.skip(i as int)[0] == locals@[i as int]@);
        assert(s.skip(i as int).skip(1) =~= s.skip(i + 1));
        if same_str(locals[i].name.as_str(), n) {
            return Some(&locals[i]);
        }
        i += 1;
    }
    None
}

fn tracking_is(b: &Branch, target: &str) -> (r: bool)
    ensures
        r == (b@.tracking == Some(target@)),
{
    match &b.tracking {
        Some(t) => same_str(t.as_str(), target),
        None => false,
    }
}

fn find_tracking<'a>(locals: &'a [Branch], target: &str) -> (r: Option<&'a Branch>)
    ensures
        match r {
            Some(b) => first_tracking(views(locals@), target@) == Some(b@),
            None => first_tracking(views(locals@), target@) is None,
        },
{
    let ghost s = views(locals@);
    let mut i: usize = 0;
    assert(s.skip(0) =~= s);
    while i < locals.len()
        invariant
            0 <= i <= locals@.len(),
            s == views(locals@),
            first_tracking(s, target@) == first_tracking(s.skip(i as int), target@),
        decreases locals@.len() - i,
    {
        assert(s.skip(i as int)[0] == locals@[i as int]@);
        assert(s.skip(i as int).skip(1) =~= s.skip(i + 1));
        if tracking_is(&locals[i], target) {
            return Some(&locals[i]);
        }
        i += 1;
    }
    None
}

fn recent_entry_of(locals: &[Branch], n: &String) -> (r: PopupEntry)
    ensures
        r@ == recent_entry(views(locals@), n@),
{
    match find_local(locals, n.as_str()) {
        Some(b) => PopupEntry::Recent {
            name: string_from(n.as_str()),
            favorite: b.favorite,
            ahead: b.ahead,
            behind: b.behind,
            gone: b.gone,
            last_touched: b.last_touched,
        },
        None => PopupEntry::Recent {
            name: string_from(n.as_str()),
            favorite: false,
            ahead: 0,
            behind: 0,
            gone: false,
            last_touched: None,
        },
    }
}

/// A row ordered starred-first.
struct StarredFirst(PopupEntry);

impl View for StarredFirst {
    type V = PopupView;

    closed spec fn view(&self) -> PopupView {
        self.0@
    }
}

impl ViewOrder for StarredFirst {
    open spec fn view_less(a: PopupView, b: PopupView) -> bool {
        starred_first(a, b)
    }

    fn lt(&self, other: &Self) -> (r: bool) {
        self.0.starred() && !other.0.starred()
    }
}

fn recent_part(locals: &[Branch], recents: &[String], current: Option<&str>, f: &str) -> (r: Vec<
    PopupEntry,
>)
    ensures
        views(r@) == recent_section(views(locals@), views(recents@), opt_str_view(current), f@),
{
    let ghost rs = views(recents@);
    let ghost ls = views(locals@);
    let ghost cur = opt_str_view(current);
    let mut rows: Vec<StarredFirst> = Vec::new();
    let mut i: usize = 0;
    while i < recents.len()
        invariant
            0 <= i <= recents@.len(),
            rs == views(recents@),
            ls == views(locals@),
            cur == opt_str_view(current),
            views(rows@) == recent_rows(ls, rs.take(i as int), cur),
        decreases recents@.len() - i,
    {
        assert(rs.take(i + 1).drop_last() =~= rs.take(i as int));
        assert(rs.take(i + 1).last() == recents@[i as int]@);
        let is_cur = match current {
            Some(c) => same_str(recents[i].as_str(), c),
            None => false,
        };
        if !is_cur {
            let ghost before = views(rows@);
            rows.push(StarredFirst(recent_entry_of(locals, &recents[i])));
            assert(views(rows@) =~= before.push(recent_entry(ls, rs[i as int])));
        }
        i += 1;
    }
    assert(rs.take(i as int) =~= rs);
    let sorted = stable_sort(rows);
    assert((|a: PopupView, b: PopupView| StarredFirst::view_less(a, b)) =~= (|
        a: PopupView,
        b: PopupView,
    | starred_first(a, b)));
    let ghost sv = views(sorted@);
    let mut out: Vec<PopupEntry> = Vec::new();
    let ghost orig = sorted@;
    for w in it: sorted.into_iter()
        invariant
            orig == it.seq(),
            sv == views(orig),
            views(out@) == keep_matching(sv.take(it.index() as int), f@),
    {
        let ghost k = it.index();
        assert(sv.take(k + 1).drop_last() =~= sv.take(k as int));
        assert(sv.take(k + 1).last() == w@);
        keep(&mut out, w.0, f);
    }
    assert(sv.take(sv.len() as int) =~= sv);
    out
}

fn local_entry_of(b: &Branch) -> (r: PopupEntry)
    ensures
        r@ == local_entry(b@),
{
    PopupEntry::Local {
        name: string_from(b.name.as_str()),
        favorite: b.favorite,
        ahead: b.ahead,
        behind: b.behind,
        gone: b.gone,
        last_touched: b.last_touched,
    }
}

/// A branch ordered favorites first, then by name.
struct FavoriteThenName(Branch);

impl View for FavoriteThenName {
    type V = BranchValue;

    closed spec fn view(&self) -> BranchValue {
        self.0@
    }
}

impl ViewOrder for FavoriteThenName {
    open spec fn view_less(a: BranchValue, b: BranchValue) -> bool {
        favorite_then_name(a, b)
    }

    fn lt(&self, other: &Self) -> (r: bool) {
        (self.0.favorite && !other.0.favorite) || (self.0.favorite == other.0.favorite && str_lt(
            self.0.name.as_str(),
            other.0.name.as_str(),
        ))
    }
}

fn local_part(locals: &[Branch], current: Option<&str>, f: &str) -> (r: Vec<PopupEntry>)
    ensures
        views(r@) == local_section(views(locals@), opt_str_view(current), f@),
{
    let ghost ls = views(locals@);
    let ghost cur = opt_str_view(current);
    let mut rows: Vec<FavoriteThenName> = Vec::new();
    let mut i: usize = 0;
    while i < locals.len()
        invariant
            0 <= i <= locals@.len(),
            ls == views(locals@),
            cur == opt_str_view(current),
            views(rows@) == not_named(ls.take(i as int), cur),
        decreases locals@.len() - i,
    {
        assert(ls.take(i + 1).drop_last() =~= ls.take(i as int));
        assert(ls.take(i + 1).last() == locals@[i as int]@);
        let is_cur = match current {
            Some(c) => same_str(locals[i].name.as_str(), c),
            None => false,
        };
        if !is_cur {
            let ghost before = views(rows@);
            rows.push(FavoriteThenName(locals[i].copy()));
            assert(views(rows@) =~= before.push(ls[i as int]));
        }
        i += 1;
    }
    assert(ls.take(i as int) =~= ls);
    let sorted = stable_sort(rows);
    assert((|a: BranchValue, b: BranchValue| FavoriteThenName::view_less(a, b)) =~= (|
        a: BranchValue,
        b: BranchValue,
    | favorite_then_name(a, b)));
    let ghost sv = views(sorted@);
    let ghost ev = sv.map_values(|b: BranchValue| local_entry(b));
    let mut out: Vec<PopupEntry> = Vec::new();
    let ghost orig = sorted@;
    for w in it: sorted.into_iter()
        invariant
            orig == it.seq(),
            sv == views(orig),
            ev == sv.map_values(|b: BranchValue| local_entry(b)),
            views(out@) == keep_matching(ev.take(it.index() as int), f@),
    {
        let ghost k = it.index();
        assert(ev.take(k + 1).drop_last() =~= ev.take(k as int));
        assert(ev.take(k + 1).last() == local_entry(w@));
        keep(&mut out, local_entry_of(&w.0), f);
    }
    assert(ev.take(ev.len() as int) =~= ev);
    out
}

fn remote_entry_of(locals: &[Branch], b: &Branch) -> (r: PopupEntry)
    ensures
        r@ == remote_entry(views(locals@), b@),
{
    let mut target = string_from("origin/");
    push_str(&mut target, b.name.as_str());
    match find_tracking(locals, target.as_str()) {
        Some(l) => PopupEntry::Remote {
            name: string_from(b.name.as_str()),
            ahead: l.ahead,
            behind: l.behind,
            gone: l.gone,
            last_touched: match l.last_touched {
                Some(t) => Some(t),
                None => b.last_touched,
            },
        },
        None => PopupEntry::Remote {
            name: string_from(b.name.as_str()),
            ahead: 0,
            behind: 0,
            gone: false,
            last_touched: b.last_touched,
        },
    }
}

fn tracked_name_of(t: &Option<String>) -> (r: Option<String>)
    ensures
        opt_view(r) == tracked_name(opt_view(*t)),
{
    match t {
        Some(s) => {
            let v = chars_of(s.as_str());
            let mut p: Vec<char> = Vec::new();
            p.push('/');
            proof {
                reveal_strlit("/");
            }
            assert(p@ =~= "/"@);
            assert(v@.subrange(0, v@.len() as int) =~= v@);
            let found = span_find(&v, 0, v.len(), &p);
            assert(find(s@, "/"@) == find(v@.subrange(0, v@.len() as int), p@));
            proof {
                lemma_find_from(s@, "/"@, 0);
            }
            match found {
                Some(k) => {
                    let r = string_of(&v, k + 1, v.len());
                    assert(find(s@, "/"@) == Some(k as int));
                    assert(r@ == s@.subrange(k + 1, s@.len() as int));
                    Some(r)
                },
                None => None,
            }
        },
        None => None,
    }
}

fn seen_has(seen: &Vec<String>, name: &String) -> (r: bool)
    ensures
        r == views(seen@).contains(name@),
{
    let ghost s = views(seen@);
    let mut i: usize = 0;
    while i < seen.len()
        invariant
            0 <= i <= seen@.len(),
            s == views(seen@),
            forall|j: int| 0 <= j < i ==> s[j] != name@,
        decreases seen@.len() - i,
    {
        if same_str(seen[i].as_str(), name.as_str()) {
            assert(s[i as int] == name@);
            return true;
        }
        i += 1;
    }
    false
}

/// A row ordered by branch name.
struct ByName(PopupEntry);

impl View for ByName {
    type V = PopupView;

    closed spec fn view(&self) -> PopupView {
        self.0@
    }
}

impl ViewOrder for ByName {
    open spec fn view_less(a: PopupView, b: PopupView) -> bool {
        by_name(a, b)
    }

    fn lt(&self, other: &Self) -> (r: bool) {
        str_lt(self.0.branch_name(), other.0.branch_name())
    }
}

fn remote_part(locals: &[Branch], remotes: &[Branch], f: &str) -> (r: Vec<PopupEntry>)
    ensures
        views(r@) == remote_section(views(locals@), views(remotes@), f@),
{
    let ghost ls = views(locals@);
    let ghost rv = views(remotes@);
    let ghost base = rv.map_values(|b: BranchValue| remote_entry(ls, b));
    let mut seen: Vec<String> = Vec::new();
    let mut rows: Vec<ByName> = Vec::new();
    let mut i: usize = 0;
    while i < remotes.len()
        invariant
            0 <= i <= remotes@.len(),
            ls == views(locals@),
            rv == views(remotes@),
            base == rv.map_values(|b: BranchValue| remote_entry(ls, b)),
            views(seen@) == names_of(rv.take(i as int)),
            views(rows@) == keep_matching(base.take(i as int), f@),
        decreases remotes@.len() - i,
    {
        let b = &remotes[i];
        assert(rv[i as int] == b@);
        assert(base.take(i + 1).drop_last() =~= base.take(i as int));
        assert(base.take(i + 1).last() == remote_entry(ls, b@));
        let ghost s0 = views(seen@);
        seen.push(string_from(b.name.as_str()));
        assert(views(seen@) =~= names_of(rv.take(i + 1))) by {
            assert(views(seen@) =~= s0.push(b@.name));
            assert(rv.take(i + 1) =~= rv.take(i as int).push(b@));
        }
        let e = remote_entry_of(locals, b);
        if e.matches(f) {
            let ghost before = views(rows@);
            rows.push(ByName(e));
            assert(views(rows@) =~= before.push(remote_entry(ls, b@)));
        }
        i += 1;
    }
    assert(rv.take(i as int) =~= rv);
    assert(base.take(i as int) =~= base);
    let ghost seen0 = names_of(rv);
    let mut j: usize = 0;
    while j < locals.len()
        invariant
            0 <= j <= locals@.len(),
            ls == views(locals@),
            seen0 == names_of(rv),
            views(seen@) == upstream_rows(ls.take(j as int), seen0).0,
            views(rows@) == keep_matching(base + upstream_rows(ls.take(j as int), seen0).1, f@),
        decreases locals@.len() - j,
    {
        let l = &locals[j];
        assert(ls[j as int] == l@);
        assert(ls.take(j + 1).drop_last() =~= ls.take(j as int));
        assert(ls.take(j + 1).last() == l@);
        let ghost prev = upstream_rows(ls.take(j as int), seen0);
        match tracked_name_of(&l.tracking) {
            Some(name) => {
                if !seen_has(&seen, &name) {
                    let ghost s0 = views(seen@);
                    seen.push(string_from(name.as_str()));
                    assert(views(seen@) =~= s0.push(name@));
                    let e = PopupEntry::Remote {
                        name,
                        ahead: l.ahead,
                        behind: l.behind,
                        gone: l.gone,
                        last_touched: l.last_touched,
                    };
                    assert(e@ == upstream_entry(name@, l@));
                    assert(base + prev.1.push(e@) =~= (base + prev.1).push(e@));
                    assert((base + prev.1).push(e@).drop_last() =~= base + prev.1);
                    if e.matches(f) {
                        let ghost before = views(rows@);
                        rows.push(ByName(e));
                        assert(views(rows@) =~= before.push(e@));
                    }
                }
            },
            None => {},
        }
        j += 1;
    }
    assert(ls.take(j as int) =~= ls);
    let sorted = stable_sort(rows);
    assert((|a: PopupView, b: PopupView| ByName::view_less(a, b)) =~= (|a: PopupView, b: PopupView|
        by_name(a, b)));
    let mut out: Vec<PopupEntry> = Vec::new();
    let ghost orig = sorted@;
    for w in it: sorted.into_iter()
        invariant
            orig == it.seq(),
            views(out@) == views(orig.take(it.index() as int)),
    {
        let ghost k = it.index();
        assert(views(orig.take(k + 1)) =~= views(orig.take(k as int)).push(w@));
        let ghost before = views(out@);
        out.push(w.0);
        assert(views(out@) =~= before.push(w@));
    }
    assert(orig.take(orig.len() as int) =~= orig);
    out
}

/// A tag name ordered alphabetically.
struct TagName(String);

impl View for TagName {
    type V = Seq<char>;

    closed spec fn view(&self) -> Seq<char> {
        self.0@
    }
}

impl ViewOrder for TagName {
    open spec fn view_less(a: Seq<char>, b: Seq<char>) -> bool {
        str_less(a, b)
    }

    fn lt(&self, other: &Self) -> (r: bool) {
        str_lt(self.0.as_str(), other.0.as_str())
    }
}

fn tag_part(tags: &[String], f: &str) -> (r: Vec<PopupEntry>)
    ensures
        views(r@) == tag_section(views(tags@), f@),
{
    let ghost tv = views(tags@);
    let mut names: Vec<TagName> = Vec::new();
    let mut i: usize = 0;
    while i < tags.len()
        invariant
            0 <= i <= tags@.len(),
            tv == views(tags@),
            views(names@) == tv.take(i as int),
        decreases tags@.len() - i,
    {
        let ghost before = views(names@);
        names.push(TagName(string_from(tags[i].as_str())));
        assert(views(names@) =~= before.push(tv[i as int]));
        assert(tv.take(i + 1) =~= tv.take(i as int).push(tv[i as int]));
        i += 1;
    }
    assert(tv.take(i as int) =~= tv);
    let sorted = stable_sort(names);
    assert((|a: Seq<char>, b: Seq<char>| TagName::view_less(a, b)) =~= (|a: Seq<char>, b: Seq<char>|
        str_less(a, b)));
    let ghost sv = views(sorted@);
    let ghost ev = sv.map_values(|n: Seq<char>| PopupView::Tag { name: n });
    let mut out: Vec<PopupEntry> = Vec::new();
    let ghost orig = sorted@;
    for w in it: sorted.into_iter()
        invariant
            orig == it.seq(),
            sv == views(orig),
            ev == sv.map_values(|n: Seq<char>| PopupView::Tag { name: n }),
            views(out@) == keep_matching(ev.take(it.index() as int), f@),
    {
        let ghost k = it.index();
        assert(ev.take(k + 1).drop_last() =~= ev.take(k as int));
        assert(ev.take(k + 1).last() == (PopupView::Tag { name: w@ }));
        keep(&mut out, PopupEntry::Tag { name: w.0 }, f);
    }
    assert(ev.take(ev.len() as int) =~= ev);
    out
}

/// Flattened, ordered popup rows: RECENT (starred first), LOCAL (favorites
/// first, alphabetical, current excluded: it is pinned separately), REMOTE,
/// TAGS; every row filtered against the lower-cased `filter`.
pub fn popup_entries(
    locals: &[Branch],
    remotes: &[Branch],
    tags: &[String],
    recents: &[String],
    current: Option<&str>,
    filter: &str,
) -> (r: Vec<PopupEntry>)
    ensures
        views(r@) == popup_entries_spec(
            views(locals@),
            views(remotes@),
            views(tags@),
            views(recents@),
            opt_str_view(current),
            to_lower(filter@),
        ),
{
    let f = lowercase(filter);
    let mut out = recent_part(locals, recents, current, f.as_str());
    let ghost a = views(out@);
    let mut l = local_part(locals, current, f.as_str());
    let ghost b = views(l@);
    out.append(&mut l);
    assert(views(out@) =~= a + b);
    let mut r = remote_part(locals, remotes, f.as_str());
    let ghost c = views(r@);
    out.append(&mut r);
    assert(views(out@) =~= a + b + c);
    let mut t = tag_part(tags, f.as_str());
    let ghost d = views(t@);
    out.append(&mut t);
    assert(views(out@) =~= a + b + c + d);
    out
}

// --- small helpers ----------------------------------------------------------------

/// Records a checked-out branch as most recent: deduplicated, newest first,
/// at most five.
pub open spec fn push_recent_spec(recents: Seq<Seq<char>>, name: Seq<char>) -> Seq<Seq<char>> {
    let kept = seq![name] + without(recents, name);
    if kept.len() > 5 {
        kept.take(5)
    } else {
        kept
    }
}

/// `s` with every occurrence of `name` dropped, order kept.
pub open spec fn without(s: Seq<Seq<char>>, name: Seq<char>) -> Seq<Seq<char>>
    decreases s.len(),
{
    if s.len() == 0 {
        s
    } else {
        let rest = without(s.drop_last(), name);
        if s.last() == name {
            rest
        } else {
            rest.push(s.last())
        }
    }
}

proof fn lemma_without(s: Seq<Seq<char>>, name: Seq<char>)
    ensures
        !without(s, name).contains(name),
        without(s, name).len() <= s.len(),
        s.no_duplicates() ==> without(s, name).no_duplicates(),
        forall|x: Seq<char>| #[trigger] without(s, name).contains(x) ==> s.contains(x),
    decreases s.len(),
{
    if s.len() > 0 {
        let p = s.drop_last();
        lemma_without(p, name);
        let w = without(p, name);
        assert forall|x: Seq<char>| p.contains(x) implies s.contains(x) by {
            let k = choose|k: int| 0 <= k < p.len() && p[k] == x;
            assert(s[k] == x);
        }
        if s.last() != name {
            let t = w.push(s.last());
            assert forall|x: Seq<char>| #[trigger] t.contains(x) implies s.contains(x) by {
                let k = choose|k: int| 0 <= k < t.len() && t[k] == x;
                if k == t.len() - 1 {
                    assert(s[s.len() - 1] == x);
                } else {
                    assert(w[k] == x);
                    assert(w.contains(x));
                }
            }
            assert(!t.contains(name)) by {
                if t.contains(name) {
                    let k = choose|k: int| 0 <= k < t.len() && t[k] == name;
                    assert(k != t.len() - 1);
                    assert(w[k] == name);
                }
            }
            if s.no_duplicates() {
                assert(p.no_duplicates());
                assert(!p.contains(s.last())) by {
                    if p.contains(s.last()) {
                        let k = choose|k: int| 0 <= k < p.len() && p[k] == s.last();
                        assert(s[k] == s[s.len() - 1]);
                    }
                }
                assert(!w.contains(s.last()));
            }
        }
    }
}

/// Recording a branch as most recent puts it first, keeps it once, keeps at
/// most five names, and, from a list without repeats, yields one without
/// repeats whose every other name was already recent.
pub proof fn lemma_push_recent(recents: Seq<Seq<char>>, name: Seq<char>)
    ensures
        push_recent_spec(recents, name).len() <= 5,
        push_recent_spec(recents, name)[0] == name,
        forall|i: int|
            0 < i < push_recent_spec(recents, name).len() ==> #[trigger] push_recent_spec(recents, name)[i]
                != name && recents.contains(push_recent_spec(recents, name)[i]),
        recents.no_duplicates() ==> push_recent_spec(recents, name).no_duplicates(),
{
    lemma_without(recents, name);
    let w = without(recents, name);
    let kept = seq![name] + w;
    let r = push_recent_spec(recents, name);
    assert forall|i: int| 0 < i < r.len() implies #[trigger] r[i] != name && recents.contains(r[i]) by {
        assert(r[i] == kept[i]);
        assert(kept[i] == w[i - 1]);
        assert(w.contains(w[i - 1]));
    }
    if recents.no_duplicates() {
        assert forall|i: int, j: int| 0 <= i < j < r.len() implies r[i] != r[j] by {
            assert(r[j] == w[j - 1]);
            if i == 0 {
                assert(w.contains(w[j - 1]));
            } else {
                assert(r[i] == w[i - 1]);
            }
        }
    }
}

fn same_str(a: &str, b: &str) -> (r: bool)
    ensures
        r == (a@ == b@),
{
    let x = chars_of(a);
    let y = chars_of(b);
    assert(x@.subrange(0, x@.len() as int) =~= x@);
    span_eq(&x, 0, x.len(), &y)
}

/// Record a checked-out branch as most-recent (deduped, capped at 5).
pub fn push_recent(recents: &mut Vec<String>, name: &str)
    ensures
        views(final(recents)@) == push_recent_spec(views(old(recents)@), name@),
{
    let ghost s = views(recents@);
    let mut kept: Vec<String> = Vec::new();
    kept.push(string_from(name));
    let mut i: usize = 0;
    while i < recents.len()
        invariant
            s == views(recents@),
            0 <= i <= recents@.len(),
            views(kept@) == seq![name@] + without(s.take(i as int), name@),
        decreases recents@.len() - i,
    {
        assert(s.take(i + 1).drop_last() =~= s.take(i as int));
        assert(s.take(i + 1).last() == recents@[i as int]@);
        let ghost before = views(kept@);
        if !same_str(recents[i].as_str(), name) {
            kept.push(string_from(recents[i].as_str()));
            assert(views(kept@) =~= before.push(recents@[i as int]@));
        } else {
            assert(views(kept@) =~= before);
        }
        i += 1;
    }
    assert(s.take(i as int) =~= s);
    if kept.len() > 5 {
        kept.truncate(5);
        assert(views(kept@) =~= (seq![name@] + without(s, name@)).take(5));
    }
    *recents = kept;
}

/// Bottom info strip for multi-root projects.
pub fn sync_notice(roots: usize) -> (r: String)
    ensures
        r@ == "Synchronous branch operations across "@ + decimal(roots as nat) + " repositories"@,
{
    let mut s = string_from("Synchronous branch operations across ");
    push_decimal(&mut s, roots as u64);
    push_str(&mut s, " repositories");
    s
}

/// Compact last-touched age: under a minute `now`, then minutes, hours,
/// days, weeks (under five weeks), months (of 30 days, under a year), and
/// years (of 365 days), each the largest whole unit.
pub open spec fn stale_badge_spec(secs: nat) -> Seq<char> {
    if secs < 60 {
        "now"@
    } else if secs < 3600 {
        decimal(secs / 60) + "m"@
    } else if secs < 86400 {
        decimal(secs / 3600) + "h"@
    } else if secs < 604800 {
        decimal(secs / 86400) + "d"@
    } else if secs < 3024000 {
        decimal(secs / 604800) + "w"@
    } else if secs < 31536000 {
        decimal(secs / 2592000) + "mo"@
    } else {
        decimal(secs / 31536000) + "y"@
    }
}

/// The unit of a stale badge, ranked: `now`, m, h, d, w, mo, y.
pub open spec fn stale_unit(secs: nat) -> nat {
    if secs < 60 {
        0
    } else if secs < 3600 {
        1
    } else if secs < 86400 {
        2
    } else if secs < 604800 {
        3
    } else if secs < 3024000 {
        4
    } else if secs < 31536000 {
        5
    } else {
        6
    }
}

/// The number a stale badge shows in its unit (none for `now`).
pub open spec fn stale_count(secs: nat) -> nat {
    let u = stale_unit(secs);
    if u == 0 {
        0
    } else if u == 1 {
        secs / 60
    } else if u == 2 {
        secs / 3600
    } else if u == 3 {
        secs / 86400
    } else if u == 4 {
        secs / 604800
    } else if u == 5 {
        secs / 2592000
    } else {
        secs / 31536000
    }
}

/// A stale badge grows with the age: an older age never shows a smaller unit,
/// nor a smaller number in the same unit; every badge but `now` shows at
/// least one, and each unit stays below the next (at most 59 minutes, 23
/// hours, 6 days, 4 weeks, 12 months).
pub proof fn lemma_stale_badge_grows(a: nat, b: nat)
    requires
        a <= b,
    ensures
        stale_badge_spec(a) == if stale_unit(a) == 0 {
            "now"@
        } else {
            decimal(stale_count(a)) + [seq!['m'], seq!['h'], seq!['d'], seq!['w'], "mo"@, seq!['y']][stale_unit(a) - 1]
        },
        stale_unit(a) < stale_unit(b) || (stale_unit(a) == stale_unit(b) && stale_count(a) <= stale_count(b)),
        stale_unit(a) > 0 ==> stale_count(a) >= 1,
        stale_unit(a) == 1 ==> stale_count(a) <= 59,
        stale_unit(a) == 2 ==> stale_count(a) <= 23,
        stale_unit(a) == 3 ==> stale_count(a) <= 6,
        stale_unit(a) == 4 ==> stale_count(a) <= 4,
        stale_unit(a) == 5 ==> stale_count(a) <= 12,
{
    vstd::arithmetic::div_mod::lemma_div_is_ordered(a as int, b as int, 60);
    vstd::arithmetic::div_mod::lemma_div_is_ordered(a as int, b as int, 3600);
    vstd::arithmetic::div_mod::lemma_div_is_ordered(a as int, b as int, 86400);
    vstd::arithmetic::div_mod::lemma_div_is_ordered(a as int, b as int, 604800);
    vstd::arithmetic::div_mod::lemma_div_is_ordered(a as int, b as int, 2592000);
    vstd::arithmetic::div_mod::lemma_div_is_ordered(a as int, b as int, 31536000);
    reveal_strlit("m");
    reveal_strlit("h");
    reveal_strlit("d");
    reveal_strlit("w");
    reveal_strlit("y");
}

/// The badge for an age of `secs` whole seconds.
pub fn stale_badge_secs(secs: u64) -> (r: String)
    ensures
        r@ == stale_badge_spec(secs as nat),
{
    if secs < 60 {
        return string_from("now");
    }
    let (n, unit) = if secs < 3600 {
        (secs / 60, "m")
    } else if secs < 86400 {
        (secs / 3600, "h")
    } else if secs < 604800 {
        (secs / 86400, "d")
    } else if secs < 3024000 {
        (secs / 604800, "w")
    } else if secs < 31536000 {
        (secs / 2592000, "mo")
    } else {
        (secs / 31536000, "y")
    };
    let mut s = String::new();
    push_decimal(&mut s, n);
    push_str(&mut s, unit);
    s
}

/// What `Duration::as_secs` returns for `d`: its whole seconds.
pub uninterp spec fn duration_secs(d: std::time::Duration) -> u64;

/// `Duration::as_secs`.
#[verifier::external_body]
fn as_secs(d: std::time::Duration) -> (r: u64)
    ensures
        r == duration_secs(d),
{
    d.as_secs()
}

/// Compact last-touched age for the popup's stale badge ("3w").
pub fn stale_badge(age: std::time::Duration) -> (r: String)
    ensures
        r@ == stale_badge_spec(duration_secs(age) as nat),
{
    stale_badge_secs(as_secs(age))
}

/// Sync marker for a remote row: `gone` when the tracked upstream was
/// deleted, `↑a ↓b` when the local counterpart diverged, nothing in sync.
pub open spec fn remote_marker_spec(ahead: nat, behind: nat, gone: bool) -> Option<Seq<char>> {
    if gone {
        Some("gone"@)
    } else if ahead > 0 || behind > 0 {
        Some("↑"@ + decimal(ahead) + " ↓"@ + decimal(behind))
    } else {
        None
    }
}

/// Sync marker for a remote row.
pub fn remote_marker(ahead: usize, behind: usize, gone: bool) -> (r: Option<String>)
    ensures
        opt_view(r) == remote_marker_spec(ahead as nat, behind as nat, gone),
{
    if gone {
        Some(string_from("gone"))
    } else if ahead > 0 || behind > 0 {
        let mut s = string_from("↑");
        push_decimal(&mut s, ahead as u64);
        push_str(&mut s, " ↓");
        push_decimal(&mut s, behind as u64);
        Some(s)
    } else {
        None
    }
}

// --- row actions ------------------------------------------------------------------

/// Which row actions are offered and enabled for one popup entry.
#[derive(Clone, Copy, Debug, PartialEq, Eq, Structural)]
pub struct RowActions {
    /// Delete is offered and enabled.
    pub delete: bool,
    /// Rename is offered and enabled (local branches only).
    pub rename: bool,
    /// The row is a protected branch.
    pub protected: bool,
}

/// The row is the current branch.
pub open spec fn is_current(e: PopupView, current: Option<Seq<char>>) -> bool {
    current == Some(entry_name(e))
}

/// Gating rules for one popup row: destructive actions are gated on
/// protected branches; the current branch can never be deleted; tags are
/// neither deletable nor renameable; a vanished branch offers neither.
pub open spec fn row_actions_spec(e: PopupView, current: Option<Seq<char>>, protected: bool, exists: bool) -> RowActions {
    let deletable = exists && !(e is Tag);
    let renameable = exists && (e is Recent || e is Local);
    RowActions {
        delete: deletable && !is_current(e, current) && !protected,
        rename: renameable && !is_current(e, current),
        protected,
    }
}

fn is_current_row(entry: &PopupEntry, current: Option<&str>) -> (r: bool)
    ensures
        r == is_current(entry@, opt_str_view(current)),
{
    match current {
        Some(c) => same_str(entry.branch_name(), c),
        None => false,
    }
}

/// Gating rules for one popup row.
pub fn row_actions(entry: &PopupEntry, current: Option<&str>, protected: bool, exists: bool) -> (r: RowActions)
    ensures
        r == row_actions_spec(entry@, opt_str_view(current), protected, exists),
{
    let cur = is_current_row(entry, current);
    let deletable = exists && match entry {
        PopupEntry::Tag { .. } => false,
        _ => true,
    };
    let renameable = exists && match entry {
        PopupEntry::Recent { .. } | PopupEntry::Local { .. } => true,
        _ => false,
    };
    RowActions { delete: deletable && !cur && !protected, rename: renameable && !cur, protected }
}

/// Why Delete is gated on a row, or `None` when it is enabled.
pub open spec fn delete_gate_spec(e: PopupView, current: Option<Seq<char>>, protected: bool, exists: bool) -> Option<Seq<char>> {
    if row_actions_spec(e, current, protected, exists).delete {
        None
    } else if !exists {
        Some("this branch no longer exists"@)
    } else if is_current(e, current) {
        Some("check out another branch first"@)
    } else if protected {
        Some("protected branches cannot be deleted"@)
    } else {
        Some("tags are not deleted from here"@)
    }
}

/// Why Delete is gated on this row, or `None` when it is enabled.
pub fn delete_gate(entry: &PopupEntry, current: Option<&str>, protected: bool, exists: bool) -> (r: Option<&'static str>)
    ensures
        match r {
            Some(s) => delete_gate_spec(entry@, opt_str_view(current), protected, exists) == Some(s@),
            None => delete_gate_spec(entry@, opt_str_view(current), protected, exists) is None,
        },
{
    if row_actions(entry, current, protected, exists).delete {
        return None;
    }
    Some(
        if !exists {
            "this branch no longer exists"
        } else if is_current_row(entry, current) {
            "check out another branch first"
        } else if protected {
            "protected branches cannot be deleted"
        } else {
            "tags are not deleted from here"
        },
    )
}

/// Why Rename is gated on a row, or `None` when it is enabled.
pub open spec fn rename_gate_spec(e: PopupView, current: Option<Seq<char>>, protected: bool, exists: bool) -> Option<Seq<char>> {
    if row_actions_spec(e, current, protected, exists).rename {
        None
    } else if e is Remote {
        Some("remote branches cannot be renamed"@)
    } else if e is Tag {
        Some("tags cannot be renamed"@)
    } else if !exists {
        Some("this branch no longer exists"@)
    } else {
        Some("the current branch cannot be renamed from here"@)
    }
}

/// Why Rename is gated on this row, or `None` when it is enabled.
pub fn rename_gate(entry: &PopupEntry, current: Option<&str>, protected: bool, exists: bool) -> (r: Option<&'static str>)
    ensures
        match r {
            Some(s) => rename_gate_spec(entry@, opt_str_view(current), protected, exists) == Some(s@),
            None => rename_gate_spec(entry@, opt_str_view(current), protected, exists) is None,
        },
{
    if row_actions(entry, current, protected, exists).rename {
        return None;
    }
    Some(
        match entry {
            PopupEntry::Remote { .. } => "remote branches cannot be renamed",
            PopupEntry::Tag { .. } => "tags cannot be renamed",
            _ => if !exists {
                "this branch no longer exists"
            } else {
                "the current branch cannot be renamed from here"
            },
        },
    )
}

// --- status-bar widget, checkout, row intents ---------------------------------------------

/// The status-bar branch indicator: "⎇ <current branch>", or "⎇ <detached>"
/// without one.
pub fn widget_label(current: Option<&str>) -> (r: String)
    ensures
        r@ == "⎇ "@ + match current {
            Some(c) => c@,
            None => "<detached>"@,
        },
{
    let mut s = string_from("⎇ ");
    match current {
        Some(c) => push_str(&mut s, c),
        None => push_str(&mut s, "<detached>"),
    }
    s
}

/// The git work a popup row's checkout runs.
#[derive(Clone, Debug, PartialEq, Eq)]
pub enum CheckoutCommand {
    /// Check out the local branch `name`.
    Branch { name: String },
    /// Create the local branch `name` from `start` and check it out.
    CreateFrom { name: String, start: String },
    /// Check out the tag `name`.
    Tag { name: String },
}

/// The mathematical value of a [`CheckoutCommand`].
pub enum CheckoutView {
    Branch { name: Seq<char> },
    CreateFrom { name: Seq<char>, start: Seq<char> },
    Tag { name: Seq<char> },
}

impl View for CheckoutCommand {
    type V = CheckoutView;

    open spec fn view(&self) -> CheckoutView {
        match self {
            CheckoutCommand::Branch { name } => CheckoutView::Branch { name: name@ },
            CheckoutCommand::CreateFrom { name, start } => CheckoutView::CreateFrom { name: name@, start: start@ },
            CheckoutCommand::Tag { name } => CheckoutView::Tag { name: name@ },
        }
    }
}

/// What checking a row out does: the operation's label and git work. A
/// recent or local row checks its branch out; a remote row creates the
/// local branch from `origin/<name>`; a tag row checks the tag out.
pub open spec fn checkout_spec(e: PopupView) -> (Seq<char>, CheckoutView) {
    match e {
        PopupView::Recent { name, .. } => ("Checkout "@ + name, CheckoutView::Branch { name }),
        PopupView::Local { name, .. } => ("Checkout "@ + name, CheckoutView::Branch { name }),
        PopupView::Remote { name, .. } => (
            "Checkout "@ + name + " (new local)"@,
            CheckoutView::CreateFrom { name, start: "origin/"@ + name },
        ),
        PopupView::Tag { name } => ("Checkout "@ + name, CheckoutView::Tag { name }),
    }
}

/// Checks a popup row out: a branch row (not a tag) moves to the front of
/// the recent branches; the result is the operation's label and the git
/// work to run, after which the popup closes.
pub fn checkout_entry(recents: &mut Vec<String>, e: &PopupEntry) -> (r: (String, CheckoutCommand))
    ensures
        (r.0@, r.1@) == checkout_spec(e@),
        match e@ {
            PopupView::Tag { .. } => views(final(recents)@) == views(old(recents)@),
            _ => views(final(recents)@) == push_recent_spec(views(old(recents)@), entry_name(e@)),
        },
{
    match e {
        PopupEntry::Recent { name, .. } | PopupEntry::Local { name, .. } => {
            push_recent(recents, name.as_str());
            let mut label = string_from("Checkout ");
            push_str(&mut label, name.as_str());
            (label, CheckoutCommand::Branch { name: string_from(name.as_str()) })
        },
        PopupEntry::Remote { name, .. } => {
            push_recent(recents, name.as_str());
            let mut label = string_from("Checkout ");
            push_str(&mut label, name.as_str());
            push_str(&mut label, " (new local)");
            let mut start = string_from("origin/");
            push_str(&mut start, name.as_str());
            (label, CheckoutCommand::CreateFrom { name: string_from(name.as_str()), start })
        },
        PopupEntry::Tag { name } => {
            let mut label = string_from("Checkout ");
            push_str(&mut label, name.as_str());
            (label, CheckoutCommand::Tag { name: string_from(name.as_str()) })
        },
    }
}

/// The confirmation a row's Delete asks for.
#[derive(Clone, Debug, PartialEq, Eq)]
pub enum DeleteConfirm {
    /// Delete the branch `name` on `remote`.
    RemoteBranch { remote: String, name: String },
    /// Delete the local branch `name`.
    LocalBranch { name: String },
}

/// The confirmation a row's Delete routes through: a remote row deletes the
/// branch on `origin`, a recent or local row the local branch, a tag row
/// nothing.
pub fn delete_confirm(e: &PopupEntry) -> (r: Option<DeleteConfirm>)
    ensures
        match e@ {
            PopupView::Remote { name, .. } => (r matches Some(DeleteConfirm::RemoteBranch { remote, name: n })
                && remote@ == "origin"@ && n@ == name),
            PopupView::Tag { .. } => r is None,
            _ => (r matches Some(DeleteConfirm::LocalBranch { name: n }) && n@ == entry_name(e@)),
        },
{
    match e {
        PopupEntry::Remote { name, .. } => Some(
            DeleteConfirm::RemoteBranch { remote: string_from("origin"), name: string_from(name.as_str()) },
        ),
        PopupEntry::Recent { name, .. } | PopupEntry::Local { name, .. } => Some(
            DeleteConfirm::LocalBranch { name: string_from(name.as_str()) },
        ),
        PopupEntry::Tag { .. } => None,
    }
}


// --- popup keyboard ------------------------------------------------------------------

/// The keys pressed in one frame while the popup is drawn.
#[derive(Clone, Copy, Debug, PartialEq, Eq, Structural)]
pub struct PopupKeys {
    pub escape: bool,
    pub up: bool,
    pub down: bool,
    pub enter: bool,
}

/// What the popup does with a frame's keys.
#[derive(Clone, Copy, Debug, PartialEq, Eq, Structural)]
pub enum PopupAction {
    Nothing,
    /// Escape closed the popup.
    Close,
    /// Enter checks out the entry at this row (and the checkout closes the
    /// popup).
    Checkout(usize),
}

/// One frame of the popup's keyboard: a closed popup ignores keys; Escape
/// closes it; otherwise, over `n` rows, Down then Up move the highlight one
/// row within the list, the highlight is kept inside it, and Enter checks
/// out the highlighted row. The result is whether the popup stays open, the
/// highlight, and the action.
pub open spec fn popup_keys_spec(open: bool, cursor: nat, keys: PopupKeys, n: nat) -> (bool, nat, PopupAction) {
    if !open {
        (false, cursor, PopupAction::Nothing)
    } else if keys.escape {
        (false, cursor, PopupAction::Close)
    } else {
        let c1: nat = if n > 0 && keys.down {
            if cursor + 1 < n {
                cursor + 1
            } else {
                (n - 1) as nat
            }
        } else {
            cursor
        };
        let c2: nat = if n > 0 && keys.up {
            if c1 > 0 {
                (c1 - 1) as nat
            } else {
                0
            }
        } else {
            c1
        };
        let last: nat = if n > 0 {
            (n - 1) as nat
        } else {
            0
        };
        let c3: nat = if c2 < last {
            c2
        } else {
            last
        };
        if keys.enter && n > 0 {
            (false, c3, PopupAction::Checkout(c3 as usize))
        } else {
            (true, c3, PopupAction::Nothing)
        }
    }
}

/// The popup's keyboard decision for one frame.
pub fn popup_keys(open: bool, cursor: usize, keys: PopupKeys, n: usize) -> (r: (bool, usize, PopupAction))
    requires
        cursor < usize::MAX,
    ensures
        (r.0, r.1 as nat, r.2) == popup_keys_spec(open, cursor as nat, keys, n as nat),
{
    if !open {
        return (false, cursor, PopupAction::Nothing);
    }
    if keys.escape {
        return (false, cursor, PopupAction::Close);
    }
    let mut c = cursor;
    if n > 0 {
        if keys.down {
            c = if c + 1 < n {
                c + 1
            } else {
                n - 1
            };
        }
        if keys.up {
            c = if c > 0 {
                c - 1
            } else {
                0
            };
        }
    }
    let last = if n > 0 {
        n - 1
    } else {
        0
    };
    if c > last {
        c = last;
    }
    if keys.enter && n > 0 {
        (false, c, PopupAction::Checkout(c))
    } else {
        (true, c, PopupAction::Nothing)
    }
}

/// Whether a popup row's ref still exists: remote and tag rows exist by
/// definition; a recent or local row while its branch is listed locally.
pub open spec fn entry_exists_spec(e: PopupView, locals: Seq<BranchValue>) -> bool {
    match e {
        PopupView::Remote { .. } | PopupView::Tag { .. } => true,
        _ => exists|i: int| 0 <= i < locals.len() && #[trigger] locals[i].name == entry_name(e),
    }
}

/// Whether a popup row's ref still exists among the local branches.
pub fn entry_exists(e: &PopupEntry, locals: &[Branch]) -> (r: bool)
    ensures
        r == entry_exists_spec(e@, views(locals@)),
{
    match e {
        PopupEntry::Remote { .. } | PopupEntry::Tag { .. } => true,
        _ => {
            let name = e.branch_name();
            let mut i: usize = 0;
            while i < locals.len()
                invariant
                    0 <= i <= locals@.len(),
                    name@ == entry_name(e@),
                    forall|j: int| 0 <= j < i ==> views(locals@)[j].name != name@,
                decreases locals@.len() - i,
            {
                if str_eq(locals[i].name.as_str(), name) {
                    assert(views(locals@)[i as int].name == name@);
                    return true;
                }
                i = i + 1;
            }
            false
        },
    }
}

} // verus!
