//! What the parsed rows and the display model of a diff guarantee: each
//! line gives one row shaped by its first characters; line numbers follow
//! the hunk header, advanced by the lines each side has; hunks and changed
//! lines are numbered in order; every raw ordinal maps to the display element
//! that holds its row and lands in the display exactly once; every hunk maps,
//! in order, to its own header row, and the unified view's jump target is
//! that header's raw row.

use vstd::prelude::*;

use crate::diff_model::{
    fold_rows, fold_step, flush, header_row, hunk_starts_spec, is_changed, is_meta_line, model_spec, nth,
    of_kind, parse_lines, parse_spec, with_ords, DisplayView, FileMetaView, FoldState, RowKind, RowView,
};
use crate::text::{lines, starts_with};

verus! {

/// The raw ordinal of an optional row, as a sequence of zero or one.
pub open spec fn opt_ord(o: Option<RowView>) -> Seq<nat> {
    match o {
        Some(r) => seq![r.ord],
        None => seq![],
    }
}

/// The raw ordinals one display element holds.
pub open spec fn row_ords(d: DisplayView) -> Seq<nat> {
    match d {
        DisplayView::Full(r) => seq![r.ord],
        DisplayView::Pair(a, b) => opt_ord(a) + opt_ord(b),
    }
}

/// The raw ordinals of a display, element by element.
pub open spec fn display_ords(s: Seq<DisplayView>) -> Seq<nat>
    decreases s.len(),
{
    if s.len() == 0 {
        seq![]
    } else {
        display_ords(s.drop_last()) + row_ords(s.last())
    }
}

/// The index maps of a fold state are right: as many raw ordinals as the
/// display holds rows, each mapped to an element that holds it, and each
/// hunk mapped, in increasing order, to a full-width hunk header.
pub open spec fn maps_ok(st: FoldState) -> bool {
    &&& display_ords(st.display).len() == st.raw_to_display.len()
    &&& forall|o: int|
        0 <= o < st.raw_to_display.len() ==> (#[trigger] st.raw_to_display[o] as int) < st.display.len()
            && row_ords(st.display[st.raw_to_display[o] as int]).contains(o as nat)
    &&& forall|h: int|
        0 <= h < st.hunk_first_display.len() ==> (#[trigger] st.hunk_first_display[h] as int)
            < st.display.len() && (st.display[st.hunk_first_display[h] as int] matches DisplayView::Full(r)
            && r.kind == RowKind::Hunk)
    &&& forall|h: int, g: int|
        0 <= h < g < st.hunk_first_display.len() ==> #[trigger] st.hunk_first_display[h]
            < #[trigger] st.hunk_first_display[g]
}

proof fn lemma_display_ords_append(a: Seq<DisplayView>, b: Seq<DisplayView>)
    ensures
        display_ords(a + b) == display_ords(a) + display_ords(b),
    decreases b.len(),
{
    if b.len() == 0 {
        assert(a + b =~= a);
        assert(display_ords(a) + display_ords(b) =~= display_ords(a));
    } else {
        lemma_display_ords_append(a, b.drop_last());
        assert((a + b).drop_last() =~= a + b.drop_last());
        assert(display_ords(a) + display_ords(b) =~= display_ords(a) + display_ords(b.drop_last())
            + row_ords(b.last()));
    }
}

proof fn lemma_display_ords_push(a: Seq<DisplayView>, x: DisplayView)
    ensures
        display_ords(a.push(x)) == display_ords(a) + row_ords(x),
{
    assert(a.push(x).drop_last() =~= a);
}

proof fn lemma_display_ords_contains(s: Seq<DisplayView>, i: int, o: nat)
    requires
        0 <= i < s.len(),
        row_ords(s[i]).contains(o),
    ensures
        display_ords(s).contains(o),
    decreases s.len(),
{
    let p = s.drop_last();
    let t = row_ords(s.last());
    if i == s.len() - 1 {
        let k = choose|k: int| 0 <= k < t.len() && t[k] == o;
        assert((display_ords(p) + t)[display_ords(p).len() + k] == o);
    } else {
        lemma_display_ords_contains(p, i, o);
        let k = choose|k: int| 0 <= k < display_ords(p).len() && display_ords(p)[k] == o;
        assert((display_ords(p) + t)[k] == o);
    }
}

/// The pairs of a run: pair `j` holds the `j`-th Del and the `j`-th Add.
pub open spec fn pairs_of(dels: Seq<RowView>, adds: Seq<RowView>, m: nat) -> Seq<DisplayView> {
    Seq::new(m, |j: int| DisplayView::Pair(nth(dels, j), nth(adds, j)))
}

proof fn lemma_pairs_len(dels: Seq<RowView>, adds: Seq<RowView>, m: nat)
    ensures
        display_ords(pairs_of(dels, adds, m)).len() == (if m < dels.len() {
            m as int
        } else {
            dels.len() as int
        }) + (if m < adds.len() {
            m as int
        } else {
            adds.len() as int
        }),
    decreases m,
{
    if m > 0 {
        lemma_pairs_len(dels, adds, (m - 1) as nat);
        assert(pairs_of(dels, adds, m).drop_last() =~= pairs_of(dels, adds, (m - 1) as nat));
    }
}

proof fn lemma_rank(p: Seq<RowView>, k: int)
    requires
        0 <= k < p.len(),
    ensures
        of_kind(p.take(k), p[k].kind).len() < of_kind(p, p[k].kind).len(),
        of_kind(p, p[k].kind)[of_kind(p.take(k), p[k].kind).len() as int] == p[k],
    decreases p.len(),
{
    let q = p.drop_last();
    let kk = p[k].kind;
    if k == p.len() - 1 {
        assert(p.take(k) =~= q);
    } else {
        lemma_rank(q, k);
        assert(q.take(k) =~= p.take(k));
        assert(q[k] == p[k]);
    }
}

proof fn lemma_kinds_partition(p: Seq<RowView>)
    requires
        forall|k: int| 0 <= k < p.len() ==> is_changed(#[trigger] p[k].kind),
    ensures
        of_kind(p, RowKind::Del).len() + of_kind(p, RowKind::Add).len() == p.len(),
    decreases p.len(),
{
    if p.len() > 0 {
        lemma_kinds_partition(p.drop_last());
        assert(is_changed(p[p.len() - 1].kind));
    }
}

proof fn lemma_flush_ok(st: FoldState)
    requires
        maps_ok(st),
        forall|k: int| 0 <= k < st.pending.len() ==> is_changed(#[trigger] st.pending[k].kind),
        forall|k: int|
            0 <= k < st.pending.len() ==> (#[trigger] st.pending[k]).ord == st.raw_to_display.len() + k,
        st.display.len() + st.pending.len() <= u32::MAX,
    ensures
        maps_ok(flush(st)),
        flush(st).raw_to_display.len() == st.raw_to_display.len() + st.pending.len(),
        flush(st).display.len() <= st.display.len() + st.pending.len(),
        flush(st).hunk_first_display == st.hunk_first_display,
        flush(st).pending.len() == 0,
        flush(st).display.len() >= st.display.len(),
        forall|i: int| 0 <= i < st.display.len() ==> #[trigger] flush(st).display[i] == st.display[i],
{
    let p = st.pending;
    let dels = of_kind(p, RowKind::Del);
    let adds = of_kind(p, RowKind::Add);
    let n: nat = if dels.len() >= adds.len() {
        dels.len()
    } else {
        adds.len()
    };
    let base = st.display.len();
    let f = flush(st);
    let pr = pairs_of(dels, adds, n);
    lemma_kinds_partition(p);
    assert(f.display == st.display + pr);
    lemma_display_ords_append(st.display, pr);
    lemma_pairs_len(dels, adds, n);
    assert forall|o: int| 0 <= o < f.raw_to_display.len() implies (#[trigger] f.raw_to_display[o] as int)
        < f.display.len() && row_ords(f.display[f.raw_to_display[o] as int]).contains(o as nat) by {
        if o < st.raw_to_display.len() {
            assert(f.raw_to_display[o] == st.raw_to_display[o]);
            assert(f.display[st.raw_to_display[o] as int] == st.display[st.raw_to_display[o] as int]);
        } else {
            let k = o - st.raw_to_display.len();
            let kind = p[k].kind;
            lemma_rank(p, k);
            crate::diff_model::lemma_of_kind_len(p.take(k), kind);
            let rank = of_kind(p.take(k), kind).len();
            assert(f.raw_to_display[o] == (base + rank) as u32);
            assert((base + rank) as u32 == base + rank);
            assert(f.display[(base + rank) as int] == pr[rank as int]);
            assert(p[k].ord == o);
            if kind == RowKind::Del {
                assert(nth(dels, rank as int) == Some(p[k]));
                assert(row_ords(pr[rank as int]) =~= seq![p[k].ord] + opt_ord(nth(adds, rank as int)));
                assert(row_ords(pr[rank as int])[0] == o);
            } else {
                assert(kind == RowKind::Add);
                assert(nth(adds, rank as int) == Some(p[k]));
                let before = opt_ord(nth(dels, rank as int));
                assert(row_ords(pr[rank as int]) =~= before + seq![p[k].ord]);
                assert(row_ords(pr[rank as int])[before.len() as int] == o);
            }
        }
    }
    assert forall|h: int| 0 <= h < f.hunk_first_display.len() implies (#[trigger] f.hunk_first_display[h]
        as int) < f.display.len() && (f.display[f.hunk_first_display[h] as int] matches DisplayView::Full(r)
        && r.kind == RowKind::Hunk) by {
        assert(f.display[st.hunk_first_display[h] as int] == st.display[st.hunk_first_display[h] as int]);
    }
}

/// Folding keeps the maps right: after `i` rows, the ordinals mapped plus
/// the rows still pending are all the rows so far, the pending rows are the
/// most recent changed ones, and every hunk so far has its entry.
proof fn lemma_fold_ok(start: FoldState, rows: Seq<RowView>, off: nat, i: int)
    requires
        maps_ok(start),
        start.pending.len() == 0,
        start.raw_to_display.len() == off,
        start.display.len() <= off,
        start.hunk_first_display.len() == 0,
        forall|j: int| 0 <= j < rows.len() ==> (#[trigger] rows[j]).ord == off + j,
        off + rows.len() <= u32::MAX,
        0 <= i <= rows.len(),
    ensures
        ({
            let st = fold_rows(start, rows.take(i));
            &&& maps_ok(st)
            &&& st.raw_to_display.len() + st.pending.len() == off + i
            &&& st.display.len() + st.pending.len() <= off + i
            &&& forall|k: int| 0 <= k < st.pending.len() ==> is_changed(#[trigger] st.pending[k].kind)
            &&& forall|k: int|
                0 <= k < st.pending.len() ==> (#[trigger] st.pending[k]).ord == st.raw_to_display.len() + k
            &&& st.hunk_first_display.len() == of_kind(rows.take(i), RowKind::Hunk).len()
        }),
    decreases i,
{
    if i == 0 {
        assert(rows.take(0) =~= Seq::<RowView>::empty());
    } else {
        lemma_fold_ok(start, rows, off, i - 1);
        let st = fold_rows(start, rows.take(i - 1));
        let r = rows[i - 1];
        assert(rows.take(i).drop_last() =~= rows.take(i - 1));
        assert(rows.take(i).last() == r);
        assert(fold_rows(start, rows.take(i)) == fold_step(st, r));
        if is_changed(r.kind) {
            let nx = fold_step(st, r);
            assert(nx.pending == st.pending.push(r));
            assert(r.kind != RowKind::Hunk);
        } else {
            lemma_flush_ok(st);
            let f = flush(st);
            let nx = fold_step(st, r);
            let item = DisplayView::Full(r);
            assert(nx.display == f.display.push(item));
            lemma_display_ords_push(f.display, item);
            assert((f.display.len() as u32) as int == f.display.len());
            assert(nx.raw_to_display == f.raw_to_display.push(f.display.len() as u32));
            assert forall|o: int| 0 <= o < nx.raw_to_display.len() implies (
            #[trigger] nx.raw_to_display[o] as int) < nx.display.len() && row_ords(
                nx.display[nx.raw_to_display[o] as int],
            ).contains(o as nat) by {
                if o < f.raw_to_display.len() {
                    assert(nx.raw_to_display[o] == f.raw_to_display[o]);
                    assert(nx.display[f.raw_to_display[o] as int] == f.display[f.raw_to_display[o] as int]);
                } else {
                    assert(nx.raw_to_display[o] == f.display.len() as u32);
                    assert(row_ords(item)[0] == o);
                }
            }
            assert forall|h: int| 0 <= h < nx.hunk_first_display.len() implies (
            #[trigger] nx.hunk_first_display[h] as int) < nx.display.len() && (nx.display[nx.hunk_first_display[h]
                as int] matches DisplayView::Full(x) && x.kind == RowKind::Hunk) by {
                if h < f.hunk_first_display.len() {
                    assert(nx.hunk_first_display[h] == f.hunk_first_display[h]);
                    assert(nx.display[f.hunk_first_display[h] as int] == f.display[f.hunk_first_display[h] as int]);
                } else {
                    assert(nx.hunk_first_display[h] == f.display.len() as u32);
                }
            }
            assert forall|h: int, g: int| 0 <= h < g < nx.hunk_first_display.len() implies #[trigger] nx.hunk_first_display[h]
                < #[trigger] nx.hunk_first_display[g] by {
                if g < f.hunk_first_display.len() {
                    assert(nx.hunk_first_display[h] == f.hunk_first_display[h]);
                    assert(nx.hunk_first_display[g] == f.hunk_first_display[g]);
                } else {
                    assert(nx.hunk_first_display[h] == f.hunk_first_display[h]);
                    assert(nx.hunk_first_display[g] == f.display.len() as u32);
                }
            }
        }
    }
}

proof fn lemma_with_ords(rows: Seq<RowView>, off: nat)
    ensures
        with_ords(rows, off).len() == rows.len(),
        forall|j: int| 0 <= j < rows.len() ==> (#[trigger] with_ords(rows, off)[j]).ord == off + j,
        of_kind(with_ords(rows, off), RowKind::Hunk).len() == of_kind(rows, RowKind::Hunk).len(),
    decreases rows.len(),
{
    if rows.len() > 0 {
        lemma_with_ords(rows.drop_last(), off);
        assert(with_ords(rows, off).drop_last() =~= with_ords(rows.drop_last(), off));
    }
}

/// The natural numbers below `n`.
pub open spec fn below(n: nat) -> Set<nat> {
    Set::new(|x: nat| x < n)
}

proof fn lemma_below(n: nat)
    ensures
        below(n).finite(),
        below(n).len() == n,
    decreases n,
{
    if n == 0 {
        assert(below(n) =~= Set::empty());
    } else {
        lemma_below((n - 1) as nat);
        assert(below((n - 1) as nat).insert((n - 1) as nat) =~= below(n));
    }
}

/// A sequence of `n` naturals holding every one below `n` holds each once.
proof fn lemma_pigeonhole(s: Seq<nat>, n: nat)
    requires
        s.len() == n,
        forall|x: nat| x < n ==> s.contains(x),
    ensures
        s.no_duplicates(),
{
    broadcast use vstd::seq_lib::seq_to_set_is_finite;

    lemma_below(n);
    assert(below(n).subset_of(s.to_set()));
    vstd::set_lib::lemma_len_subset(below(n), s.to_set());
    s.lemma_cardinality_of_set();
    s.lemma_no_dup_set_cardinality();
}

/// The display model's index maps: every raw ordinal below `raw_count` maps
/// to the display element that holds its row; the display holds
/// `raw_count` rows and every raw ordinal lands in it exactly once; every
/// hunk maps, in increasing order, to a full-width hunk header row, one
/// entry per hunk row.
pub proof fn lemma_model_maps(rows: Seq<RowView>, files: Seq<FileMetaView>)
    requires
        rows.len() + 1 <= u32::MAX,
    ensures
        ({
            let m = model_spec(rows, files);
            &&& m.raw_to_display.len() == m.raw_count
            &&& forall|o: int|
                0 <= o < m.raw_count ==> (#[trigger] m.raw_to_display[o] as int) < m.display.len()
                    && row_ords(m.display[m.raw_to_display[o] as int]).contains(o as nat)
            &&& display_ords(m.display).len() == m.raw_count
            &&& display_ords(m.display).no_duplicates()
            &&& forall|x: nat| x < m.raw_count ==> display_ords(m.display).contains(x)
            &&& forall|h: int|
                0 <= h < m.hunk_first_display.len() ==> (#[trigger] m.hunk_first_display[h] as int)
                    < m.display.len() && (m.display[m.hunk_first_display[h] as int] matches DisplayView::Full(r)
                    && r.kind == RowKind::Hunk)
            &&& forall|h: int, g: int|
                0 <= h < g < m.hunk_first_display.len() ==> #[trigger] m.hunk_first_display[h]
                    < #[trigger] m.hunk_first_display[g]
            &&& m.hunk_first_display.len() == of_kind(rows, RowKind::Hunk).len()
        }),
{
    let header = crate::diff_model::first_rename_header(files);
    let off: nat = if header is Some {
        1
    } else {
        0
    };
    let start = match header {
        Some(h) => FoldState {
            display: seq![DisplayView::Full(header_row(h))],
            raw_to_display: seq![0u32],
            hunk_first_display: seq![],
            pending: seq![],
        },
        None => FoldState {
            display: seq![],
            raw_to_display: seq![],
            hunk_first_display: seq![],
            pending: seq![],
        },
    };
    let ords = with_ords(rows, off);
    lemma_with_ords(rows, off);
    if header is Some {
        lemma_display_ords_push(Seq::<DisplayView>::empty(), start.display[0]);
        assert(Seq::<DisplayView>::empty().push(start.display[0]) =~= start.display);
        assert(row_ords(start.display[0])[0] == 0);
    } else {
        assert(display_ords(start.display).len() == 0);
    }
    assert(maps_ok(start));
    lemma_fold_ok(start, ords, off, ords.len() as int);
    assert(ords.take(ords.len() as int) =~= ords);
    let st = fold_rows(start, ords);
    lemma_flush_ok(st);
    let m = model_spec(rows, files);
    assert(m.display == flush(st).display);
    assert forall|x: nat| x < m.raw_count implies display_ords(m.display).contains(x) by {
        let o = x as int;
        assert(m.raw_to_display[o] == flush(st).raw_to_display[o]);
        lemma_display_ords_contains(m.display, m.raw_to_display[o] as int, x);
    }
    lemma_pigeonhole(display_ords(m.display), m.raw_count);
}


// --- hunk navigation ------------------------------------------------------------------

proof fn lemma_ords_unique(s: Seq<DisplayView>, a: int, b: int, x: nat)
    requires
        display_ords(s).no_duplicates(),
        0 <= a < s.len(),
        0 <= b < s.len(),
        row_ords(s[a]).contains(x),
        row_ords(s[b]).contains(x),
    ensures
        a == b,
    decreases s.len(),
{
    let p = s.drop_last();
    let t = row_ords(s.last());
    let d = display_ords(p);
    assert(display_ords(s) == d + t);
    if a < s.len() - 1 && b < s.len() - 1 {
        assert forall|i: int, j: int| 0 <= i < d.len() && 0 <= j < d.len() && i != j implies d[i] != d[j] by {
            assert((d + t)[i] == d[i]);
            assert((d + t)[j] == d[j]);
        }
        assert(p[a] == s[a]);
        assert(p[b] == s[b]);
        lemma_ords_unique(p, a, b, x);
    } else if a != b {
        let inner = if a < s.len() - 1 {
            a
        } else {
            b
        };
        assert(p[inner] == s[inner]);
        lemma_display_ords_contains(p, inner, x);
        let k1 = choose|k: int| 0 <= k < d.len() && d[k] == x;
        let k2 = choose|k: int| 0 <= k < t.len() && t[k] == x;
        assert((d + t)[k1] == x);
        assert((d + t)[d.len() + k2] == x);
    }
}

proof fn lemma_ords_below(s: Seq<nat>, n: nat, k: int)
    requires
        s.len() == n,
        s.no_duplicates(),
        forall|x: nat| x < n ==> s.contains(x),
        0 <= k < s.len(),
    ensures
        s[k] < n,
{
    broadcast use vstd::seq_lib::seq_to_set_is_finite;

    if s[k] >= n {
        lemma_below(n);
        let big = below(n).insert(s[k]);
        assert(!below(n).contains(s[k]));
        assert(big.len() == n + 1);
        assert forall|x: nat| big.contains(x) implies s.to_set().contains(x) by {
            if x == s[k] {
                assert(s.contains(x));
            } else {
                assert(s.contains(x));
            }
        }
        vstd::set_lib::lemma_len_subset(big, s.to_set());
        s.lemma_cardinality_of_set();
    }
}

/// Hunk navigation in the unified view aims at the hunk's own header: the
/// raw ordinal that `first_row_spec(m, h, false)` gives is a row of the model
/// whose display element is the hunk's header row, and that row is the raw
/// row with that ordinal.
pub proof fn lemma_hunk_jump_unified(rows: Seq<RowView>, files: Seq<FileMetaView>, h: int)
    requires
        rows.len() + 1 <= u32::MAX,
        0 <= h < model_spec(rows, files).hunk_first_display.len(),
    ensures
        ({
            let m = model_spec(rows, files);
            &&& crate::diff_model::first_row_spec(m, h, false) matches Some(o)
            &&& (o as nat) < m.raw_count
            &&& m.raw_to_display[o as int] == m.hunk_first_display[h]
            &&& m.display[m.raw_to_display[o as int] as int] matches DisplayView::Full(r)
            &&& r.kind == RowKind::Hunk
            &&& r.ord == o
        }),
{
    let m = model_spec(rows, files);
    lemma_model_maps(rows, files);
    let disp = m.hunk_first_display[h] as int;
    assert(m.display[disp] matches DisplayView::Full(r) && r.kind == RowKind::Hunk);
    let r = match m.display[disp] {
        DisplayView::Full(r) => r,
        DisplayView::Pair(..) => arbitrary(),
    };
    let x = r.ord;
    let ds = display_ords(m.display);
    assert(row_ords(m.display[disp])[0] == x);
    lemma_display_ords_contains(m.display, disp, x);
    let k = choose|k: int| 0 <= k < ds.len() && ds[k] == x;
    lemma_ords_below(ds, m.raw_count, k);
    let o = x as int;
    assert((m.raw_to_display[o] as int) < m.display.len());
    assert(row_ords(m.display[disp])[0] == x);
    lemma_ords_unique(m.display, m.raw_to_display[o] as int, disp, x);
}

// --- line numbers ----------------------------------------------------------------------

/// A diff line that stands for a line of the old file: a body line that is
/// no hunk header, no metadata and no addition.
pub open spec fn has_old_line(l: Seq<char>) -> bool {
    !starts_with(l, "@@"@) && !is_meta_line(l) && !(l.len() > 0 && l[0] == '+')
}

/// A diff line that stands for a line of the new file: a body line that is
/// no hunk header, no metadata and no deletion.
pub open spec fn has_new_line(l: Seq<char>) -> bool {
    !starts_with(l, "@@"@) && !is_meta_line(l) && !(l.len() > 0 && l[0] == '-')
}

/// How many of `ls` stand for old-file lines.
pub open spec fn old_line_count(ls: Seq<Seq<char>>) -> nat
    decreases ls.len(),
{
    if ls.len() == 0 {
        0
    } else {
        old_line_count(ls.drop_last()) + if has_old_line(ls.last()) {
            1nat
        } else {
            0nat
        }
    }
}

/// How many of `ls` stand for new-file lines.
pub open spec fn new_line_count(ls: Seq<Seq<char>>) -> nat
    decreases ls.len(),
{
    if ls.len() == 0 {
        0
    } else {
        new_line_count(ls.drop_last()) + if has_new_line(ls.last()) {
            1nat
        } else {
            0nat
        }
    }
}

/// Line `i` is the last hunk header before line `j`.
pub open spec fn header_before(ls: Seq<Seq<char>>, i: int, j: int) -> bool {
    &&& 0 <= i < j <= ls.len()
    &&& starts_with(ls[i], "@@"@)
    &&& forall|k: int| i < k < j ==> !starts_with(#[trigger] ls[k], "@@"@)
}

proof fn lemma_counters(ls: Seq<Seq<char>>)
    ensures
        forall|i: int|
            #![trigger header_before(ls, i, ls.len() as int)]
            header_before(ls, i, ls.len() as int) ==> {
                &&& parse_lines(ls).0.old_no == hunk_starts_spec(ls[i]).0 + old_line_count(
                    ls.subrange(i + 1, ls.len() as int),
                )
                &&& parse_lines(ls).0.new_no == hunk_starts_spec(ls[i]).1 + new_line_count(
                    ls.subrange(i + 1, ls.len() as int),
                )
            },
        forall|i: int, j: int|
            #![trigger header_before(ls, i, j)]
            header_before(ls, i, j) && j < ls.len() ==> {
                &&& has_old_line(ls[j]) ==> parse_lines(ls).1[j].old_no == hunk_starts_spec(ls[i]).0
                    + old_line_count(ls.subrange(i + 1, j))
                &&& has_new_line(ls[j]) ==> parse_lines(ls).1[j].new_no == hunk_starts_spec(ls[i]).1
                    + new_line_count(ls.subrange(i + 1, j))
            },
    decreases ls.len(),
{
    if ls.len() == 0 {
        return;
    }
    let n = ls.len() as int;
    let p = ls.drop_last();
    lemma_counters(p);
    crate::diff_model::lemma_parse_len(p);
    let l = ls.last();
    let st = parse_lines(p).0;
    assert forall|i: int| #![trigger header_before(ls, i, n)] header_before(ls, i, n) implies {
        &&& parse_lines(ls).0.old_no == hunk_starts_spec(ls[i]).0 + old_line_count(ls.subrange(i + 1, n))
        &&& parse_lines(ls).0.new_no == hunk_starts_spec(ls[i]).1 + new_line_count(ls.subrange(i + 1, n))
    } by {
        if i == n - 1 {
            assert(ls.subrange(i + 1, n) =~= Seq::<Seq<char>>::empty());
        } else {
            assert(header_before(p, i, n - 1)) by {
                assert forall|k: int| i < k < n - 1 implies !starts_with(#[trigger] p[k], "@@"@) by {
                    assert(p[k] == ls[k]);
                }
            }
            assert(!starts_with(l, "@@"@)) by {
                assert(ls[n - 1] == l);
            }
            assert(ls.subrange(i + 1, n).drop_last() =~= p.subrange(i + 1, n - 1));
            assert(ls.subrange(i + 1, n).last() == l);
        }
    }
    assert forall|i: int, j: int| #![trigger header_before(ls, i, j)] header_before(ls, i, j) && j < n implies {
        &&& has_old_line(ls[j]) ==> parse_lines(ls).1[j].old_no == hunk_starts_spec(ls[i]).0 + old_line_count(
            ls.subrange(i + 1, j),
        )
        &&& has_new_line(ls[j]) ==> parse_lines(ls).1[j].new_no == hunk_starts_spec(ls[i]).1 + new_line_count(
            ls.subrange(i + 1, j),
        )
    } by {
        assert(header_before(p, i, j)) by {
            assert forall|k: int| i < k < j implies !starts_with(#[trigger] p[k], "@@"@) by {
                assert(p[k] == ls[k]);
            }
        }
        assert(ls.subrange(i + 1, j) =~= p.subrange(i + 1, j));
        if j < n - 1 {
            assert(parse_lines(ls).1[j] == parse_lines(p).1[j]);
            assert(ls[j] == p[j]);
        } else {
            assert(ls[j] == l);
        }
    }
}

/// Line numbers follow the hunk header: in a hunk whose header starts the
/// old file at line `o` and the new file at line `n`, a row that stands for
/// an old-file line carries `o` plus the number of old-file lines before it
/// in the hunk (deletions and context both advance it), and a row that
/// stands for a new-file line carries `n` plus the number of new-file lines
/// before it (additions and context).
pub proof fn lemma_line_numbers(text: Seq<char>)
    ensures
        forall|i: int, j: int|
            #![trigger header_before(lines(text), i, j)]
            header_before(lines(text), i, j) && j < lines(text).len() ==> {
                &&& has_old_line(lines(text)[j]) ==> parse_spec(text)[j].old_no == hunk_starts_spec(
                    lines(text)[i],
                ).0 + old_line_count(lines(text).subrange(i + 1, j))
                &&& has_new_line(lines(text)[j]) ==> parse_spec(text)[j].new_no == hunk_starts_spec(
                    lines(text)[i],
                ).1 + new_line_count(lines(text).subrange(i + 1, j))
            },
{
    lemma_counters(lines(text));
}

// --- hunk and change ordinals ------------------------------------------------------------

/// A diff line that is a changed line: an addition or a deletion in a hunk
/// body.
pub open spec fn is_changed_line(l: Seq<char>) -> bool {
    !starts_with(l, "@@"@) && !is_meta_line(l) && l.len() > 0 && (l[0] == '+' || l[0] == '-')
}

/// How many of `ls` are hunk headers.
pub open spec fn header_count(ls: Seq<Seq<char>>) -> nat
    decreases ls.len(),
{
    if ls.len() == 0 {
        0
    } else {
        header_count(ls.drop_last()) + if starts_with(ls.last(), "@@"@) {
            1nat
        } else {
            0nat
        }
    }
}

/// How many of `ls` are changed lines.
pub open spec fn changed_count(ls: Seq<Seq<char>>) -> nat
    decreases ls.len(),
{
    if ls.len() == 0 {
        0
    } else {
        changed_count(ls.drop_last()) + if is_changed_line(ls.last()) {
            1nat
        } else {
            0nat
        }
    }
}

proof fn lemma_ordinals(ls: Seq<Seq<char>>)
    ensures
        parse_lines(ls).0.hunk == header_count(ls),
        forall|i: int|
            #![trigger header_before(ls, i, ls.len() as int)]
            header_before(ls, i, ls.len() as int) ==> {
                &&& parse_lines(ls).0.enclosing == header_count(ls.take(i))
                &&& parse_lines(ls).0.changed == changed_count(ls.subrange(i + 1, ls.len() as int))
            },
        forall|j: int|
            0 <= j < ls.len() && starts_with(#[trigger] ls[j], "@@"@) ==> parse_lines(ls).1[j].kind == RowKind::Hunk
                && parse_lines(ls).1[j].hunk == header_count(ls.take(j)),
        forall|i: int, j: int|
            #![trigger header_before(ls, i, j)]
            header_before(ls, i, j) && j < ls.len() && !is_meta_line(ls[j]) && !starts_with(ls[j], "@@"@) ==> {
                &&& parse_lines(ls).1[j].hunk == header_count(ls.take(i))
                &&& is_changed_line(ls[j]) ==> parse_lines(ls).1[j].line_ord == changed_count(ls.subrange(i + 1, j))
            },
    decreases ls.len(),
{
    if ls.len() == 0 {
        return;
    }
    let n = ls.len() as int;
    let p = ls.drop_last();
    lemma_ordinals(p);
    crate::diff_model::lemma_parse_len(p);
    let l = ls.last();
    assert(ls[n - 1] == l);
    assert(ls.take(n - 1) =~= p);
    assert forall|i: int| #![trigger header_before(ls, i, n)] header_before(ls, i, n) implies {
        &&& parse_lines(ls).0.enclosing == header_count(ls.take(i))
        &&& parse_lines(ls).0.changed == changed_count(ls.subrange(i + 1, n))
    } by {
        if i == n - 1 {
            assert(ls.subrange(i + 1, n) =~= Seq::<Seq<char>>::empty());
        } else {
            assert(header_before(p, i, n - 1)) by {
                assert forall|k: int| i < k < n - 1 implies !starts_with(#[trigger] p[k], "@@"@) by {
                    assert(p[k] == ls[k]);
                }
            }
            assert(ls.take(i) =~= p.take(i));
            assert(ls.subrange(i + 1, n).drop_last() =~= p.subrange(i + 1, n - 1));
            assert(ls.subrange(i + 1, n).last() == l);
        }
    }
    assert forall|j: int| 0 <= j < n && starts_with(#[trigger] ls[j], "@@"@) implies parse_lines(ls).1[j].kind
        == RowKind::Hunk && parse_lines(ls).1[j].hunk == header_count(ls.take(j)) by {
        if j < n - 1 {
            assert(parse_lines(ls).1[j] == parse_lines(p).1[j]);
            assert(ls[j] == p[j]);
            assert(ls.take(j) =~= p.take(j));
        }
    }
    assert forall|i: int, j: int| #![trigger header_before(ls, i, j)]
        header_before(ls, i, j) && j < n && !is_meta_line(ls[j]) && !starts_with(ls[j], "@@"@) implies {
        &&& parse_lines(ls).1[j].hunk == header_count(ls.take(i))
        &&& is_changed_line(ls[j]) ==> parse_lines(ls).1[j].line_ord == changed_count(ls.subrange(i + 1, j))
    } by {
        assert(header_before(p, i, j)) by {
            assert forall|k: int| i < k < j implies !starts_with(#[trigger] p[k], "@@"@) by {
                assert(p[k] == ls[k]);
            }
        }
        assert(ls.subrange(i + 1, j) =~= p.subrange(i + 1, j));
        assert(ls.take(i) =~= p.take(i));
        if j < n - 1 {
            assert(parse_lines(ls).1[j] == parse_lines(p).1[j]);
            assert(ls[j] == p[j]);
        }
    }
}

/// Hunks and changed lines are numbered in order: a hunk header row is a
/// `Hunk` row numbered by the headers before it; every body row of a hunk
/// (not metadata) carries its header's number, and a changed row (addition
/// or deletion) carries the number of changed lines before it in the hunk.
pub proof fn lemma_hunk_ordinals(text: Seq<char>)
    ensures
        forall|j: int|
            0 <= j < lines(text).len() && starts_with(#[trigger] lines(text)[j], "@@"@) ==> parse_spec(text)[j].kind
                == RowKind::Hunk && parse_spec(text)[j].hunk == header_count(lines(text).take(j)),
        forall|i: int, j: int|
            #![trigger header_before(lines(text), i, j)]
            header_before(lines(text), i, j) && j < lines(text).len() && !is_meta_line(lines(text)[j])
                && !starts_with(lines(text)[j], "@@"@) ==> {
                &&& parse_spec(text)[j].hunk == header_count(lines(text).take(i))
                &&& is_changed_line(lines(text)[j]) ==> parse_spec(text)[j].line_ord == changed_count(
                    lines(text).subrange(i + 1, j),
                )
            },
{
    lemma_ordinals(lines(text));
}

/// What kind of row a diff line is, by its first characters.
pub open spec fn row_shape(l: Seq<char>, r: RowView) -> bool {
    if starts_with(l, "@@"@) {
        r.kind == RowKind::Hunk && r.text == l
    } else if is_meta_line(l) {
        r.kind == RowKind::Meta && r.text == l
    } else if l.len() > 0 && l[0] == '+' {
        r.kind == RowKind::Add && r.text == l.skip(1) && r.old_no == 0
    } else if l.len() > 0 && l[0] == '-' {
        r.kind == RowKind::Del && r.text == l.skip(1) && r.new_no == 0
    } else {
        r.kind == RowKind::Context && r.text == (if l.len() > 0 && l[0] == ' ' {
            l.skip(1)
        } else {
            l
        })
    }
}

proof fn lemma_shapes(ls: Seq<Seq<char>>)
    ensures
        parse_lines(ls).1.len() == ls.len(),
        forall|j: int| 0 <= j < ls.len() ==> row_shape(ls[j], #[trigger] parse_lines(ls).1[j]),
    decreases ls.len(),
{
    if ls.len() > 0 {
        let p = ls.drop_last();
        lemma_shapes(p);
        assert forall|j: int| 0 <= j < ls.len() implies row_shape(ls[j], #[trigger] parse_lines(ls).1[j]) by {
            if j < ls.len() - 1 {
                assert(parse_lines(ls).1[j] == parse_lines(p).1[j]);
                assert(ls[j] == p[j]);
            }
        }
    }
}

/// One row per line, shaped by the line: a hunk header gives a `Hunk` row
/// and metadata a `Meta` row, both with the whole line; an addition gives an
/// `Add` row and a deletion a `Del` row, without the sign and without the
/// other side's line number; any other line gives a `Context` row without
/// its leading space.
pub proof fn lemma_row_shapes(text: Seq<char>)
    ensures
        parse_spec(text).len() == lines(text).len(),
        forall|j: int| 0 <= j < lines(text).len() ==> row_shape(lines(text)[j], #[trigger] parse_spec(text)[j]),
{
    lemma_shapes(lines(text));
}
} // verus!
