//! Stable sorting by a strict order on values, as `slice::sort_by` does: the
//! result is sorted and keeps equal elements in their original order.

use vstd::prelude::*;

verus! {

broadcast use vstd::std_specs::vec::group_vec_axioms;

/// A strict order on the views of a type, with its executable test.
pub trait ViewOrder: View + Sized {
    /// `a` sorts strictly before `b`.
    spec fn view_less(a: Self::V, b: Self::V) -> bool;

    /// Whether `self` sorts strictly before `other`.
    fn lt(&self, other: &Self) -> (r: bool)
        ensures
            r == Self::view_less(self@, other@);
}

/// `x` inserted into `s` after every element it does not sort strictly
/// before, scanning from the back.
pub open spec fn insert_back<V>(s: Seq<V>, x: V, less: spec_fn(V, V) -> bool) -> Seq<V>
    decreases s.len(),
{
    if s.len() == 0 {
        seq![x]
    } else if less(x, s.last()) {
        insert_back(s.drop_last(), x, less).push(s.last())
    } else {
        s.push(x)
    }
}

/// Stable insertion sort of `s` by `less`.
pub open spec fn sort_by_spec<V>(s: Seq<V>, less: spec_fn(V, V) -> bool) -> Seq<V>
    decreases s.len(),
{
    if s.len() == 0 {
        seq![]
    } else {
        insert_back(sort_by_spec(s.drop_last(), less), s.last(), less)
    }
}

/// The index at which [`insert_back`] places `x` into `s`, scanning from
/// `j` down.
pub open spec fn insert_pos<V>(s: Seq<V>, x: V, less: spec_fn(V, V) -> bool, j: int) -> int
    decreases j,
{
    if j <= 0 {
        0
    } else if j > s.len() {
        j
    } else if less(x, s[j - 1]) {
        insert_pos(s, x, less, j - 1)
    } else {
        j
    }
}

proof fn lemma_insert_pos_prefix<V>(s: Seq<V>, x: V, less: spec_fn(V, V) -> bool, j: int)
    requires
        0 <= j < s.len(),
    ensures
        insert_pos(s, x, less, j) == insert_pos(s.drop_last(), x, less, j),
    decreases j,
{
    if j > 0 && less(x, s[j - 1]) {
        lemma_insert_pos_prefix(s, x, less, j - 1);
    }
}

pub proof fn lemma_insert_back<V>(s: Seq<V>, x: V, less: spec_fn(V, V) -> bool)
    ensures
        0 <= insert_pos(s, x, less, s.len() as int) <= s.len(),
        insert_back(s, x, less) == s.insert(insert_pos(s, x, less, s.len() as int), x),
    decreases s.len(),
{
    if s.len() > 0 && less(x, s.last()) {
        lemma_insert_back(s.drop_last(), x, less);
        let k = insert_pos(s.drop_last(), x, less, s.len() - 1);
        lemma_insert_pos_prefix(s, x, less, s.len() - 1);
        assert(insert_back(s, x, less) =~= s.insert(k, x));
    } else if s.len() == 0 {
        assert(insert_back(s, x, less) =~= s.insert(0, x));
    } else {
        assert(insert_back(s, x, less) =~= s.insert(s.len() as int, x));
    }
}

/// `s` is ordered by `less`: no element sorts strictly before an earlier one.
pub open spec fn sorted_by<V>(s: Seq<V>, less: spec_fn(V, V) -> bool) -> bool {
    forall|i: int, j: int| 0 <= i < j < s.len() ==> !less(s[j], s[i])
}

/// `less` is a strict weak order: irreflexive and transitive, with a
/// transitive incomparability.
pub open spec fn strict_weak_order<V>(less: spec_fn(V, V) -> bool) -> bool {
    &&& forall|a: V| !#[trigger] less(a, a)
    &&& forall|a: V, b: V, c: V| #![trigger less(a, b), less(b, c)] less(a, b) && less(b, c) ==> less(a, c)
    &&& forall|a: V, b: V, c: V| #![trigger less(a, b), less(b, c), less(a, c)] !less(a, b) && !less(b, c) ==> !less(a, c)
}

proof fn lemma_insert_pos_props<V>(s: Seq<V>, x: V, less: spec_fn(V, V) -> bool, j: int)
    requires
        0 <= j <= s.len(),
    ensures
        0 <= insert_pos(s, x, less, j) <= j,
        forall|i: int| insert_pos(s, x, less, j) <= i < j ==> less(x, #[trigger] s[i]),
        insert_pos(s, x, less, j) > 0 ==> !less(x, s[insert_pos(s, x, less, j) - 1]),
    decreases j,
{
    if j > 0 && less(x, s[j - 1]) {
        lemma_insert_pos_props(s, x, less, j - 1);
    }
}

/// Stable sorting by a strict weak order yields an ordered sequence.
pub proof fn lemma_sort_sorted<V>(s: Seq<V>, less: spec_fn(V, V) -> bool)
    requires
        strict_weak_order(less),
    ensures
        sorted_by(sort_by_spec(s, less), less),
    decreases s.len(),
{
    if s.len() > 0 {
        let t = sort_by_spec(s.drop_last(), less);
        let x = s.last();
        lemma_sort_sorted(s.drop_last(), less);
        lemma_insert_back(t, x, less);
        lemma_insert_pos_props(t, x, less, t.len() as int);
        let k = insert_pos(t, x, less, t.len() as int);
        let r = t.insert(k, x);
        assert(sort_by_spec(s, less) == r);
        assert forall|i: int, j: int| 0 <= i < j < r.len() implies !less(r[j], r[i]) by {
            if j < k {
                assert(r[i] == t[i] && r[j] == t[j]);
            } else if j == k {
                assert(r[j] == x && r[i] == t[i]);
                if i < k - 1 {
                    assert(!less(t[k - 1], t[i]));
                    assert(!less(x, t[k - 1]));
                }
            } else {
                assert(r[j] == t[j - 1]);
                if i < k {
                    assert(r[i] == t[i]);
                } else if i == k {
                    assert(r[i] == x);
                    assert(less(x, t[j - 1]));
                    if less(t[j - 1], x) {
                        assert(less(x, x));
                    }
                } else {
                    assert(r[i] == t[i - 1]);
                }
            }
        }
    }
}

/// Sorting keeps the length, and every element of the result comes from
/// the input.
pub proof fn lemma_sort_elements<V>(s: Seq<V>, less: spec_fn(V, V) -> bool)
    ensures
        sort_by_spec(s, less).len() == s.len(),
        forall|i: int|
            0 <= i < s.len() ==> s.contains(#[trigger] sort_by_spec(s, less)[i]),
    decreases s.len(),
{
    if s.len() > 0 {
        let t = sort_by_spec(s.drop_last(), less);
        let x = s.last();
        lemma_sort_elements(s.drop_last(), less);
        lemma_insert_back(t, x, less);
        let k = insert_pos(t, x, less, t.len() as int);
        let r = t.insert(k, x);
        assert forall|i: int| 0 <= i < s.len() implies s.contains(#[trigger] r[i]) by {
            if i == k {
                assert(s[s.len() - 1] == x);
            } else {
                let i2 = if i < k { i } else { i - 1 };
                assert(r[i] == t[i2]);
                assert(s.drop_last().contains(t[i2]));
                let w = choose|w: int| 0 <= w < s.drop_last().len() && s.drop_last()[w] == t[i2];
                assert(s[w] == t[i2]);
            }
        }
    }
}

/// The sum of `f` over `s`.
pub open spec fn total<V>(s: Seq<V>, f: spec_fn(V) -> nat) -> nat
    decreases s.len(),
{
    if s.len() == 0 {
        0
    } else {
        total(s.drop_last(), f) + f(s.last())
    }
}

pub proof fn lemma_total_insert<V>(s: Seq<V>, k: int, x: V, f: spec_fn(V) -> nat)
    requires
        0 <= k <= s.len(),
    ensures
        total(s.insert(k, x), f) == total(s, f) + f(x),
    decreases s.len(),
{
    if k < s.len() {
        lemma_total_insert(s.drop_last(), k, x, f);
        assert(s.insert(k, x).drop_last() =~= s.drop_last().insert(k, x));
    } else {
        assert(s.insert(k, x).drop_last() =~= s);
    }
}

pub proof fn lemma_total_update<V>(s: Seq<V>, i: int, x: V, f: spec_fn(V) -> nat)
    requires
        0 <= i < s.len(),
    ensures
        total(s.update(i, x), f) + f(s[i]) == total(s, f) + f(x),
    decreases s.len(),
{
    if i < s.len() - 1 {
        lemma_total_update(s.drop_last(), i, x, f);
        assert(s.update(i, x).drop_last() =~= s.drop_last().update(i, x));
    } else {
        assert(s.update(i, x).drop_last() =~= s.drop_last());
    }
}

pub proof fn lemma_total_push<V>(s: Seq<V>, x: V, f: spec_fn(V) -> nat)
    ensures
        total(s.push(x), f) == total(s, f) + f(x),
{
    assert(s.push(x).drop_last() =~= s);
}

/// Sorting keeps the sum of any measure.
pub proof fn lemma_sort_total<V>(s: Seq<V>, less: spec_fn(V, V) -> bool, f: spec_fn(V) -> nat)
    ensures
        total(sort_by_spec(s, less), f) == total(s, f),
    decreases s.len(),
{
    if s.len() > 0 {
        let t = sort_by_spec(s.drop_last(), less);
        lemma_sort_total(s.drop_last(), less, f);
        lemma_insert_back(t, s.last(), less);
        lemma_total_insert(t, insert_pos(t, s.last(), less, t.len() as int), s.last(), f);
    }
}

/// The views of a sequence.
pub open spec fn views<T: View>(s: Seq<T>) -> Seq<T::V> {
    s.map_values(|x: T| x@)
}

/// Sorts `v` stably by [`ViewOrder::view_less`].
pub fn stable_sort<T: ViewOrder>(v: Vec<T>) -> (r: Vec<T>)
    ensures
        views(r@) == sort_by_spec(views(v@), |a: T::V, b: T::V| T::view_less(a, b)),
{
    let ghost less = |a: T::V, b: T::V| T::view_less(a, b);
    let ghost orig = v@;
    let mut out: Vec<T> = Vec::new();
    for x in it: v.into_iter()
        invariant
            orig == it.seq(),
            less == (|a: T::V, b: T::V| T::view_less(a, b)),
            views(out@) == sort_by_spec(views(it.seq().take(it.index() as int)), less),
    {
        let ghost i = it.index();
        let ghost ov = views(out@);
        let mut k = out.len();
        while k > 0 && x.lt(&out[k - 1])
            invariant
                k <= out@.len(),
                ov == views(out@),
                less == (|a: T::V, b: T::V| T::view_less(a, b)),
                insert_pos(ov, x@, less, ov.len() as int) == insert_pos(ov, x@, less, k as int),
            decreases k,
        {
            k -= 1;
        }
        proof {
            lemma_insert_back(ov, x@, less);
            assert(views(it.seq().take(i + 1)).drop_last() =~= views(it.seq().take(i as int)));
            assert(views(it.seq().take(i + 1)).last() == x@);
        }
        out.insert(k, x);
        assert(views(out@) =~= ov.insert(k as int, x@));
    }
    assert(orig.take(orig.len() as int) =~= orig);
    out
}

} // verus!
