//! The conflict resolver's rules: how the final file text is composed from
//! the merge segments and the per-conflict choices, and where the cursor
//! moves after a choice.

use vstd::prelude::*;

use crate::text::{decimal, push_decimal, push_str, string_from};

verus! {

broadcast use vstd::std_specs::vec::group_vec_axioms;

/// Take our side.
pub const CHOICE_OURS: u8 = 0;

/// Take their side.
pub const CHOICE_THEIRS: u8 = 1;

/// Take both, ours first.
pub const CHOICE_BOTH_OURS_FIRST: u8 = 2;

/// Take both, theirs first.
pub const CHOICE_BOTH_THEIRS_FIRST: u8 = 3;

/// The text one conflict resolves to; an unresolved conflict (or an unknown
/// choice) keeps our side.
pub open spec fn resolved_text(ours: Seq<char>, theirs: Seq<char>, choice: Option<u8>) -> Seq<char> {
    match choice {
        Some(c) => if c == CHOICE_THEIRS {
            theirs
        } else if c == CHOICE_BOTH_OURS_FIRST {
            ours + theirs
        } else if c == CHOICE_BOTH_THEIRS_FIRST {
            theirs + ours
        } else {
            ours
        },
        None => ours,
    }
}

/// The choice recorded for conflict `k`, none past the end.
pub open spec fn choice_at(res: Seq<Option<u8>>, k: int) -> Option<u8> {
    if 0 <= k < res.len() {
        res[k]
    } else {
        None
    }
}

/// The number of conflict segments among the first `i`.
pub open spec fn conflicts_before(segs: Seq<(Seq<char>, Seq<char>, bool)>, i: int) -> int
    decreases i,
{
    if i <= 0 || i > segs.len() {
        0
    } else {
        conflicts_before(segs, i - 1) + if segs[i - 1].2 {
            1int
        } else {
            0
        }
    }
}

/// The text segment `i` contributes: a conflict its resolved text, any other
/// segment its common text.
pub open spec fn segment_text(segs: Seq<(Seq<char>, Seq<char>, bool)>, res: Seq<Option<u8>>, i: int) -> Seq<
    char,
> {
    if segs[i].2 {
        resolved_text(segs[i].0, segs[i].1, choice_at(res, conflicts_before(segs, i)))
    } else {
        segs[i].0
    }
}

/// The final text of the first `n` segments.
pub open spec fn compose_upto(segs: Seq<(Seq<char>, Seq<char>, bool)>, res: Seq<Option<u8>>, n: int) -> Seq<
    char,
>
    decreases n,
{
    if n <= 0 || n > segs.len() {
        seq![]
    } else {
        compose_upto(segs, res, n - 1) + segment_text(segs, res, n - 1)
    }
}

/// The final file text of the segments.
pub open spec fn compose_spec(segs: Seq<(Seq<char>, Seq<char>, bool)>, res: Seq<Option<u8>>) -> Seq<char> {
    compose_upto(segs, res, segs.len() as int)
}

/// The values of the segments.
pub open spec fn segment_values(segs: Seq<(String, String, bool)>) -> Seq<(Seq<char>, Seq<char>, bool)> {
    segs.map_values(|s: (String, String, bool)| (s.0@, s.1@, s.2))
}

proof fn lemma_conflicts_before_bound(segs: Seq<(Seq<char>, Seq<char>, bool)>, i: int)
    requires
        0 <= i <= segs.len(),
    ensures
        0 <= conflicts_before(segs, i) <= i,
    decreases i,
{
    if i > 0 {
        lemma_conflicts_before_bound(segs, i - 1);
    }
}

/// Composes the final file text from the segments and the per-conflict
/// resolutions. Unresolved conflicts fall back to our side.
pub fn compose(segs: &[(String, String, bool)], res: &[Option<u8>]) -> (r: String)
    ensures
        r@ == compose_spec(segment_values(segs@), res@),
{
    let ghost sv = segment_values(segs@);
    let mut out = String::new();
    let mut ci: usize = 0;
    let mut i: usize = 0;
    while i < segs.len()
        invariant
            0 <= i <= segs@.len(),
            sv == segment_values(segs@),
            sv.len() == segs@.len(),
            ci == conflicts_before(sv, i as int),
            ci <= i,
            out@ == compose_upto(sv, res@, i as int),
        decreases segs@.len() - i,
    {
        let (a, b, is_conf) = (&segs[i].0, &segs[i].1, segs[i].2);
        assert(sv[i as int] == (a@, b@, is_conf));
        if is_conf {
            ci += 1;
            let choice: Option<u8> = if ci - 1 < res.len() {
                res[ci - 1]
            } else {
                None
            };
            match choice {
                Some(c) => {
                    if c == CHOICE_THEIRS {
                        push_str(&mut out, b.as_str());
                    } else if c == CHOICE_BOTH_OURS_FIRST {
                        push_str(&mut out, a.as_str());
                        push_str(&mut out, b.as_str());
                    } else if c == CHOICE_BOTH_THEIRS_FIRST {
                        push_str(&mut out, b.as_str());
                        push_str(&mut out, a.as_str());
                    } else {
                        push_str(&mut out, a.as_str());
                    }
                },
                None => push_str(&mut out, a.as_str()),
            }
        } else {
            push_str(&mut out, a.as_str());
        }
        assert(out@ =~= compose_upto(sv, res@, i as int) + segment_text(sv, res@, i as int));
        i += 1;
    }
    out
}

/// Every unresolved choice made explicitly "ours".
pub open spec fn ours_filled(res: Seq<Option<u8>>) -> Seq<Option<u8>> {
    res.map_values(|c: Option<u8>| if c is None { Some(CHOICE_OURS) } else { c })
}

/// Unresolved conflicts fall back to our side: composing with every open
/// conflict resolved "ours" gives the same text.
pub proof fn lemma_unresolved_is_ours(segs: Seq<(Seq<char>, Seq<char>, bool)>, res: Seq<Option<u8>>)
    ensures
        compose_spec(segs, res) == compose_spec(segs, ours_filled(res)),
{
    lemma_unresolved_is_ours_upto(segs, res, segs.len() as int);
}

proof fn lemma_unresolved_is_ours_upto(segs: Seq<(Seq<char>, Seq<char>, bool)>, res: Seq<Option<u8>>, n: int)
    ensures
        compose_upto(segs, res, n) == compose_upto(segs, ours_filled(res), n),
    decreases n,
{
    if 0 < n <= segs.len() {
        lemma_unresolved_is_ours_upto(segs, res, n - 1);
        let k = conflicts_before(segs, n - 1);
        assert(segment_text(segs, res, n - 1) == segment_text(segs, ours_filled(res), n - 1));
    }
}

/// The cyclic distance from `from` forward to `to` among `n` slots.
pub open spec fn cyclic_distance(from: int, to: int, n: int) -> int {
    if to >= from {
        to - from
    } else {
        to + n - from
    }
}

/// The slot `d` steps forward from `start` among `n` slots (`d < n`).
pub open spec fn wrap(start: int, d: int, n: int) -> int {
    if start + d < n {
        start + d
    } else {
        start + d - n
    }
}

/// The slot after the active one (the active index clamped to the last slot).
pub open spec fn slot_after(active: int, n: int) -> int {
    let cur = if active < n {
        active
    } else {
        n - 1
    };
    if cur + 1 < n {
        cur + 1
    } else {
        0
    }
}

/// `r` is where the cursor moves from `active`: the next still-unresolved
/// conflict after the active one (wrapping at the end, the active one
/// itself last), or `active` itself when every conflict is resolved.
pub open spec fn advanced_to(res: Seq<Option<u8>>, active: int, r: int) -> bool {
    &&& (forall|k: int| 0 <= k < res.len() ==> #[trigger] res[k] is Some) ==> r == active
    &&& (exists|k: int| 0 <= k < res.len() && #[trigger] res[k] is None) ==> {
        let n = res.len() as int;
        let start = slot_after(active, n);
        &&& 0 <= r < n
        &&& res[r] is None
        &&& forall|d: int| 0 <= d < cyclic_distance(start, r, n) ==> #[trigger] res[wrap(start, d, n)] is Some
    }
}

/// Where the active cursor moves after a choice: the next still-unresolved
/// conflict after the active one (wrapping at the end, the active one
/// itself last), or nowhere (the active index unchanged) when every conflict
/// is resolved.
pub fn next_unresolved(res: &[Option<u8>], active: usize) -> (r: usize)
    ensures
        advanced_to(res@, active as int, r as int),
{
    let n = res.len();
    if n == 0 {
        return active;
    }
    let cur = if active < n {
        active
    } else {
        n - 1
    };
    let start = if cur + 1 < n {
        cur + 1
    } else {
        0
    };
    let mut d: usize = 0;
    while d < n
        invariant
            n == res@.len(),
            n > 0,
            start < n,
            start == slot_after(active as int, n as int),
            0 <= d <= n,
            forall|e: int| 0 <= e < d ==> #[trigger] res@[wrap(start as int, e, n as int)] is Some,
        decreases n - d,
    {
        let i = if d < n - start {
            start + d
        } else {
            d - (n - start)
        };
        assert(i == wrap(start as int, d as int, n as int));
        if res[i].is_none() {
            assert(cyclic_distance(start as int, i as int, n as int) == d);
            return i;
        }
        d += 1;
    }
    assert forall|k: int| 0 <= k < n implies #[trigger] res@[k] is Some by {
        let e = if k >= start {
            k - start
        } else {
            k + n - start
        };
        assert(wrap(start as int, e, n as int) == k);
        assert(res@[wrap(start as int, e, n as int)] is Some);
    }
    active
}

// --- resolver state ---------------------------------------------------------------------

/// The resolver's state for one file: the merge segments (common text, or a
/// conflict's two sides), each conflict's choice, the choice each conflict
/// had before its last change (for undo), the Result text, whether the user
/// edited it by hand, the active conflict, and whether a choice moves on to
/// the next open conflict.
pub struct ResolverState {
    pub segs: Vec<(String, String, bool)>,
    pub res: Vec<Option<u8>>,
    pub undo: Vec<Option<u8>>,
    pub text: String,
    pub edited: bool,
    pub active: usize,
    pub auto_advance: bool,
}

/// The number of conflict segments.
pub open spec fn conflict_count(segs: Seq<(Seq<char>, Seq<char>, bool)>) -> int {
    conflicts_before(segs, segs.len() as int)
}

/// The Result text after a change of choices: recomposed unless the user
/// edited it by hand.
pub open spec fn recomposed(st: ResolverState, res: Seq<Option<u8>>) -> Seq<char> {
    if st.edited {
        st.text@
    } else {
        compose_spec(segment_values(st.segs@), res)
    }
}

/// The undo list grown with unset entries to at least `n` entries.
pub open spec fn padded(u: Seq<Option<u8>>, n: int) -> Seq<Option<u8>> {
    if u.len() >= n {
        u
    } else {
        u + Seq::new((n - u.len()) as nat, |_i: int| None::<u8>)
    }
}

/// Opens the resolver on a file's merge segments: every conflict open, no
/// undo history, the Result composed (every conflict on our side), not
/// edited, the first conflict active.
pub fn open_resolver(segs: Vec<(String, String, bool)>, auto_advance: bool) -> (r: ResolverState)
    ensures
        r.segs@ == segs@,
        r.res@.len() == conflict_count(segment_values(segs@)),
        forall|k: int| 0 <= k < r.res@.len() ==> #[trigger] r.res@[k] is None,
        r.undo@.len() == r.res@.len(),
        forall|k: int| 0 <= k < r.undo@.len() ==> #[trigger] r.undo@[k] is None,
        r.text@ == compose_spec(segment_values(segs@), r.res@),
        !r.edited,
        r.active == 0,
        r.auto_advance == auto_advance,
{
    let ghost sv = segment_values(segs@);
    let mut res: Vec<Option<u8>> = Vec::new();
    let mut undo: Vec<Option<u8>> = Vec::new();
    let mut i: usize = 0;
    while i < segs.len()
        invariant
            0 <= i <= segs@.len(),
            sv == segment_values(segs@),
            res@.len() == conflicts_before(sv, i as int),
            undo@.len() == res@.len(),
            res@.len() <= i,
            forall|k: int| 0 <= k < res@.len() ==> #[trigger] res@[k] is None,
            forall|k: int| 0 <= k < undo@.len() ==> #[trigger] undo@[k] is None,
        decreases segs@.len() - i,
    {
        assert(sv[i as int] == (segs@[i as int].0@, segs@[i as int].1@, segs@[i as int].2));
        if segs[i].2 {
            res.push(None);
            undo.push(None);
        }
        i += 1;
    }
    let text = compose(segs.as_slice(), res.as_slice());
    ResolverState { segs, res, undo, text, edited: false, active: 0, auto_advance }
}

/// Moves the active cursor to the next still-unresolved conflict (wrapping
/// at the end); stays put when every conflict is resolved.
pub fn advance_active(st: &mut ResolverState)
    ensures
        advanced_to(old(st).res@, old(st).active as int, final(st).active as int),
        final(st).segs@ == old(st).segs@,
        final(st).res@ == old(st).res@,
        final(st).undo@ == old(st).undo@,
        final(st).text@ == old(st).text@,
        final(st).edited == old(st).edited,
        final(st).auto_advance == old(st).auto_advance,
{
    st.active = next_unresolved(st.res.as_slice(), st.active);
}

/// Records one conflict's choice: its previous choice goes to the undo
/// list (grown as needed), the Result is recomposed unless edited by hand,
/// and with auto-advance on the cursor moves to the next open conflict.
pub fn resolve(st: &mut ResolverState, seg_idx: usize, choice: u8)
    requires
        seg_idx < old(st).res@.len(),
    ensures
        final(st).res@ == old(st).res@.update(seg_idx as int, Some(choice)),
        final(st).undo@ == padded(old(st).undo@, seg_idx + 1).update(seg_idx as int, old(st).res@[seg_idx as int]),
        final(st).text@ == recomposed(*old(st), final(st).res@),
        final(st).auto_advance ==> advanced_to(final(st).res@, old(st).active as int, final(st).active as int),
        !final(st).auto_advance ==> final(st).active == old(st).active,
        final(st).segs@ == old(st).segs@,
        final(st).edited == old(st).edited,
        final(st).auto_advance == old(st).auto_advance,
{
    let ghost u0 = st.undo@;
    let ghost s0 = *st;
    while st.undo.len() <= seg_idx
        invariant
            seg_idx < st.res@.len(),
            st.res@ == s0.res@,
            st.segs@ == s0.segs@,
            st.text@ == s0.text@,
            st.edited == s0.edited,
            st.active == s0.active,
            st.auto_advance == s0.auto_advance,
            u0.len() <= st.undo@.len(),
            st.undo@.len() <= (if u0.len() > seg_idx + 1 { u0.len() as int } else { seg_idx + 1 }),
            forall|k: int| 0 <= k < u0.len() ==> #[trigger] st.undo@[k] == u0[k],
            forall|k: int| u0.len() <= k < st.undo@.len() ==> #[trigger] st.undo@[k] is None,
        decreases seg_idx + 1 - st.undo@.len(),
    {
        st.undo.push(None);
    }
    assert(st.undo@ =~= padded(u0, seg_idx + 1));
    let prev = st.res[seg_idx];
    st.undo.set(seg_idx, prev);
    st.res.set(seg_idx, Some(choice));
    if !st.edited {
        st.text = compose(st.segs.as_slice(), st.res.as_slice());
    }
    if st.auto_advance {
        advance_active(st);
    }
}

/// Undoes one conflict's choice: it is always open again afterwards, and the
/// Result is recomposed unless edited by hand.
pub fn undo_resolution(st: &mut ResolverState, seg_idx: usize)
    requires
        seg_idx < old(st).res@.len(),
    ensures
        final(st).res@ == old(st).res@.update(seg_idx as int, None),
        final(st).text@ == recomposed(*old(st), final(st).res@),
        final(st).undo@ == old(st).undo@,
        final(st).active == old(st).active,
        final(st).segs@ == old(st).segs@,
        final(st).edited == old(st).edited,
        final(st).auto_advance == old(st).auto_advance,
{
    st.res.set(seg_idx, None);
    if !st.edited {
        st.text = compose(st.segs.as_slice(), st.res.as_slice());
    }
}

/// The choice "Apply to all remaining" uses: the active conflict's undo
/// entry, else its current choice, else ours.
pub open spec fn remaining_choice(st: ResolverState) -> u8 {
    let a = st.active as int;
    match choice_at(st.undo@, a) {
        Some(c) => c,
        None => match choice_at(st.res@, a) {
            Some(c) => c,
            None => CHOICE_OURS,
        },
    }
}

/// Resolves every open conflict with the active conflict's choice (its undo
/// entry, else its current choice, else ours); each newly resolved
/// conflict's undo entry records that it was open. Resolved conflicts keep
/// their choice.
pub fn apply_to_all_remaining(st: &mut ResolverState)
    requires
        old(st).undo@.len() >= old(st).res@.len(),
    ensures
        final(st).res@.len() == old(st).res@.len(),
        forall|k: int|
            0 <= k < old(st).res@.len() ==> #[trigger] final(st).res@[k] == if old(st).res@[k] is None {
                Some(remaining_choice(*old(st)))
            } else {
                old(st).res@[k]
            },
        final(st).undo@.len() == old(st).undo@.len(),
        forall|k: int|
            0 <= k < old(st).undo@.len() ==> #[trigger] final(st).undo@[k] == if k < old(st).res@.len()
                && old(st).res@[k] is None {
                None
            } else {
                old(st).undo@[k]
            },
        final(st).text@ == recomposed(*old(st), final(st).res@),
        final(st).active == old(st).active,
        final(st).segs@ == old(st).segs@,
        final(st).edited == old(st).edited,
        final(st).auto_advance == old(st).auto_advance,
{
    let active = st.active;
    let from_undo = if active < st.undo.len() {
        st.undo[active]
    } else {
        None
    };
    let choice = match from_undo {
        Some(c) => c,
        None => {
            let from_res = if active < st.res.len() {
                st.res[active]
            } else {
                None
            };
            match from_res {
                Some(c) => c,
                None => CHOICE_OURS,
            }
        },
    };
    assert(choice == remaining_choice(*old(st)));
    let ghost r0 = st.res@;
    let ghost u0 = st.undo@;
    let ghost s0 = *st;
    let n = st.res.len();
    let mut i: usize = 0;
    while i < n
        invariant
            n == st.res@.len(),
            st.segs@ == s0.segs@,
            st.text@ == s0.text@,
            st.edited == s0.edited,
            st.active == s0.active,
            st.auto_advance == s0.auto_advance,
            n == r0.len(),
            u0.len() >= n,
            st.undo@.len() == u0.len(),
            0 <= i <= n,
            forall|k: int| 0 <= k < i ==> #[trigger] st.res@[k] == if r0[k] is None {
                Some(choice)
            } else {
                r0[k]
            },
            forall|k: int| i <= k < n ==> #[trigger] st.res@[k] == r0[k],
            forall|k: int| 0 <= k < u0.len() ==> #[trigger] st.undo@[k] == if k < i && r0[k] is None {
                None
            } else {
                u0[k]
            },
        decreases n - i,
    {
        if st.res[i].is_none() {
            st.undo.set(i, None);
            st.res.set(i, Some(choice));
        }
        i += 1;
    }
    if !st.edited {
        st.text = compose(st.segs.as_slice(), st.res.as_slice());
    }
}

/// Undoing a choice reopens the conflict, whatever it was before: after
/// `resolve` and `undo_resolution` on the same conflict the choices are the
/// ones before, with that conflict open.
pub proof fn lemma_undo_reopens(res: Seq<Option<u8>>, k: int, c: u8)
    requires
        0 <= k < res.len(),
    ensures
        res.update(k, Some(c)).update(k, None) == res.update(k, None),
        res.update(k, Some(c)).update(k, None)[k] is None,
{
    assert(res.update(k, Some(c)).update(k, None) =~= res.update(k, None));
}

/// "Apply to all remaining" leaves no conflict open.
pub proof fn lemma_apply_all_resolves_everything(res: Seq<Option<u8>>, after: Seq<Option<u8>>, c: u8)
    requires
        after.len() == res.len(),
        forall|k: int| 0 <= k < res.len() ==> #[trigger] after[k] == if res[k] is None {
            Some(c)
        } else {
            res[k]
        },
    ensures
        forall|k: int| 0 <= k < after.len() ==> #[trigger] after[k] is Some,
{
    assert forall|k: int| 0 <= k < after.len() implies #[trigger] after[k] is Some by {
        assert(after[k] == if res[k] is None {
            Some(c)
        } else {
            res[k]
        });
    }
}

// --- header and footer ------------------------------------------------------------------

/// The number of conflicts still open.
pub open spec fn open_count(res: Seq<Option<u8>>) -> nat
    decreases res.len(),
{
    if res.len() == 0 {
        0
    } else {
        open_count(res.drop_last()) + if res.last() is None {
            1nat
        } else {
            0nat
        }
    }
}

proof fn lemma_open_count_bound(res: Seq<Option<u8>>)
    ensures
        open_count(res) <= res.len(),
        open_count(res) == 0 <==> forall|k: int| 0 <= k < res.len() ==> #[trigger] res[k] is Some,
    decreases res.len(),
{
    if res.len() > 0 {
        lemma_open_count_bound(res.drop_last());
        if open_count(res) == 0 {
            assert forall|k: int| 0 <= k < res.len() implies #[trigger] res[k] is Some by {
                if k < res.len() - 1 {
                    assert(res.drop_last()[k] == res[k]);
                }
            }
        }
        if forall|k: int| 0 <= k < res.len() ==> #[trigger] res[k] is Some {
            assert forall|k: int| 0 <= k < res.drop_last().len() implies #[trigger] res.drop_last()[k] is Some by {
                assert(res.drop_last()[k] == res[k]);
            }
            assert(res[res.len() - 1] is Some);
        }
    }
}

/// The number of conflicts still open.
pub fn remaining(res: &[Option<u8>]) -> (r: usize)
    ensures
        r == open_count(res@),
{
    let mut n: usize = 0;
    let mut i: usize = 0;
    while i < res.len()
        invariant
            0 <= i <= res@.len(),
            n == open_count(res@.take(i as int)),
            n <= i,
        decreases res@.len() - i,
    {
        assert(res@.take(i + 1).drop_last() =~= res@.take(i as int));
        assert(res@.take(i + 1).last() == res@[i as int]);
        if res[i].is_none() {
            n += 1;
        }
        i += 1;
    }
    assert(res@.take(i as int) =~= res@);
    n
}

/// The header's counter: "0 conflicts" for a file without conflicts, else
/// "1 conflict remaining" or "N conflicts remaining".
pub fn conflict_counter(res: &[Option<u8>]) -> (r: String)
    ensures
        r@ == if res@.len() == 0 {
            "0 conflicts"@
        } else if open_count(res@) == 1 {
            "1 conflict remaining"@
        } else {
            decimal(open_count(res@)) + " conflicts remaining"@
        },
{
    if res.len() == 0 {
        return string_from("0 conflicts");
    }
    let n = remaining(res);
    if n == 1 {
        string_from("1 conflict remaining")
    } else {
        let mut s = String::new();
        push_decimal(&mut s, n as u64);
        push_str(&mut s, " conflicts remaining");
        s
    }
}

/// The resolver's footer: the active conflict's number, whether Prev and
/// Next are enabled, the "Apply to all N remaining" button when conflicts
/// are open, and whether Apply (and Continue merge) are enabled: only once
/// every conflict is resolved.
pub struct ResolverFooter {
    pub label: String,
    pub prev: bool,
    pub next: bool,
    pub apply_all: Option<String>,
    pub apply: bool,
}

/// The footer of the resolver's state.
pub fn resolver_footer(st: &ResolverState) -> (r: ResolverFooter)
    requires
        st.active < usize::MAX,
    ensures
        r.label@ == "Conflict "@ + decimal(st.active as nat + 1),
        r.prev == (st.active > 0),
        r.next == (st.active + 1 < st.res@.len()),
        match r.apply_all {
            Some(t) => open_count(st.res@) > 0 && t@ == "Apply to all "@ + decimal(open_count(st.res@)) + " remaining"@,
            None => open_count(st.res@) == 0,
        },
        r.apply == (open_count(st.res@) == 0),
        r.apply == (forall|k: int| 0 <= k < st.res@.len() ==> #[trigger] st.res@[k] is Some),
{
    proof {
        lemma_open_count_bound(st.res@);
    }
    let n = remaining(st.res.as_slice());
    let mut label = string_from("Conflict ");
    push_decimal(&mut label, (st.active + 1) as u64);
    let apply_all = if n > 0 {
        let mut t = string_from("Apply to all ");
        push_decimal(&mut t, n as u64);
        push_str(&mut t, " remaining");
        Some(t)
    } else {
        None
    };
    ResolverFooter { label, prev: st.active > 0, next: st.active + 1 < st.res.len(), apply_all, apply: n == 0 }
}

/// After "Apply to all remaining" the Apply button is enabled: no conflict is
/// left open.
pub proof fn lemma_apply_all_enables_apply(res: Seq<Option<u8>>, after: Seq<Option<u8>>, c: u8)
    requires
        after.len() == res.len(),
        forall|k: int| 0 <= k < res.len() ==> #[trigger] after[k] == if res[k] is None {
            Some(c)
        } else {
            res[k]
        },
    ensures
        open_count(after) == 0,
{
    lemma_apply_all_resolves_everything(res, after, c);
    lemma_open_count_bound(after);
}

/// Prev and Next: the cursor moves one conflict back or forward, and stays
/// at the ends (where the buttons are disabled).
pub fn step_active(st: &mut ResolverState, forward: bool)
    ensures
        final(st).active == if forward && old(st).active + 1 < old(st).res@.len() {
            old(st).active + 1
        } else if !forward && old(st).active > 0 {
            old(st).active - 1
        } else {
            old(st).active as int
        },
        final(st).segs@ == old(st).segs@,
        final(st).res@ == old(st).res@,
        final(st).undo@ == old(st).undo@,
        final(st).text@ == old(st).text@,
        final(st).edited == old(st).edited,
        final(st).auto_advance == old(st).auto_advance,
{
    if forward {
        if st.active < st.res.len() && st.active + 1 < st.res.len() {
            st.active = st.active + 1;
        }
    } else if st.active > 0 {
        st.active = st.active - 1;
    }
}

/// "Edit manually": the Result text is the user's from now on.
pub fn edit_manually(st: &mut ResolverState)
    ensures
        final(st).edited,
        final(st).segs@ == old(st).segs@,
        final(st).res@ == old(st).res@,
        final(st).undo@ == old(st).undo@,
        final(st).text@ == old(st).text@,
        final(st).active == old(st).active,
        final(st).auto_advance == old(st).auto_advance,
{
    st.edited = true;
}

} // verus!
