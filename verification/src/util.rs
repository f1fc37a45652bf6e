//! Shared helpers: lemmas about `Seq::filter` used by both coordinators'
//! proofs, the wall-clock reading, and the bounded-sleep computation.

use vstd::prelude::*;

verus! {

/// Filtering a sequence extended by one element keeps the element exactly
/// when the predicate accepts it.
pub proof fn lemma_filter_push<A>(s: Seq<A>, x: A, pred: spec_fn(A) -> bool)
    ensures
        (s.push(x)).filter(pred) == (if pred(x) {
            s.filter(pred).push(x)
        } else {
            s.filter(pred)
        }),
{
    reveal(Seq::filter);
    assert(s.push(x).drop_last() =~= s);
    assert(s.push(x).last() == x);
}

/// Filtering the empty sequence keeps nothing.
pub proof fn lemma_filter_empty<A>(pred: spec_fn(A) -> bool)
    ensures
        Seq::<A>::empty().filter(pred) == Seq::<A>::empty(),
{
    reveal(Seq::filter);
}

/// Filtering a one-element sequence keeps the element exactly when the
/// predicate accepts it.
pub proof fn lemma_filter_singleton<A>(x: A, pred: spec_fn(A) -> bool)
    ensures
        seq![x].filter(pred) == (if pred(x) {
            seq![x]
        } else {
            Seq::<A>::empty()
        }),
{
    reveal(Seq::filter);
    assert(Seq::<A>::empty().filter(pred) == Seq::<A>::empty());
    assert(seq![x].drop_last() =~= Seq::<A>::empty());
    assert(seq![x].last() == x);
    assert(Seq::<A>::empty().push(x) =~= seq![x]);
}

/// Every element of a filtered sequence satisfies the predicate and occurs
/// in the original sequence.
pub proof fn lemma_filter_elems<A>(s: Seq<A>, pred: spec_fn(A) -> bool)
    ensures
        forall|i: int|
            0 <= i < s.filter(pred).len() ==> pred(#[trigger] s.filter(pred)[i]) && s.contains(
                s.filter(pred)[i],
            ),
    decreases s.len(),
{
    reveal(Seq::filter);
    if s.len() > 0 {
        let s0 = s.drop_last();
        let sub = s0.filter(pred);
        lemma_filter_elems(s0, pred);
        assert forall|i: int| 0 <= i < s.filter(pred).len() implies pred(
            #[trigger] s.filter(pred)[i],
        ) && s.contains(s.filter(pred)[i]) by {
            let f = s.filter(pred);
            if i < sub.len() {
                assert(f[i] == sub[i]);
                let k = choose|k: int| 0 <= k < s0.len() && s0[k] == sub[i];
                assert(s[k] == sub[i]);
            } else {
                assert(f[i] == s.last());
                assert(s[s.len() - 1] == s.last());
            }
        }
    }
}

/// If every element satisfies the predicate, filtering changes nothing.
pub proof fn lemma_filter_all_true<A>(s: Seq<A>, pred: spec_fn(A) -> bool)
    requires
        forall|i: int| 0 <= i < s.len() ==> pred(#[trigger] s[i]),
    ensures
        s.filter(pred) == s,
    decreases s.len(),
{
    reveal(Seq::filter);
    if s.len() > 0 {
        let s0 = s.drop_last();
        assert(forall|i: int| 0 <= i < s0.len() ==> pred(#[trigger] s0[i])) by {
            assert(forall|i: int| 0 <= i < s0.len() ==> s0[i] == #[trigger] s[i]);
        }
        lemma_filter_all_true(s0, pred);
        assert(pred(s[s.len() - 1]));
        assert(s0.push(s.last()) =~= s);
    }
}

/// If no element satisfies the predicate, the filtered sequence is empty.
pub proof fn lemma_filter_all_false<A>(s: Seq<A>, pred: spec_fn(A) -> bool)
    requires
        forall|i: int| 0 <= i < s.len() ==> !pred(#[trigger] s[i]),
    ensures
        s.filter(pred) == Seq::<A>::empty(),
    decreases s.len(),
{
    reveal(Seq::filter);
    if s.len() > 0 {
        let s0 = s.drop_last();
        assert(forall|i: int| 0 <= i < s0.len() ==> !pred(#[trigger] s0[i])) by {
            assert(forall|i: int| 0 <= i < s0.len() ==> s0[i] == #[trigger] s[i]);
        }
        lemma_filter_all_false(s0, pred);
        assert(!pred(s[s.len() - 1]));
    }
}

/// When `q` implies `p`, filtering by `p` first does not change the result
/// of filtering by `q`.
pub proof fn lemma_filter_filter_subsumed<A>(s: Seq<A>, p: spec_fn(A) -> bool, q: spec_fn(A) -> bool)
    requires
        forall|x: A| #[trigger] q(x) ==> p(x),
    ensures
        s.filter(p).filter(q) == s.filter(q),
    decreases s.len(),
{
    reveal(Seq::filter);
    if s.len() > 0 {
        let s0 = s.drop_last();
        let l = s.last();
        lemma_filter_filter_subsumed(s0, p, q);
        assert(s =~= s0.push(l));
        lemma_filter_push(s0, l, p);
        lemma_filter_push(s0, l, q);
        lemma_filter_push(s0.filter(p), l, q);
        assert(q(l) ==> p(l));
    }
}

/// When `q` excludes `p`, filtering by `p` and then by `q` keeps nothing.
pub proof fn lemma_filter_filter_excluded<A>(s: Seq<A>, p: spec_fn(A) -> bool, q: spec_fn(A) -> bool)
    requires
        forall|x: A| #[trigger] q(x) ==> !p(x),
    ensures
        s.filter(p).filter(q) == Seq::<A>::empty(),
{
    lemma_filter_elems(s, p);
    let f = s.filter(p);
    assert forall|i: int| 0 <= i < f.len() implies !q(#[trigger] f[i]) by {
        assert(p(f[i]));
    }
    lemma_filter_all_false(f, q);
}

/// Two filters over the same sequence commute.
pub proof fn lemma_filter_commute<A>(s: Seq<A>, p: spec_fn(A) -> bool, q: spec_fn(A) -> bool)
    ensures
        s.filter(p).filter(q) == s.filter(q).filter(p),
    decreases s.len(),
{
    reveal(Seq::filter);
    if s.len() > 0 {
        let s0 = s.drop_last();
        let l = s.last();
        lemma_filter_commute(s0, p, q);
        assert(s =~= s0.push(l));
        lemma_filter_push(s0, l, p);
        lemma_filter_push(s0, l, q);
        lemma_filter_push(s0.filter(p), l, q);
        lemma_filter_push(s0.filter(q), l, p);
    }
}

/// Relies on `chrono::Utc::now` followed by `DateTime::timestamp`: the
/// current wall-clock time as whole seconds since the Unix epoch. Nothing
/// is promised of the value; callers must hold for every outcome.
/// (`Utc::now` aborts if the system clock is set before the epoch.)
#[verifier::external_body]
fn unix_timestamp_now() -> i64 {
    chrono::Utc::now().timestamp()
}

/// The current time in whole seconds since the Unix epoch, clamped to zero
/// for clocks set before the epoch. Being a clock reading, no more can be
/// promised of the result.
pub fn current_time() -> u64 {
    let t = unix_timestamp_now();
    if t < 0 {
        0
    } else {
        t as u64
    }
}

/// How long a coordinator may sleep at `now` before a deadline: the sleep is
/// always bounded to the next known deadline, and a deadline already reached
/// means no sleep at all.
pub fn duration_until(now: u64, deadline: u64) -> (d: u64)
    ensures
        d == (if now <= deadline {
            deadline - now
        } else {
            0
        }),
{
    if now <= deadline {
        deadline - now
    } else {
        0
    }
}

} // verus!
