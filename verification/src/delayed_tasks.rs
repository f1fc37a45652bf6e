//! The one-shot task coordinator's state: the pending queue with its
//! dedup-replace submission rule, due-task extraction, and wake computation.
//!
//! The host's loop drains its submission channel, hands the drained batch and
//! the current time to [`DelayedTasks::step`], performs the returned tasks'
//! effects, persists [`DelayedTasks::serialize`]'s bytes, and sleeps until
//! [`DelayedTasks::next_wake`] or an early wake-up.

use vstd::prelude::*;

use crate::store::{
    decode_tasks, encode_tasks, spec_decode_tasks, spec_encode_tasks, PersistenceError,
};
use crate::task::{distinct_identities, same_identity, Task};
use crate::util::{
    lemma_filter_all_true, lemma_filter_commute, lemma_filter_elems, lemma_filter_empty,
    lemma_filter_filter_excluded, lemma_filter_filter_subsumed, lemma_filter_push,
    lemma_filter_singleton,
};

verus! {

/// The predicate satisfied by the tasks that share `t`'s identity.
pub open spec fn is_same(t: Task) -> spec_fn(Task) -> bool {
    |x: Task| same_identity(x, t)
}

/// The predicate satisfied by the tasks that survive a submission of `t`.
pub open spec fn keeps(t: Task) -> spec_fn(Task) -> bool {
    |x: Task| !same_identity(x, t)
}

/// The predicate satisfied by the tasks eligible to fire at `now`.
pub open spec fn is_due(now: u64) -> spec_fn(Task) -> bool {
    |x: Task| x.due <= now
}

/// The predicate satisfied by the tasks not yet eligible at `now`.
pub open spec fn not_due(now: u64) -> spec_fn(Task) -> bool {
    |x: Task| x.due > now
}

/// The pending tasks that share `t`'s identity, in queue order.
pub open spec fn identity_class(s: Seq<Task>, t: Task) -> Seq<Task> {
    s.filter(is_same(t))
}

/// Dedup-replace: submitting `t` removes every pending task of `t`'s
/// identity and appends `t`.
pub open spec fn spec_submit(pending: Seq<Task>, t: Task) -> Seq<Task> {
    pending.filter(keeps(t)).push(t)
}

/// Submitting a drained batch, in channel order.
pub open spec fn spec_submit_all(pending: Seq<Task>, subs: Seq<Task>) -> Seq<Task>
    decreases subs.len(),
{
    if subs.len() == 0 {
        pending
    } else {
        spec_submit(spec_submit_all(pending, subs.drop_last()), subs.last())
    }
}

/// The tasks fired by one coordinator iteration at `now` after submitting
/// `subs`: dedup-replacement is applied before due-time evaluation.
pub open spec fn spec_fired(pending: Seq<Task>, subs: Seq<Task>, now: u64) -> Seq<Task> {
    spec_submit_all(pending, subs).filter(is_due(now))
}

/// The tasks still pending after one coordinator iteration at `now`.
pub open spec fn spec_remaining(pending: Seq<Task>, subs: Seq<Task>, now: u64) -> Seq<Task> {
    spec_submit_all(pending, subs).filter(not_due(now))
}

/// The set of not-yet-fired one-shot tasks, owned by the task coordinator.
pub struct DelayedTasks {
    tasks: Vec<Task>,
}

impl View for DelayedTasks {
    type V = Seq<Task>;

    closed spec fn view(&self) -> Seq<Task> {
        self.tasks@
    }
}

/// Filtering preserves pairwise-distinct identities.
proof fn lemma_filter_distinct(s: Seq<Task>, pred: spec_fn(Task) -> bool)
    requires
        distinct_identities(s),
    ensures
        distinct_identities(s.filter(pred)),
    decreases s.len(),
{
    reveal(Seq::filter);
    if s.len() > 0 {
        let s0 = s.drop_last();
        let l = s.last();
        assert(distinct_identities(s0)) by {
            assert(forall|i: int| 0 <= i < s0.len() ==> s0[i] == #[trigger] s[i]);
        }
        lemma_filter_distinct(s0, pred);
        if pred(l) {
            let sub = s0.filter(pred);
            lemma_filter_elems(s0, pred);
            assert forall|i: int, j: int| 0 <= i < j < sub.push(l).len() implies !#[trigger]
                same_identity(sub.push(l)[i], sub.push(l)[j]) by {
                if j < sub.len() {
                    assert(!same_identity(sub[i], sub[j]));
                } else {
                    assert(s0.contains(sub[i]));
                    let k = choose|k: int| 0 <= k < s0.len() && s0[k] == sub[i];
                    assert(!same_identity(s[k], s[s.len() - 1]));
                }
            }
        }
    }
}

/// A submission leaves the pending identities pairwise distinct.
proof fn lemma_submit_distinct(pending: Seq<Task>, t: Task)
    requires
        distinct_identities(pending),
    ensures
        distinct_identities(spec_submit(pending, t)),
{
    lemma_filter_distinct(pending, keeps(t));
    let kept = pending.filter(keeps(t));
    lemma_filter_elems(pending, keeps(t));
    assert forall|i: int, j: int| 0 <= i < j < kept.push(t).len() implies !#[trigger]
        same_identity(kept.push(t)[i], kept.push(t)[j]) by {
        if j < kept.len() {
            assert(!same_identity(kept[i], kept[j]));
        } else {
            assert((keeps(t))(kept[i]));
        }
    }
}

impl DelayedTasks {
    /// At most one pending task per identity.
    pub open spec fn wf(&self) -> bool {
        distinct_identities(self@)
    }

    /// A queue holding the given tasks, submitted in order: identities that
    /// occur more than once keep their last occurrence, as if resubmitted.
    pub fn new(initial: Vec<Task>) -> (s: Self)
        ensures
            s@ == spec_submit_all(Seq::<Task>::empty(), initial@),
            s.wf(),
    {
        let mut s = DelayedTasks { tasks: Vec::new() };
        assert(s@ =~= Seq::<Task>::empty());
        let n = initial.len();
        let mut i: usize = 0;
        while i < n
            invariant
                i <= n,
                n == initial@.len(),
                s@ == spec_submit_all(Seq::<Task>::empty(), initial@.take(i as int)),
                s.wf(),
            decreases n - i,
        {
            let t = initial[i];
            s.submit(t);
            proof {
                let pre = initial@.take(i as int);
                let post = initial@.take(i + 1 as int);
                assert(post.drop_last() =~= pre);
                assert(post.last() == initial@[i as int]);
            }
            i = i + 1;
        }
        proof {
            assert(initial@.take(n as int) =~= initial@);
        }
        s
    }

    /// Submit one task: any pending task of the same identity is atomically
    /// replaced, and the new task joins the queue with its own due-time.
    pub fn submit(&mut self, t: Task)
        ensures
            final(self)@ == spec_submit(old(self)@, t),
            old(self).wf() ==> final(self).wf(),
    {
        let ghost orig = self.tasks@;
        let mut kept: Vec<Task> = Vec::new();
        let n = self.tasks.len();
        let mut i: usize = 0;
        while i < n
            invariant
                i <= n,
                n == self.tasks@.len(),
                self.tasks@ == orig,
                kept@ == orig.take(i as int).filter(keeps(t)),
            decreases n - i,
        {
            let x = self.tasks[i];
            if x.is_diferent(&t) {
                kept.push(x);
            }
            proof {
                let pre = orig.take(i as int);
                let post = orig.take(i + 1 as int);
                assert(post =~= pre.push(orig[i as int]));
                lemma_filter_push(pre, orig[i as int], keeps(t));
            }
            i = i + 1;
        }
        proof {
            assert(orig.take(n as int) =~= orig);
        }
        kept.push(t);
        self.tasks = kept;
        proof {
            if distinct_identities(orig) {
                lemma_submit_distinct(orig, t);
            }
        }
    }

    /// Remove and return, in queue order, every task whose due-time has been
    /// reached; later tasks stay pending in their order.
    pub fn take_due(&mut self, now: u64) -> (fired: Vec<Task>)
        ensures
            fired@ == old(self)@.filter(is_due(now)),
            final(self)@ == old(self)@.filter(not_due(now)),
            old(self).wf() ==> final(self).wf(),
    {
        let ghost orig = self.tasks@;
        let mut fired: Vec<Task> = Vec::new();
        let mut kept: Vec<Task> = Vec::new();
        let n = self.tasks.len();
        let mut i: usize = 0;
        while i < n
            invariant
                i <= n,
                n == self.tasks@.len(),
                self.tasks@ == orig,
                fired@ == orig.take(i as int).filter(is_due(now)),
                kept@ == orig.take(i as int).filter(not_due(now)),
            decreases n - i,
        {
            let x = self.tasks[i];
            if x.due <= now {
                fired.push(x);
            } else {
                kept.push(x);
            }
            proof {
                let pre = orig.take(i as int);
                let post = orig.take(i + 1 as int);
                assert(post =~= pre.push(orig[i as int]));
                lemma_filter_push(pre, orig[i as int], is_due(now));
                lemma_filter_push(pre, orig[i as int], not_due(now));
            }
            i = i + 1;
        }
        proof {
            assert(orig.take(n as int) =~= orig);
            if distinct_identities(orig) {
                lemma_filter_distinct(orig, not_due(now));
            }
        }
        self.tasks = kept;
        fired
    }

    /// One coordinator iteration: submit the drained batch (dedup-replace
    /// first, in channel order), then fire everything due at `now`.
    pub fn step(&mut self, submissions: &Vec<Task>, now: u64) -> (fired: Vec<Task>)
        ensures
            fired@ == spec_fired(old(self)@, submissions@, now),
            final(self)@ == spec_remaining(old(self)@, submissions@, now),
            old(self).wf() ==> final(self).wf(),
    {
        let ghost orig = self.tasks@;
        let n = submissions.len();
        let mut i: usize = 0;
        while i < n
            invariant
                i <= n,
                n == submissions@.len(),
                self@ == spec_submit_all(orig, submissions@.take(i as int)),
                distinct_identities(orig) ==> self.wf(),
            decreases n - i,
        {
            let t = submissions[i];
            self.submit(t);
            proof {
                let pre = submissions@.take(i as int);
                let post = submissions@.take(i + 1 as int);
                assert(post.drop_last() =~= pre);
                assert(post.last() == submissions@[i as int]);
            }
            i = i + 1;
        }
        proof {
            assert(submissions@.take(n as int) =~= submissions@);
        }
        self.take_due(now)
    }

    /// A queue rebuilt from a persisted store: a missing store (`None`) or
    /// one whose bytes do not decode is treated as empty, never as fatal.
    pub fn load(stored: Option<&Vec<u8>>) -> (s: Self)
        ensures
            s.wf(),
            match stored {
                None => s@ == Seq::<Task>::empty(),
                Some(b) => match spec_decode_tasks(b@) {
                    Ok(ts) => s@ == spec_submit_all(Seq::<Task>::empty(), ts),
                    Err(_) => s@ == Seq::<Task>::empty(),
                },
            },
    {
        match stored {
            None => Self::new(Vec::new()),
            Some(b) => match decode_tasks(b.as_slice()) {
                Ok(ts) => Self::new(ts),
                Err(_) => Self::new(Vec::new()),
            },
        }
    }

    /// The store bytes for the current pending set, written in full after
    /// every iteration.
    pub fn serialize(&self) -> (out: Vec<u8>)
        ensures
            out@ == spec_encode_tasks(self@),
    {
        encode_tasks(&self.tasks)
    }

    /// The earliest due-time among pending tasks, or nothing to wait for.
    pub fn next_wake(&self) -> (r: Option<u64>)
        ensures
            match r {
                None => self@.len() == 0,
                Some(m) => (exists|i: int| 0 <= i < self@.len() && self@[i].due == m)
                    && (forall|i: int| 0 <= i < self@.len() ==> m <= #[trigger] self@[i].due),
            },
    {
        let n = self.tasks.len();
        if n == 0 {
            return None;
        }
        let mut m: u64 = self.tasks[0].due;
        let mut i: usize = 1;
        while i < n
            invariant
                1 <= i <= n,
                n == self@.len(),
                exists|j: int| 0 <= j < i && self@[j].due == m,
                forall|j: int| 0 <= j < i ==> m <= #[trigger] self@[j].due,
            decreases n - i,
        {
            let d = self.tasks[i].due;
            if d < m {
                m = d;
            }
            i = i + 1;
        }
        Some(m)
    }

    /// Whether the coordinator loop has another iteration to run: it keeps
    /// going while the submission channel is open or tasks remain pending.
    pub fn should_continue(&self, channel_open: bool) -> (r: bool)
        ensures
            r == (channel_open || self@.len() > 0),
    {
        channel_open || self.tasks.len() > 0
    }

    /// How many tasks are pending.
    pub fn len(&self) -> (n: usize)
        ensures
            n == self@.len(),
    {
        self.tasks.len()
    }

    /// The pending tasks, in queue order.
    pub fn tasks(&self) -> (r: &Vec<Task>)
        ensures
            r@ == self@,
    {
        &self.tasks
    }
}

/// Submitting a task of `t`'s identity leaves it as the class's only member.
pub proof fn lemma_submit_same_class(pending: Seq<Task>, u: Task, t: Task)
    requires
        same_identity(u, t),
    ensures
        identity_class(spec_submit(pending, u), t) == seq![u],
{
    lemma_filter_push(pending.filter(keeps(u)), u, is_same(t));
    assert forall|x: Task| #[trigger] (is_same(t))(x) implies !(keeps(u))(x) by {
        assert(same_identity(x, t));
    }
    lemma_filter_filter_excluded(pending, keeps(u), is_same(t));
    assert(Seq::<Task>::empty().push(u) =~= seq![u]);
}

/// Submitting a task of another identity leaves `t`'s class unchanged.
pub proof fn lemma_submit_other_class(pending: Seq<Task>, u: Task, t: Task)
    requires
        !same_identity(u, t),
    ensures
        identity_class(spec_submit(pending, u), t) == identity_class(pending, t),
{
    lemma_filter_push(pending.filter(keeps(u)), u, is_same(t));
    assert forall|x: Task| #[trigger] (is_same(t))(x) implies (keeps(u))(x) by {
        assert(same_identity(x, t));
    }
    lemma_filter_filter_subsumed(pending, keeps(u), is_same(t));
}

/// A batch holding no task of `t`'s identity leaves `t`'s class unchanged.
pub proof fn lemma_submit_all_other_class(pending: Seq<Task>, subs: Seq<Task>, t: Task)
    requires
        forall|q: int| 0 <= q < subs.len() ==> !same_identity(#[trigger] subs[q], t),
    ensures
        identity_class(spec_submit_all(pending, subs), t) == identity_class(pending, t),
    decreases subs.len(),
{
    if subs.len() > 0 {
        let s0 = subs.drop_last();
        assert(forall|q: int| 0 <= q < s0.len() ==> s0[q] == #[trigger] subs[q]);
        lemma_submit_all_other_class(pending, s0, t);
        lemma_submit_other_class(spec_submit_all(pending, s0), subs.last(), t);
        assert(!same_identity(subs[subs.len() - 1], t));
    }
}

/// After a batch whose last task of `t`'s identity is `t` itself (at
/// position `p`), the class holds exactly `t`.
pub proof fn lemma_submit_all_last_class(pending: Seq<Task>, subs: Seq<Task>, t: Task, p: int)
    requires
        0 <= p < subs.len(),
        subs[p] == t,
        forall|q: int| p < q < subs.len() ==> !same_identity(#[trigger] subs[q], t),
    ensures
        identity_class(spec_submit_all(pending, subs), t) == seq![t],
    decreases subs.len(),
{
    let s0 = subs.drop_last();
    if p == subs.len() - 1 {
        assert(subs.last() == t);
        lemma_submit_same_class(spec_submit_all(pending, s0), t, t);
    } else {
        assert(forall|q: int| 0 <= q < s0.len() ==> s0[q] == #[trigger] subs[q]);
        lemma_submit_all_last_class(pending, s0, t, p);
        assert(!same_identity(subs[subs.len() - 1], t));
        lemma_submit_other_class(spec_submit_all(pending, s0), subs.last(), t);
    }
}

/// `t`'s class commutes with splitting a queue by due-time.
proof fn lemma_class_split(s: Seq<Task>, t: Task, now: u64)
    ensures
        identity_class(s.filter(is_due(now)), t) == identity_class(s, t).filter(is_due(now)),
        identity_class(s.filter(not_due(now)), t) == identity_class(s, t).filter(not_due(now)),
{
    lemma_filter_commute(s, is_due(now), is_same(t));
    lemma_filter_commute(s, not_due(now), is_same(t));
}

/// Dedup-replace: after a second submission of the same identity, exactly
/// one task of that identity is pending — the second, with its own due-time
/// and payload — and the first is gone.
pub proof fn lemma_dedup_replace(pending: Seq<Task>, first: Task, second: Task)
    requires
        same_identity(first, second),
    ensures
        identity_class(spec_submit(spec_submit(pending, first), second), second) == seq![second],
        first != second ==> !spec_submit(spec_submit(pending, first), second).contains(first),
{
    let q = spec_submit(pending, first);
    lemma_submit_same_class(q, second, second);
    if first != second {
        let out = spec_submit(q, second);
        let kept = q.filter(keeps(second));
        lemma_filter_elems(q, keeps(second));
        if out.contains(first) {
            let i = choose|i: int| 0 <= i < out.len() && out[i] == first;
            assert(out =~= kept.push(second));
            if i < kept.len() {
                assert((keeps(second))(kept[i]));
            }
            assert(false);
        }
    }
}

/// The pending set after the first `n` iterations of a run: iteration `j`
/// submitted the batch `subs[j]` and fired what was due at `times[j]`,
/// exactly as [`DelayedTasks::step`]'s contract states.
pub open spec fn trace_pending(
    init: Seq<Task>,
    subs: Seq<Seq<Task>>,
    times: Seq<u64>,
    n: int,
) -> Seq<Task>
    decreases n,
{
    if n <= 0 {
        init
    } else {
        spec_remaining(trace_pending(init, subs, times, n - 1), subs[n - 1], times[n - 1])
    }
}

/// The tasks fired by iteration `n` of such a run.
pub open spec fn trace_fired(
    init: Seq<Task>,
    subs: Seq<Seq<Task>>,
    times: Seq<u64>,
    n: int,
) -> Seq<Task> {
    spec_fired(trace_pending(init, subs, times, n), subs[n], times[n])
}

/// While the due-time lies ahead, a task submitted at iteration `k` and
/// never superseded stays the only member of its identity class.
proof fn lemma_pending_class_until_due(
    init: Seq<Task>,
    subs: Seq<Seq<Task>>,
    times: Seq<u64>,
    k: int,
    p: int,
    t: Task,
    m: int,
)
    requires
        subs.len() == times.len(),
        0 <= k < subs.len(),
        0 <= p < subs[k].len(),
        subs[k][p] == t,
        forall|q: int| p < q < subs[k].len() ==> !same_identity(#[trigger] subs[k][q], t),
        forall|j: int, q: int|
            k < j < subs.len() && 0 <= q < subs[j].len() ==> !same_identity(
                #[trigger] subs[j][q],
                t,
            ),
        k < m <= subs.len(),
        forall|j: int| k <= j < m ==> #[trigger] times[j] < t.due,
    ensures
        identity_class(trace_pending(init, subs, times, m), t) == seq![t],
    decreases m,
{
    let before = trace_pending(init, subs, times, m - 1);
    let after_subs = spec_submit_all(before, subs[m - 1]);
    if m == k + 1 {
        lemma_submit_all_last_class(before, subs[k], t, p);
    } else {
        lemma_pending_class_until_due(init, subs, times, k, p, t, m - 1);
        assert(forall|q: int|
            0 <= q < subs[m - 1].len() ==> !same_identity(#[trigger] subs[m - 1][q], t));
        lemma_submit_all_other_class(before, subs[m - 1], t);
    }
    lemma_class_split(after_subs, t, times[m - 1]);
    lemma_filter_singleton(t, not_due(times[m - 1]));
    assert(times[m - 1] < t.due);
}

/// Once fired, the identity class stays empty: nothing of that identity is
/// ever submitted again.
proof fn lemma_pending_class_after_fire(
    init: Seq<Task>,
    subs: Seq<Seq<Task>>,
    times: Seq<u64>,
    k: int,
    p: int,
    t: Task,
    n0: int,
    m: int,
)
    requires
        subs.len() == times.len(),
        0 <= k < subs.len(),
        0 <= p < subs[k].len(),
        subs[k][p] == t,
        forall|q: int| p < q < subs[k].len() ==> !same_identity(#[trigger] subs[k][q], t),
        forall|j: int, q: int|
            k < j < subs.len() && 0 <= q < subs[j].len() ==> !same_identity(
                #[trigger] subs[j][q],
                t,
            ),
        k <= n0 < subs.len(),
        t.due <= times[n0],
        forall|j: int| k <= j < n0 ==> #[trigger] times[j] < t.due,
        n0 < m <= subs.len(),
    ensures
        identity_class(trace_pending(init, subs, times, m), t) == Seq::<Task>::empty(),
    decreases m,
{
    let before = trace_pending(init, subs, times, m - 1);
    let after_subs = spec_submit_all(before, subs[m - 1]);
    if m == n0 + 1 {
        if n0 == k {
            lemma_submit_all_last_class(before, subs[k], t, p);
        } else {
            lemma_pending_class_until_due(init, subs, times, k, p, t, n0);
            assert(forall|q: int|
                0 <= q < subs[n0].len() ==> !same_identity(#[trigger] subs[n0][q], t));
            lemma_submit_all_other_class(before, subs[n0], t);
        }
        lemma_class_split(after_subs, t, times[n0]);
        lemma_filter_singleton(t, not_due(times[n0]));
    } else {
        lemma_pending_class_after_fire(init, subs, times, k, p, t, n0, m - 1);
        assert(forall|q: int|
            0 <= q < subs[m - 1].len() ==> !same_identity(#[trigger] subs[m - 1][q], t));
        lemma_submit_all_other_class(before, subs[m - 1], t);
        lemma_class_split(after_subs, t, times[m - 1]);
        lemma_filter_empty(not_due(times[m - 1]));
    }
}

/// Fire-once: over any run of the coordinator, a task `t` submitted at
/// iteration `k` (position `p` of that batch) and never superseded fires
/// exactly once — at the first iteration `n0` whose time has reached its
/// due-time — and at no other iteration from `k` on. Iterations before `n0`
/// leave it pending; iterations after find its identity class empty.
pub proof fn lemma_fire_once(
    init: Seq<Task>,
    subs: Seq<Seq<Task>>,
    times: Seq<u64>,
    k: int,
    p: int,
    t: Task,
    n0: int,
)
    requires
        subs.len() == times.len(),
        0 <= k < subs.len(),
        0 <= p < subs[k].len(),
        subs[k][p] == t,
        forall|q: int| p < q < subs[k].len() ==> !same_identity(#[trigger] subs[k][q], t),
        forall|j: int, q: int|
            k < j < subs.len() && 0 <= q < subs[j].len() ==> !same_identity(
                #[trigger] subs[j][q],
                t,
            ),
        k <= n0 < subs.len(),
        t.due <= times[n0],
        forall|j: int| k <= j < n0 ==> #[trigger] times[j] < t.due,
    ensures
        identity_class(trace_fired(init, subs, times, n0), t) == seq![t],
        forall|m: int|
            k <= m < subs.len() && m != n0 ==> identity_class(
                #[trigger] trace_fired(init, subs, times, m),
                t,
            ) == Seq::<Task>::empty(),
{
    assert forall|m: int| k <= m < subs.len() implies identity_class(
        #[trigger] trace_fired(init, subs, times, m),
        t,
    ) == (if m == n0 {
        seq![t]
    } else {
        Seq::<Task>::empty()
    }) by {
        let before = trace_pending(init, subs, times, m);
        let after_subs = spec_submit_all(before, subs[m]);
        lemma_class_split(after_subs, t, times[m]);
        if m <= n0 {
            if m == k {
                lemma_submit_all_last_class(before, subs[k], t, p);
            } else {
                lemma_pending_class_until_due(init, subs, times, k, p, t, m);
                assert(forall|q: int|
                    0 <= q < subs[m].len() ==> !same_identity(#[trigger] subs[m][q], t));
                lemma_submit_all_other_class(before, subs[m], t);
            }
            lemma_filter_singleton(t, is_due(times[m]));
            if m < n0 {
                assert(times[m] < t.due);
            }
        } else {
            lemma_pending_class_after_fire(init, subs, times, k, p, t, n0, m);
            assert(forall|q: int|
                0 <= q < subs[m].len() ==> !same_identity(#[trigger] subs[m][q], t));
            lemma_submit_all_other_class(before, subs[m], t);
            lemma_filter_empty(is_due(times[m]));
        }
    }
}

/// Submitting a duplicate-free task list into an empty queue reproduces the
/// list exactly: no dedup-replacement ever takes effect.
pub proof fn lemma_submit_all_distinct_restores(ts: Seq<Task>)
    requires
        distinct_identities(ts),
    ensures
        spec_submit_all(Seq::<Task>::empty(), ts) == ts,
    decreases ts.len(),
{
    if ts.len() > 0 {
        let s0 = ts.drop_last();
        let l = ts.last();
        assert(distinct_identities(s0)) by {
            assert(forall|i: int| 0 <= i < s0.len() ==> s0[i] == #[trigger] ts[i]);
        }
        lemma_submit_all_distinct_restores(s0);
        assert forall|i: int| 0 <= i < s0.len() implies (keeps(l))(#[trigger] s0[i]) by {
            assert(!same_identity(ts[i], ts[ts.len() - 1]));
        }
        lemma_filter_all_true(s0, keeps(l));
        assert(s0.push(l) =~= ts);
    }
}

/// Persistence round-trip, end to end: a pending set written to the store
/// and loaded again is restored exactly — same tasks, same order, same
/// identities and due-times.
pub proof fn lemma_save_load_restores(s: Seq<Task>)
    requires
        distinct_identities(s),
    ensures
        spec_decode_tasks(spec_encode_tasks(s)) == Ok::<Seq<Task>, PersistenceError>(s),
        spec_submit_all(Seq::<Task>::empty(), s) == s,
{
    crate::store::lemma_store_round_trip(s);
    lemma_submit_all_distinct_restores(s);
}

/// Restart survival: a task read back from a persisted store whose due-time
/// has already passed is fired by the first iteration after startup, for any
/// first batch that does not supersede it.
pub proof fn lemma_restart_survival(
    stored: Seq<u8>,
    ts: Seq<Task>,
    t: Task,
    subs: Seq<Task>,
    now: u64,
)
    requires
        spec_decode_tasks(stored) == Ok::<Seq<Task>, PersistenceError>(ts),
        distinct_identities(ts),
        ts.contains(t),
        forall|q: int| 0 <= q < subs.len() ==> !same_identity(#[trigger] subs[q], t),
        t.due <= now,
    ensures
        identity_class(spec_fired(spec_submit_all(Seq::<Task>::empty(), ts), subs, now), t)
            == seq![t],
{
    let p = choose|p: int| 0 <= p < ts.len() && ts[p] == t;
    assert forall|q: int| p < q < ts.len() implies !same_identity(#[trigger] ts[q], t) by {
        assert(!same_identity(ts[p], ts[q]));
    }
    lemma_submit_all_last_class(Seq::<Task>::empty(), ts, t, p);
    lemma_submit_all_other_class(spec_submit_all(Seq::<Task>::empty(), ts), subs, t);
    let after_subs = spec_submit_all(spec_submit_all(Seq::<Task>::empty(), ts), subs);
    lemma_class_split(after_subs, t, now);
    lemma_filter_singleton(t, is_due(now));
}

} // verus!
