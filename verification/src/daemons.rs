//! The periodic daemon coordinator's state: registered daemons with their
//! independent schedules, manual-trigger validation, and wake computation.
//!
//! The host's loop drains its control channel, asks
//! [`DaemonManager::control_targets`] and [`DaemonManager::due_daemons`] what
//! to run, performs each daemon's effect, records the outcome with
//! [`DaemonManager::note_manual_run`] or [`DaemonManager::note_scheduled_run`],
//! and sleeps until [`DaemonManager::next_wake`] or an early wake-up.

pub mod minecraft;

use vstd::prelude::*;

use crate::task::Task;

verus! {

/// A daemon's post-run instruction to its manager: keep it scheduled, or
/// deregister it. Only an explicit `Stop` ever removes a daemon.
#[derive(Clone, Copy, PartialEq, Eq, Structural, Debug)]
pub enum ControlFlow {
    Continue,
    Stop,
}

/// A message to a coordinator: a one-shot submission for the task
/// coordinator, or a manual trigger or shutdown for the daemon coordinator.
#[derive(Clone, Copy, PartialEq, Eq, Structural, Debug)]
pub enum ControlMessage {
    Submit(Task),
    RunAll,
    RunOne(usize),
    Shutdown,
}

/// A manual trigger named a daemon index that is not registered; nothing was
/// run for it.
#[derive(Clone, Copy, PartialEq, Eq, Structural, Debug)]
pub struct IndexError {
    pub index: usize,
}

/// One registered daemon: its name, its interval in seconds, and the
/// absolute time its next periodic run is due.
pub struct DaemonEntry {
    pub name: String,
    pub interval: u64,
    pub next_due: u64,
}

/// The registered daemons, in registration order; mutated only by the
/// manager's own loop.
pub struct DaemonManager {
    daemons: Vec<DaemonEntry>,
}

impl View for DaemonManager {
    type V = Seq<DaemonEntry>;

    closed spec fn view(&self) -> Seq<DaemonEntry> {
        self.daemons@
    }
}

/// When a daemon run at `now` is next due: `now + interval`, held at the
/// largest representable time where that sum would not fit.
pub open spec fn spec_rearm(now: u64, interval: u64) -> u64 {
    if now + interval > u64::MAX {
        u64::MAX
    } else {
        (now + interval) as u64
    }
}

/// The roster after a *scheduled* run of daemon `i` at `now`: a continuing
/// daemon is re-armed for `now + interval`, a stopping one is deregistered.
pub open spec fn spec_scheduled_run(
    s: Seq<DaemonEntry>,
    i: int,
    now: u64,
    flow: ControlFlow,
) -> Seq<DaemonEntry> {
    match flow {
        ControlFlow::Stop => s.remove(i),
        ControlFlow::Continue => s.update(
            i,
            DaemonEntry {
                name: s[i].name,
                interval: s[i].interval,
                next_due: spec_rearm(now, s[i].interval),
            },
        ),
    }
}

/// The roster after a *manual* run of daemon `i`: the daemon's own interval
/// clock is untouched; only an explicit `Stop` deregisters it.
pub open spec fn spec_manual_run(s: Seq<DaemonEntry>, i: int, flow: ControlFlow) -> Seq<
    DaemonEntry,
> {
    match flow {
        ControlFlow::Stop => s.remove(i),
        ControlFlow::Continue => s,
    }
}

impl DaemonManager {
    /// A manager with no daemons registered.
    pub fn new() -> (m: Self)
        ensures
            m@ == Seq::<DaemonEntry>::empty(),
    {
        let m = DaemonManager { daemons: Vec::new() };
        proof {
            assert(m@ =~= Seq::<DaemonEntry>::empty());
        }
        m
    }

    /// Register a daemon with next-due = `now`: its first run is immediate,
    /// later runs follow its interval.
    pub fn add(&mut self, name: String, interval: u64, now: u64)
        ensures
            final(self)@ == old(self)@.push(
                DaemonEntry { name, interval, next_due: now },
            ),
    {
        self.daemons.push(DaemonEntry { name, interval, next_due: now });
    }

    /// Read-only introspection: each registered daemon's index and name.
    pub fn daemon_names(&self) -> (r: Vec<(usize, String)>)
        ensures
            r@.len() == self@.len(),
            forall|i: int|
                0 <= i < r@.len() ==> #[trigger] r@[i].0 == i && r@[i].1 == self@[i].name,
    {
        let mut r: Vec<(usize, String)> = Vec::new();
        let n = self.daemons.len();
        let mut i: usize = 0;
        while i < n
            invariant
                i <= n,
                n == self@.len(),
                r@.len() == i,
                forall|j: int|
                    0 <= j < i ==> #[trigger] r@[j].0 == j && r@[j].1 == self@[j].name,
            decreases n - i,
        {
            r.push((i, self.daemons[i].name.clone()));
            i = i + 1;
        }
        r
    }

    /// Validate a manual request for one daemon: it is acknowledged exactly
    /// when `index` names a registered daemon, else it fails with
    /// `IndexError` and nothing runs.
    pub fn run_one(&self, index: usize) -> (r: Result<(), IndexError>)
        ensures
            r is Ok <==> index < self@.len(),
            r is Err ==> r == Err::<(), IndexError>(IndexError { index }),
    {
        if index < self.daemons.len() {
            Ok(())
        } else {
            Err(IndexError { index })
        }
    }

    /// The daemons a drained control message targets for an immediate run:
    /// every index for `RunAll`, the validated index for `RunOne`, none for
    /// a shutdown or for a submission (which belongs to the task
    /// coordinator).
    pub fn control_targets(&self, msg: &ControlMessage) -> (r: Result<Vec<usize>, IndexError>)
        ensures
            match r {
                Ok(idxs) => match *msg {
                    ControlMessage::RunAll => idxs@.len() == self@.len() && (forall|j: int|
                        0 <= j < idxs@.len() ==> #[trigger] idxs@[j] == j),
                    ControlMessage::RunOne(i) => i < self@.len() && idxs@ =~= seq![i],
                    _ => idxs@.len() == 0,
                },
                Err(e) => msg is RunOne && (e.index as int) >= self@.len() && *msg
                    == ControlMessage::RunOne(e.index),
            },
    {
        match msg {
            ControlMessage::RunAll => {
                let mut idxs: Vec<usize> = Vec::new();
                let n = self.daemons.len();
                let mut i: usize = 0;
                while i < n
                    invariant
                        i <= n,
                        idxs@.len() == i,
                        forall|j: int| 0 <= j < i ==> #[trigger] idxs@[j] == j,
                    decreases n - i,
                {
                    idxs.push(i);
                    i = i + 1;
                }
                Ok(idxs)
            },
            ControlMessage::RunOne(i) => {
                if *i < self.daemons.len() {
                    let mut idxs: Vec<usize> = Vec::new();
                    idxs.push(*i);
                    Ok(idxs)
                } else {
                    Err(IndexError { index: *i })
                }
            },
            _ => Ok(Vec::new()),
        }
    }

    /// The indices of the daemons whose next periodic run is due at `now`,
    /// in roster order.
    pub fn due_daemons(&self, now: u64) -> (r: Vec<usize>)
        ensures
            forall|a: int, b: int| 0 <= a < b < r@.len() ==> r@[a] < r@[b],
            forall|a: int|
                0 <= a < r@.len() ==> (#[trigger] r@[a]) < self@.len()
                    && self@[r@[a] as int].next_due <= now,
            forall|i: int|
                0 <= i < self@.len() && (#[trigger] self@[i].next_due) <= now ==> r@.contains(
                    i as usize,
                ),
    {
        let mut r: Vec<usize> = Vec::new();
        let n = self.daemons.len();
        let mut i: usize = 0;
        while i < n
            invariant
                i <= n,
                n == self@.len(),
                forall|a: int, b: int| 0 <= a < b < r@.len() ==> r@[a] < r@[b],
                forall|a: int|
                    0 <= a < r@.len() ==> (#[trigger] r@[a]) < i
                        && self@[r@[a] as int].next_due <= now,
                forall|j: int|
                    0 <= j < i && (#[trigger] self@[j].next_due) <= now ==> r@.contains(
                        j as usize,
                    ),
            decreases n - i,
        {
            let ghost pre = r@;
            if self.daemons[i].next_due <= now {
                r.push(i);
            }
            proof {
                assert forall|j: int|
                    0 <= j < i + 1 && (#[trigger] self@[j].next_due) <= now implies r@.contains(
                    j as usize,
                ) by {
                    if j < i {
                        assert(pre.contains(j as usize));
                        let a = choose|a: int| 0 <= a < pre.len() && pre[a] == j as usize;
                        assert(r@[a] == j as usize);
                    } else {
                        assert(r@[r@.len() - 1] == i as usize);
                    }
                }
            }
            i = i + 1;
        }
        r
    }

    /// Record the outcome of a scheduled run of daemon `index` performed at
    /// `now`: a continuing daemon is re-armed for `now + interval` (its
    /// other fields and every other daemon untouched); a stopping one is
    /// deregistered.
    pub fn note_scheduled_run(&mut self, index: usize, now: u64, flow: ControlFlow)
        requires
            index < old(self)@.len(),
        ensures
            final(self)@ == spec_scheduled_run(old(self)@, index as int, now, flow),
    {
        match flow {
            ControlFlow::Stop => {
                self.daemons.remove(index);
            },
            ControlFlow::Continue => {
                let interval = self.daemons[index].interval;
                let name = self.daemons[index].name.clone();
                let next_due = if now > u64::MAX - interval {
                    u64::MAX
                } else {
                    now + interval
                };
                self.daemons.set(index, DaemonEntry { name, interval, next_due });
            },
        }
    }

    /// Record the outcome of a manual run of daemon `index`: a manual run
    /// never resets the daemon's own interval clock — a continuing daemon's
    /// schedule is exactly what it was — and only a `Stop` deregisters it.
    pub fn note_manual_run(&mut self, index: usize, flow: ControlFlow)
        requires
            index < old(self)@.len(),
        ensures
            final(self)@ == spec_manual_run(old(self)@, index as int, flow),
    {
        match flow {
            ControlFlow::Stop => {
                self.daemons.remove(index);
            },
            ControlFlow::Continue => {},
        }
    }

    /// The earliest next-due among registered daemons, or nothing to wait
    /// for.
    pub fn next_wake(&self) -> (r: Option<u64>)
        ensures
            match r {
                None => self@.len() == 0,
                Some(m) => (exists|i: int| 0 <= i < self@.len() && self@[i].next_due == m)
                    && (forall|i: int|
                        0 <= i < self@.len() ==> m <= #[trigger] self@[i].next_due),
            },
    {
        let n = self.daemons.len();
        if n == 0 {
            return None;
        }
        let mut m: u64 = self.daemons[0].next_due;
        let mut i: usize = 1;
        while i < n
            invariant
                1 <= i <= n,
                n == self@.len(),
                exists|j: int| 0 <= j < i && self@[j].next_due == m,
                forall|j: int| 0 <= j < i ==> m <= #[trigger] self@[j].next_due,
            decreases n - i,
        {
            let d = self.daemons[i].next_due;
            if d < m {
                m = d;
            }
            i = i + 1;
        }
        Some(m)
    }

    /// How many daemons are registered.
    pub fn len(&self) -> (n: usize)
        ensures
            n == self@.len(),
    {
        self.daemons.len()
    }
}

/// The roster after `n` scheduled runs of daemon `i`, each performed exactly
/// when it was due and each continuing — a run of the manager with no manual
/// triggers and no wake-up delay.
pub open spec fn spec_exact_runs(s: Seq<DaemonEntry>, i: int, n: nat) -> Seq<DaemonEntry>
    decreases n,
{
    if n == 0 {
        s
    } else {
        let p = spec_exact_runs(s, i, (n - 1) as nat);
        spec_scheduled_run(p, i, p[i].next_due, ControlFlow::Continue)
    }
}

/// Daemon periodicity: a daemon with interval `I` first due at `t0`, run on
/// schedule and never triggered manually, is due for its `n`-th following
/// run at exactly `t0 + n * I`; its name, its interval and the rest of the
/// roster are untouched.
pub proof fn lemma_daemon_periodicity(s: Seq<DaemonEntry>, i: int, n: nat)
    requires
        0 <= i < s.len(),
        s[i].next_due + n * s[i].interval <= u64::MAX,
    ensures
        spec_exact_runs(s, i, n).len() == s.len(),
        forall|j: int| 0 <= j < s.len() && j != i ==> #[trigger] spec_exact_runs(s, i, n)[j] == s[j],
        spec_exact_runs(s, i, n)[i].name == s[i].name,
        spec_exact_runs(s, i, n)[i].interval == s[i].interval,
        spec_exact_runs(s, i, n)[i].next_due == s[i].next_due + n * s[i].interval,
    decreases n,
{
    let t0 = s[i].next_due;
    let iv = s[i].interval;
    if n == 0 {
        assert(n * iv == 0) by (nonlinear_arith)
            requires
                n == 0,
        ;
    } else {
        assert((n - 1) * iv <= n * iv && (n - 1) * iv + iv == n * iv) by (nonlinear_arith)
            requires
                n >= 1,
                iv >= 0,
        ;
        lemma_daemon_periodicity(s, i, (n - 1) as nat);
    }
}

/// The key under which the host stores the shared daemon manager.
pub struct DaemonManagerKey;

} // verus!
