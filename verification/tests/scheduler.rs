use rusteze::delayed_tasks::DelayedTasks;
use rusteze::task::{Task, TaskKind};

fn unmute(guild_id: u64, user_id: u64, role_id: u64, due: u64) -> Task {
    Task { due, kind: TaskKind::Unmute { guild_id, user_id, role_id } }
}

#[test]
fn submit_keeps_one_task_per_identity() {
    let mut q = DelayedTasks::new(Vec::new());
    q.submit(unmute(1, 42, 7, 100));
    q.submit(unmute(1, 42, 8, 200));
    assert_eq!(q.len(), 1);
    assert_eq!(q.tasks()[0], unmute(1, 42, 8, 200));
}

#[test]
fn submit_keeps_distinct_identities_apart() {
    let mut q = DelayedTasks::new(Vec::new());
    q.submit(unmute(1, 42, 7, 100));
    q.submit(unmute(1, 43, 7, 150));
    q.submit(unmute(2, 42, 9, 300));
    // user 42's task was replaced across guilds: identity is the user alone
    assert_eq!(q.len(), 2);
    assert_eq!(q.tasks()[0], unmute(1, 43, 7, 150));
    assert_eq!(q.tasks()[1], unmute(2, 42, 9, 300));
}

#[test]
fn is_diferent_compares_identity_only() {
    let a = unmute(1, 42, 7, 100);
    let b = unmute(9, 42, 8, 500);
    let c = unmute(1, 43, 7, 100);
    assert!(!a.is_diferent(&b));
    assert!(a.is_diferent(&c));
}

#[test]
fn when_returns_due_time() {
    assert_eq!(unmute(1, 2, 3, 77).when(), 77);
}

#[test]
fn fire_once_single_submission() {
    let mut q = DelayedTasks::new(Vec::new());
    let t = unmute(1, 42, 7, 1000);
    let fired = q.step(&vec![t], 500);
    assert!(fired.is_empty());
    let fired = q.step(&vec![], 999);
    assert!(fired.is_empty());
    let fired = q.step(&vec![], 1000);
    assert_eq!(fired, vec![t]);
    assert_eq!(q.len(), 0);
    let fired = q.step(&vec![], 2000);
    assert!(fired.is_empty());
}

#[test]
fn dedup_applies_before_due_evaluation() {
    // the replacement arrives in the same iteration in which the first
    // submission's due-time has already passed: only the second's time counts
    let mut q = DelayedTasks::new(Vec::new());
    let first = unmute(1, 42, 7, 100);
    let second = unmute(1, 42, 7, 900);
    let fired = q.step(&vec![first, second], 500);
    assert!(fired.is_empty());
    assert_eq!(q.len(), 1);
    let fired = q.step(&vec![], 900);
    assert_eq!(fired, vec![second]);
}

#[test]
fn scenario_two_submissions_one_fire() {
    // submit a task due in an hour, then ten seconds later resubmit the
    // same identity due in two hours: exactly one effect fires, at the
    // second due-time, carrying the second payload
    let now = 10_000;
    let mut q = DelayedTasks::new(Vec::new());
    let first = unmute(5, 42, 7, now + 3600);
    let fired = q.step(&vec![first], now);
    assert!(fired.is_empty());
    let second = unmute(5, 42, 7, now + 10 + 7200);
    let fired = q.step(&vec![second], now + 10);
    assert!(fired.is_empty());
    // the first task's original due-time passes without a fire
    let fired = q.step(&vec![], now + 3600);
    assert!(fired.is_empty());
    let fired = q.step(&vec![], now + 10 + 7200);
    assert_eq!(fired, vec![second]);
    assert_eq!(q.len(), 0);
}

#[test]
fn restart_survival_past_due_fires_promptly() {
    let mut q = DelayedTasks::new(Vec::new());
    q.submit(unmute(1, 42, 7, 100));
    q.submit(unmute(1, 43, 9, 5000));
    let stored = q.serialize();

    let mut reloaded = DelayedTasks::load(Some(&stored));
    assert_eq!(reloaded.len(), 2);
    // at startup the first task is already overdue: the first iteration
    // fires it instead of dropping it
    let fired = reloaded.step(&vec![], 200);
    assert_eq!(fired, vec![unmute(1, 42, 7, 100)]);
    assert_eq!(reloaded.len(), 1);
}

#[test]
fn load_missing_store_is_empty() {
    let q = DelayedTasks::load(None);
    assert_eq!(q.len(), 0);
}

#[test]
fn load_corrupt_store_is_empty() {
    let q = DelayedTasks::load(Some(&vec![1, 2, 3]));
    assert_eq!(q.len(), 0);
}

#[test]
fn next_wake_is_earliest_due() {
    let mut q = DelayedTasks::new(Vec::new());
    assert_eq!(q.next_wake(), None);
    q.submit(unmute(1, 1, 1, 300));
    q.submit(unmute(1, 2, 1, 200));
    q.submit(unmute(1, 3, 1, 400));
    assert_eq!(q.next_wake(), Some(200));
}

#[test]
fn should_continue_until_closed_and_empty() {
    let mut q = DelayedTasks::new(Vec::new());
    assert!(q.should_continue(true));
    assert!(!q.should_continue(false));
    q.submit(unmute(1, 1, 1, 300));
    assert!(q.should_continue(false));
}

#[test]
fn cancel_by_resubmitting_past_due() {
    // a pending task has no cancellation primitive: resubmitting its
    // identity with a past due-time makes the replacement fire immediately
    // and harmlessly, and the original never does
    let mut q = DelayedTasks::new(Vec::new());
    q.submit(unmute(1, 42, 7, 9_000));
    let replacement = unmute(1, 42, 7, 0);
    let fired = q.step(&vec![replacement], 100);
    assert_eq!(fired, vec![replacement]);
    assert_eq!(q.len(), 0);
    assert!(q.step(&vec![], 9_000).is_empty());
}

#[test]
fn clock_reads_a_recent_time() {
    // the wall clock, in seconds since the Unix epoch: after the start of 2020
    assert!(rusteze::util::current_time() > 1_577_836_800);
}

#[test]
fn take_due_fires_at_exact_due_time() {
    let mut q = DelayedTasks::new(Vec::new());
    q.submit(unmute(1, 1, 1, 300));
    let fired = q.take_due(300);
    assert_eq!(fired.len(), 1);
}
