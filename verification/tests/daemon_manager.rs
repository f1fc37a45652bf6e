use rusteze::daemons::{ControlFlow, ControlMessage, DaemonManager, IndexError};

/// Drive a manager exactly as the coordinator loop does on a simulated
/// clock: run every due daemon (all continuing) whenever the clock reaches
/// the next wake, until past `horizon`. Returns per-daemon run counts and
/// run times.
fn simulate(mgr: &mut DaemonManager, horizon: u64) -> Vec<Vec<u64>> {
    let mut runs: Vec<Vec<u64>> = (0..mgr.len()).map(|_| Vec::new()).collect();
    loop {
        let now = match mgr.next_wake() {
            None => break,
            Some(t) => t,
        };
        if now > horizon {
            break;
        }
        for i in mgr.due_daemons(now) {
            runs[i].push(now);
            mgr.note_scheduled_run(i, now, ControlFlow::Continue);
        }
    }
    runs
}

#[test]
fn scenario_two_daemons_independent_intervals() {
    // two daemons registered at t = 0 with intervals of 30 and 90 seconds;
    // after 95 simulated seconds the first has run at 0, 30, 60, 90 and the
    // second at 0 and 90
    let mut mgr = DaemonManager::new();
    mgr.add(String::from("Daemon1"), 30, 0);
    mgr.add(String::from("Daemon2"), 90, 0);
    let runs = simulate(&mut mgr, 95);
    assert_eq!(runs[0], vec![0, 30, 60, 90]);
    assert_eq!(runs[1], vec![0, 90]);
}

#[test]
fn periodicity_follows_interval() {
    let mut mgr = DaemonManager::new();
    mgr.add(String::from("poller"), 7, 100);
    let runs = simulate(&mut mgr, 130);
    assert_eq!(runs[0], vec![100, 107, 114, 121, 128]);
}

#[test]
fn run_one_out_of_range_is_index_error() {
    let mut mgr = DaemonManager::new();
    mgr.add(String::from("only"), 30, 0);
    assert_eq!(mgr.run_one(0), Ok(()));
    assert_eq!(mgr.run_one(1), Err(IndexError { index: 1 }));
    assert_eq!(mgr.run_one(7), Err(IndexError { index: 7 }));
    // and the failed request targets nothing
    assert_eq!(mgr.control_targets(&ControlMessage::RunOne(7)), Err(IndexError { index: 7 }));
}

#[test]
fn manual_run_keeps_schedule() {
    let mut mgr = DaemonManager::new();
    mgr.add(String::from("job"), 50, 200);
    assert_eq!(mgr.next_wake(), Some(200));
    // a manual trigger runs the daemon now but leaves its periodic clock alone
    assert_eq!(mgr.run_one(0), Ok(()));
    mgr.note_manual_run(0, ControlFlow::Continue);
    assert_eq!(mgr.next_wake(), Some(200));
    assert_eq!(mgr.len(), 1);
}

#[test]
fn manual_stop_deregisters() {
    let mut mgr = DaemonManager::new();
    mgr.add(String::from("a"), 10, 0);
    mgr.add(String::from("b"), 20, 0);
    mgr.note_manual_run(0, ControlFlow::Stop);
    assert_eq!(mgr.len(), 1);
    let names = mgr.daemon_names();
    assert_eq!(names, vec![(0, String::from("b"))]);
}

#[test]
fn scheduled_stop_deregisters() {
    let mut mgr = DaemonManager::new();
    mgr.add(String::from("once"), 10, 0);
    mgr.note_scheduled_run(0, 0, ControlFlow::Stop);
    assert_eq!(mgr.len(), 0);
    assert_eq!(mgr.next_wake(), None);
}

#[test]
fn control_targets_run_all() {
    let mut mgr = DaemonManager::new();
    mgr.add(String::from("a"), 10, 0);
    mgr.add(String::from("b"), 20, 0);
    mgr.add(String::from("c"), 30, 0);
    assert_eq!(mgr.control_targets(&ControlMessage::RunAll), Ok(vec![0, 1, 2]));
    assert_eq!(mgr.control_targets(&ControlMessage::RunOne(1)), Ok(vec![1]));
    assert_eq!(mgr.control_targets(&ControlMessage::Shutdown), Ok(vec![]));
}

#[test]
fn daemon_names_lists_registration_order() {
    let mut mgr = DaemonManager::new();
    mgr.add(String::from("first"), 10, 0);
    mgr.add(String::from("second"), 20, 0);
    assert_eq!(
        mgr.daemon_names(),
        vec![(0, String::from("first")), (1, String::from("second"))]
    );
}

#[test]
fn due_daemons_orders_and_filters() {
    let mut mgr = DaemonManager::new();
    mgr.add(String::from("a"), 10, 5);
    mgr.add(String::from("b"), 10, 50);
    mgr.add(String::from("c"), 10, 7);
    assert_eq!(mgr.due_daemons(10), vec![0, 2]);
    assert_eq!(mgr.due_daemons(4), Vec::<usize>::new());
    assert_eq!(mgr.due_daemons(50), vec![0, 1, 2]);
}

#[test]
fn next_wake_is_earliest_next_due() {
    let mut mgr = DaemonManager::new();
    mgr.add(String::from("a"), 10, 42);
    mgr.add(String::from("b"), 10, 17);
    assert_eq!(mgr.next_wake(), Some(17));
}
