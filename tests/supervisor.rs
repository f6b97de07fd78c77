use setup_center::identity::RecordProbe;
use setup_center::record::{ServiceRecord, StartedBy};
use setup_center::supervisor::{
    check_pid_alive, Launch, log_tail, log_window, service_status, should_autostart, start_begin, start_step, stop_begin,
    stop_step, HandleState, LogWindow, ServiceStatus, StartAction, StartError, StartEvent,
    StartOutcome, StartPhase, StatusReport, StopAction, StopError, StopEvent, StopOutcome,
    StopPhase, FORCE_KILL_POLLS, GRACEFUL_POLLS,
};

fn probe(pid: u32, started_at: u64, alive: bool, creation_time: Option<u64>) -> RecordProbe {
    RecordProbe {
        record: ServiceRecord { pid, started_by: StartedBy::Supervisor, started_at },
        alive,
        creation_time,
    }
}

/// Drives a start with scripted answers; the lock marker is shared state.
fn run_start(lock: &mut bool, answers: &mut dyn FnMut(StartAction, &mut bool) -> StartEvent) -> (Vec<StartAction>, StartOutcome) {
    let (mut phase, mut action) = start_begin();
    let mut seen = Vec::new();
    loop {
        seen.push(action);
        if let StartAction::Finish(o) = action {
            if o.release_lock {
                *lock = false;
            }
            return (seen, o);
        }
        let e = answers(action, lock);
        let (p, a) = start_step(phase, e);
        phase = p;
        action = a;
    }
}

fn run_stop(events: &[StopEvent]) -> (Vec<StopAction>, StopOutcome) {
    let (mut phase, mut action) = stop_begin();
    let mut seen = vec![action];
    for e in events {
        let (p, a) = stop_step(phase, *e);
        phase = p;
        action = a;
        seen.push(action);
        if let StopAction::Finish(o) = action {
            return (seen, o);
        }
    }
    panic!("stop did not finish: {:?}", seen);
}

#[test]
fn concurrent_starts_one_spawns_other_races() {
    // Start A takes the lock; start B arrives while A holds it.
    let mut lock = false;
    let (mut pa, mut aa) = start_begin();
    let (mut pb, mut ab) = start_begin();
    // both find no handle and no record
    for _ in 0..2 {
        let (p, a) = start_step(pa, match aa {
            StartAction::ObserveHandle => StartEvent::Handle(HandleState::Absent),
            _ => StartEvent::Record(None),
        });
        pa = p;
        aa = a;
        let (p, a) = start_step(pb, match ab {
            StartAction::ObserveHandle => StartEvent::Handle(HandleState::Absent),
            _ => StartEvent::Record(None),
        });
        pb = p;
        ab = a;
    }
    assert_eq!(aa, StartAction::AcquireLock);
    assert_eq!(ab, StartAction::AcquireLock);
    // exclusive creation: A wins
    let got_a = !lock;
    lock = true;
    let (p, a) = start_step(pa, StartEvent::Lock(got_a));
    assert_eq!(a, StartAction::Recheck);
    // under the lock, nothing has appeared meanwhile
    let (p, a) = start_step(p, StartEvent::Rechecked { handle: HandleState::Absent, probe: None });
    pa = p;
    aa = a;
    assert_eq!(aa, StartAction::Spawn);
    let got_b = !lock;
    let (_, b_end) = start_step(pb, StartEvent::Lock(got_b));
    assert_eq!(
        b_end,
        StartAction::Finish(StartOutcome {
            result: Err(StartError::StartRace),
            release_lock: false,
            discard_launch: false,
        })
    );
    // A spawns and confirms
    let (p, a) = start_step(pa, StartEvent::Spawned(Some(Launch { pid: 4821, started_at: 1_700_000_000 })));
    assert_eq!(
        a,
        StartAction::Persist {
            record: ServiceRecord { pid: 4821, started_by: StartedBy::Supervisor, started_at: 1_700_000_000 }
        }
    );
    let (p, a) = start_step(p, StartEvent::Persisted(true));
    assert_eq!(a, StartAction::Confirm { pid: 4821 });
    let (_, a) = start_step(p, StartEvent::Alive(true));
    assert_eq!(
        a,
        StartAction::Finish(StartOutcome { result: Ok(4821), release_lock: true, discard_launch: false })
    );
    let _ = aa;
}

#[test]
fn start_after_release_sees_running_service() {
    // a later start finds the record written by the first one
    let mut lock = false;
    let (seen, out) = run_start(&mut lock, &mut |a, _| match a {
        StartAction::ObserveHandle => StartEvent::Handle(HandleState::Absent),
        StartAction::ProbeRecord => StartEvent::Record(Some(probe(4821, 1000, true, Some(1001)))),
        _ => panic!("unexpected {:?}", a),
    });
    assert_eq!(out.result, Ok(4821));
    assert!(!seen.contains(&StartAction::Spawn));
    assert!(!seen.contains(&StartAction::AcquireLock));
}

#[test]
fn start_with_live_handle_is_idempotent() {
    let (p, a) = start_begin();
    assert_eq!(p, StartPhase::Begin);
    let (_, a2) = start_step(p, StartEvent::Handle(HandleState::Alive(55)));
    assert_eq!(a, StartAction::ObserveHandle);
    assert_eq!(
        a2,
        StartAction::Finish(StartOutcome { result: Ok(55), release_lock: false, discard_launch: false })
    );
}

#[test]
fn immediate_exit_is_reported_and_cleaned() {
    let mut lock = false;
    let (seen, out) = run_start(&mut lock, &mut |a, lock| match a {
        StartAction::ObserveHandle => StartEvent::Handle(HandleState::Exited),
        StartAction::ProbeRecord => StartEvent::Record(None),
        StartAction::AcquireLock => {
            let ok = !*lock;
            *lock = true;
            StartEvent::Lock(ok)
        }
        StartAction::Recheck => StartEvent::Rechecked { handle: HandleState::Absent, probe: None },
        StartAction::Spawn => StartEvent::Spawned(Some(Launch { pid: 900, started_at: 50 })),
        StartAction::Persist { .. } => StartEvent::Persisted(true),
        StartAction::Confirm { .. } => StartEvent::Alive(false),
        _ => panic!("unexpected {:?}", a),
    });
    assert!(seen.contains(&StartAction::Spawn));
    assert_eq!(
        out,
        StartOutcome {
            result: Err(StartError::ImmediateExit { pid: 900 }),
            release_lock: true,
            discard_launch: true,
        }
    );
    assert!(!lock);
    // with the handle dropped and the record deleted, status says not running
    let st = service_status(HandleState::Absent, None);
    assert_eq!(st.status, ServiceStatus { running: false, pid: None });
}

#[test]
fn start_failures_release_the_lock() {
    for (spawn, persist, expect) in [
        (None, true, StartError::SpawnFailed),
        (Some(Launch { pid: 5, started_at: 7 }), false, StartError::RecordWriteFailed),
    ] {
        let mut lock = false;
        let (_, out) = run_start(&mut lock, &mut |a, lock| match a {
            StartAction::ObserveHandle => StartEvent::Handle(HandleState::Absent),
            StartAction::ProbeRecord => StartEvent::Record(None),
            StartAction::AcquireLock => {
                let ok = !*lock;
                *lock = true;
                StartEvent::Lock(ok)
            }
            StartAction::Recheck => StartEvent::Rechecked { handle: HandleState::Absent, probe: None },
            StartAction::Spawn => StartEvent::Spawned(spawn),
            StartAction::Persist { .. } => StartEvent::Persisted(persist),
            _ => panic!("unexpected {:?}", a),
        });
        assert_eq!(out.result, Err(expect));
        assert!(out.release_lock);
        assert_eq!(out.discard_launch, spawn.is_some());
        assert!(!lock);
    }
}

#[test]
fn stale_record_is_removed_before_launch() {
    let (p, _) = start_begin();
    let (p, a) = start_step(p, StartEvent::Handle(HandleState::Absent));
    assert_eq!(a, StartAction::ProbeRecord);
    let (p, a) = start_step(p, StartEvent::Record(Some(probe(31, 0, false, None))));
    // the stale record is removed only once the lock is held
    assert_eq!((p, a), (StartPhase::Lock, StartAction::AcquireLock));
    let (p, a) = start_step(p, StartEvent::Lock(true));
    assert_eq!(a, StartAction::Recheck);
    let (p, a) =
        start_step(p, StartEvent::Rechecked { handle: HandleState::Absent, probe: Some(probe(31, 0, false, None)) });
    assert_eq!((p, a), (StartPhase::Stale, StartAction::RemoveStale));
    let (_, a) = start_step(p, StartEvent::StaleRemoved);
    assert_eq!(a, StartAction::Spawn);
}

#[test]
fn out_of_order_event_while_holding_lock_releases_it() {
    let (_, a) = start_step(StartPhase::Spawn, StartEvent::Alive(true));
    assert_eq!(
        a,
        StartAction::Finish(StartOutcome {
            result: Err(StartError::OutOfOrder),
            release_lock: true,
            discard_launch: false,
        })
    );
}

#[test]
fn reused_pid_reads_not_running_and_is_purged() {
    // record says started at 1000; the live process under that pid was created at 50000
    let forged = probe(4242, 1000, true, Some(50_000));
    assert_eq!(
        service_status(HandleState::Absent, Some(forged)),
        StatusReport { status: ServiceStatus { running: false, pid: None }, purge_record: true }
    );
    assert!(!check_pid_alive(HandleState::Absent, Some(forged)));
    let (seen, out) = run_stop(&[StopEvent::Observed { handle: HandleState::Absent, probe: Some(forged) }]);
    assert_eq!(out, StopOutcome { result: Ok(()), purge_record: true });
    assert!(!seen.iter().any(|a| matches!(a, StopAction::CheckAlive { .. } | StopAction::Kill { .. })));
    let (_, a) = start_step(StartPhase::Registry, StartEvent::Record(Some(forged)));
    assert_eq!(a, StartAction::AcquireLock);
    let (_, a) = start_step(StartPhase::Recheck, StartEvent::Rechecked { handle: HandleState::Absent, probe: Some(forged) });
    assert_eq!(a, StartAction::RemoveStale);
}

#[test]
fn status_reports() {
    assert_eq!(
        service_status(HandleState::Alive(8), None),
        StatusReport { status: ServiceStatus { running: true, pid: Some(8) }, purge_record: false }
    );
    assert_eq!(
        service_status(HandleState::Exited, Some(probe(8, 0, true, None))),
        StatusReport { status: ServiceStatus { running: false, pid: None }, purge_record: true }
    );
    assert_eq!(
        service_status(HandleState::Absent, Some(probe(8, 100, true, Some(103)))),
        StatusReport { status: ServiceStatus { running: true, pid: Some(8) }, purge_record: false }
    );
    assert_eq!(
        service_status(HandleState::Absent, None),
        StatusReport { status: ServiceStatus { running: false, pid: None }, purge_record: false }
    );
}

#[test]
fn stop_twice_is_stopped_both_times() {
    // first stop: a live handle, graceful request acknowledged, process exits on the second poll
    let (_, first) = run_stop(&[
        StopEvent::Observed { handle: HandleState::Alive(42), probe: None },
        StopEvent::Alive(true),
        StopEvent::ShutdownAcked(true),
        StopEvent::Alive(true),
        StopEvent::Alive(false),
    ]);
    assert_eq!(first, StopOutcome { result: Ok(()), purge_record: true });
    // second stop: handle dropped and record purged by the first
    let (seen, second) = run_stop(&[StopEvent::Observed { handle: HandleState::Absent, probe: None }]);
    assert_eq!(second, StopOutcome { result: Ok(()), purge_record: false });
    assert_eq!(seen.len(), 2);
}

#[test]
fn stop_escalates_to_kill_when_request_unanswered() {
    let (phase, action) = stop_begin();
    assert_eq!(action, StopAction::Observe);
    let (p, a) = stop_step(phase, StopEvent::Observed { handle: HandleState::Absent, probe: Some(probe(7, 0, true, None)) });
    assert_eq!(a, StopAction::CheckAlive { pid: 7 });
    let (p, a) = stop_step(p, StopEvent::Alive(true));
    assert_eq!(a, StopAction::RequestShutdown { pid: 7 });
    let (p, a) = stop_step(p, StopEvent::ShutdownAcked(false));
    assert_eq!(a, StopAction::Kill { pid: 7 });
    let (p, a) = stop_step(p, StopEvent::KillSent);
    assert_eq!(a, StopAction::Poll { pid: 7 });
    assert_eq!(p, StopPhase::ForceKillWait { pid: 7, via_handle: false, polls: FORCE_KILL_POLLS });
    let (_, a) = stop_step(p, StopEvent::Alive(false));
    assert_eq!(a, StopAction::Finish(StopOutcome { result: Ok(()), purge_record: true }));
}

#[test]
fn stop_fails_when_process_survives_everything() {
    let mut events = vec![
        StopEvent::Observed { handle: HandleState::Absent, probe: Some(probe(7, 0, true, None)) },
        StopEvent::Alive(true),
        StopEvent::ShutdownAcked(true),
    ];
    for _ in 0..GRACEFUL_POLLS {
        events.push(StopEvent::Alive(true));
    }
    events.push(StopEvent::KillSent);
    for _ in 0..FORCE_KILL_POLLS {
        events.push(StopEvent::Alive(true));
    }
    let (seen, out) = run_stop(&events);
    assert_eq!(out, StopOutcome { result: Err(StopError::StopFailed { pid: 7 }), purge_record: false });
    let polls = seen.iter().filter(|a| matches!(a, StopAction::Poll { .. })).count();
    assert_eq!(polls as u32, GRACEFUL_POLLS + FORCE_KILL_POLLS);
}

#[test]
fn stop_through_handle_falls_back_to_handle_kill() {
    let mut events = vec![
        StopEvent::Observed { handle: HandleState::Alive(9), probe: None },
        StopEvent::Alive(true),
        StopEvent::ShutdownAcked(false),
        StopEvent::KillSent,
    ];
    for _ in 0..FORCE_KILL_POLLS {
        events.push(StopEvent::Alive(true));
    }
    let (_, a) = {
        let (mut p, mut a) = stop_begin();
        for e in &events {
            let r = stop_step(p, *e);
            p = r.0;
            a = r.1;
        }
        (p, a)
    };
    assert_eq!(a, StopAction::KillHandle { pid: 9 });
    events.push(StopEvent::Alive(false));
    let (_, out) = run_stop(&events);
    assert_eq!(out, StopOutcome { result: Ok(()), purge_record: true });
}

#[test]
fn dead_target_is_stopped_without_signals() {
    let (seen, out) = run_stop(&[
        StopEvent::Observed { handle: HandleState::Absent, probe: Some(probe(7, 0, true, None)) },
        StopEvent::Alive(false),
    ]);
    assert_eq!(out, StopOutcome { result: Ok(()), purge_record: true });
    assert!(!seen.iter().any(|a| matches!(a, StopAction::Kill { .. } | StopAction::RequestShutdown { .. })));
}

#[test]
fn log_tail_keeps_last_six_thousand_bytes() {
    let log: Vec<u8> = (0..7000u32).map(|i| (i % 251) as u8).collect();
    let t = log_tail(&log);
    assert_eq!(t.len(), 6000);
    assert_eq!(&t[..], &log[1000..]);
    assert_eq!(log_tail(b"short"), b"short".to_vec());
    assert_eq!(log_tail(b""), Vec::<u8>::new());
}

#[test]
fn log_window_bounds() {
    assert_eq!(log_window(100_000, None), LogWindow { start: 60_000, truncated: true });
    assert_eq!(log_window(100, None), LogWindow { start: 0, truncated: false });
    assert_eq!(log_window(1_000_000, Some(900_000)), LogWindow { start: 600_000, truncated: true });
    assert_eq!(log_window(50, Some(10)), LogWindow { start: 40, truncated: true });
}

#[test]
fn background_launch_skips_answering_port() {
    assert!(should_autostart(true, false));
    assert!(!should_autostart(true, true));
    assert!(!should_autostart(false, false));
}

#[test]
fn start_that_locks_after_another_finished_does_not_spawn_again() {
    // B looks first and finds nothing, then A runs a whole start, then B takes the lock.
    let (pb, _) = start_begin();
    let (pb, _) = start_step(pb, StartEvent::Handle(HandleState::Absent));
    let (pb, ab) = start_step(pb, StartEvent::Record(None));
    assert_eq!(ab, StartAction::AcquireLock);

    let mut lock = false;
    let mut record: Option<ServiceRecord> = None;
    let (seen_a, out_a) = run_start(&mut lock, &mut |a, lock| match a {
        StartAction::ObserveHandle => StartEvent::Handle(HandleState::Absent),
        StartAction::ProbeRecord => StartEvent::Record(None),
        StartAction::AcquireLock => {
            let ok = !*lock;
            *lock = true;
            StartEvent::Lock(ok)
        }
        StartAction::Recheck => StartEvent::Rechecked { handle: HandleState::Absent, probe: None },
        StartAction::Spawn => StartEvent::Spawned(Some(Launch { pid: 4821, started_at: 1000 })),
        StartAction::Persist { record: r } => {
            record = Some(r);
            StartEvent::Persisted(true)
        }
        StartAction::Confirm { .. } => StartEvent::Alive(true),
        _ => panic!("unexpected {:?}", a),
    });
    assert!(seen_a.contains(&StartAction::Spawn));
    assert_eq!(out_a.result, Ok(4821));
    assert!(!lock);

    // B now creates the marker, but the re-check under the lock finds A's service
    let got_b = !lock;
    lock = true;
    let (pb, ab) = start_step(pb, StartEvent::Lock(got_b));
    assert_eq!(ab, StartAction::Recheck);
    let seen = RecordProbe { record: record.unwrap(), alive: true, creation_time: Some(1001) };
    let (_, ab) = start_step(pb, StartEvent::Rechecked { handle: HandleState::Absent, probe: Some(seen) });
    assert_eq!(
        ab,
        StartAction::Finish(StartOutcome { result: Ok(4821), release_lock: true, discard_launch: false })
    );
    let _ = lock;
}
