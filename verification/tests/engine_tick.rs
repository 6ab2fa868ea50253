use container_reconciler::audit::{AuditLog, RemovalEvent};
use container_reconciler::category::Category;
use container_reconciler::inventory::{RawContainer, RuntimeUnavailable};
use container_reconciler::removal::{
    interpret_removal_response, removal_is_success, RemovalOutcome,
};
use container_reconciler::scheduler::{
    Scheduler, SchedulerAction, SchedulerEvent, SchedulerPhase, DEFAULT_INTERVAL_SECS,
};
use container_reconciler::snapshot::SnapshotError;
use container_reconciler::tick::run_tick;

fn raw(id: &str, names: &[&str], created: i64) -> RawContainer {
    RawContainer {
        id: Some(id.to_string()),
        names: names.iter().map(|n| n.to_string()).collect(),
        created: Some(created),
    }
}

#[test]
fn tick_decides_survivors_and_removals() {
    let inventory = vec![
        raw("a1", &["stress_ram_1"], 100),
        raw("a2", &["stress_ram_2"], 200),
        raw("b1", &["stress_cpu_1"], 150),
    ];
    let protected: Vec<String> = Vec::new();
    let report = run_tick(Ok(inventory), None, &protected, 5000);
    let rep = report.reconciliation.unwrap();
    let ram = &rep.plans.ram;
    assert_eq!(ram.survivor_index, Some(1));
    assert_eq!(ram.removals.len(), 1);
    assert_eq!(ram.removals[0].id, "a1");
    assert_eq!(rep.plans.cpu.removals.len(), 0);
    assert_eq!(rep.plans.io.survivor_index, None);
    assert_eq!(rep.plans.disk.survivor_index, None);
    assert_eq!(rep.audit_events.len(), 1);
    let event = &rep.audit_events[0];
    assert_eq!(event.timestamp, 5000);
    assert_eq!(event.category, Category::Ram);
    assert_eq!(event.container_name, "stress_ram_1");
    assert_eq!(event.action, "removed");
}

#[test]
fn tick_with_protected_id_removes_nothing() {
    let inventory = vec![
        raw("a1", &["stress_ram_1"], 100),
        raw("a2", &["stress_ram_2"], 200),
        raw("b1", &["stress_cpu_1"], 150),
    ];
    let protected = vec!["a1".to_string()];
    let report = run_tick(Ok(inventory), None, &protected, 5000);
    let rep = report.reconciliation.unwrap();
    assert_eq!(rep.plans.ram.removals.len(), 0);
    assert_eq!(rep.plans.cpu.removals.len(), 0);
    assert_eq!(rep.audit_events.len(), 0);
}

#[test]
fn missing_snapshot_does_not_stop_the_pass() {
    // The snapshot document is missing; reconciliation still runs.
    let inventory = vec![
        raw("a1", &["stress_ram_1"], 100),
        raw("a2", &["stress_ram_2"], 200),
    ];
    let protected: Vec<String> = Vec::new();
    let report = run_tick(Ok(inventory), None, &protected, 7000);
    assert_eq!(report.snapshot.unwrap_err(), SnapshotError::Unavailable);
    let rep = report.reconciliation.unwrap();
    assert_eq!(rep.plans.ram.removals.len(), 1);
}

#[test]
fn unreachable_runtime_skips_reconciliation_only() {
    let doc = "RAM_TOTAL=10\nRAM_LIBRE=4\nRAM_OCUPADA=6\nCPU_USADA=50\n";
    let protected: Vec<String> = Vec::new();
    let report = run_tick(Err(RuntimeUnavailable), Some(doc), &protected, 7000);
    match report.reconciliation {
        Err(e) => assert_eq!(e, RuntimeUnavailable),
        Ok(_) => panic!("expected the pass to be skipped"),
    }
    assert_eq!(report.snapshot.unwrap().cpu_used_percent, 50);
}

#[test]
fn listing_entries_missing_fields_contribute_no_records() {
    let inventory = vec![
        RawContainer {
            id: None,
            names: vec!["stress_ram_ghost".to_string()],
            created: Some(10),
        },
        RawContainer {
            id: Some("n1".to_string()),
            names: vec!["stress_ram_real".to_string()],
            created: None,
        },
        raw("ok", &["stress_ram_ok"], 20),
    ];
    let protected: Vec<String> = Vec::new();
    let report = run_tick(Ok(inventory), None, &protected, 1);
    let rep = report.reconciliation.unwrap();
    assert_eq!(rep.groups.ram.len(), 1);
    assert_eq!(rep.groups.ram[0].id, "ok");
    assert_eq!(rep.plans.ram.removals.len(), 0);
}

#[test]
fn a_container_is_listed_once_per_name() {
    let inventory = vec![raw("twin", &["stress_ram_a", "stress_ram_b"], 9)];
    let protected: Vec<String> = Vec::new();
    let report = run_tick(Ok(inventory), None, &protected, 1);
    let rep = report.reconciliation.unwrap();
    assert_eq!(rep.groups.ram.len(), 2);
    // The duplicate listing of the same container is planned away.
    assert_eq!(rep.plans.ram.removals.len(), 1);
    assert_eq!(rep.plans.ram.removals[0].id, "twin");
}

#[test]
fn audit_events_come_in_category_order() {
    let inventory = vec![
        raw("d1", &["stress_disk_old"], 1),
        raw("d2", &["stress_disk_new"], 2),
        raw("r1", &["stress_ram_old"], 1),
        raw("r2", &["stress_ram_new"], 2),
        raw("c1", &["stress_cpu_old"], 1),
        raw("c2", &["stress_cpu_new"], 2),
    ];
    let protected: Vec<String> = Vec::new();
    let report = run_tick(Ok(inventory), None, &protected, 99);
    let rep = report.reconciliation.unwrap();
    let events = &rep.audit_events;
    assert_eq!(events.len(), 3);
    assert_eq!(events[0].category, Category::Ram);
    assert_eq!(events[0].container_name, "stress_ram_old");
    assert_eq!(events[1].category, Category::Cpu);
    assert_eq!(events[1].container_name, "stress_cpu_old");
    assert_eq!(events[2].category, Category::Disk);
    assert_eq!(events[2].container_name, "stress_disk_old");
    for e in events {
        assert_eq!(e.timestamp, 99);
        assert_eq!(e.action, "removed");
    }
}

#[test]
fn removal_success_and_race_are_benign() {
    let first = interpret_removal_response(None);
    assert!(matches!(first, RemovalOutcome::Removed));
    assert!(removal_is_success(&first));

    // The second request for the same id races the first: benign.
    let second = interpret_removal_response(Some(
        "removal of container abc is already in progress".to_string(),
    ));
    assert!(matches!(second, RemovalOutcome::AlreadyRemoving));
    assert!(removal_is_success(&second));
}

#[test]
fn other_removal_failures_keep_their_reason() {
    let outcome = interpret_removal_response(Some("no such container: abc".to_string()));
    match &outcome {
        RemovalOutcome::Failed(reason) => assert_eq!(reason, "no such container: abc"),
        _ => panic!("expected a failure outcome"),
    }
    assert!(!removal_is_success(&outcome));
}

#[test]
fn audit_log_accumulates_and_drains() {
    let mut log = AuditLog::new();
    log.record(RemovalEvent::removed(10, Category::Ram, "stress_ram_1".to_string()));
    log.record_all(vec![
        RemovalEvent::removed(11, Category::Cpu, "stress_cpu_1".to_string()),
        RemovalEvent::removed(12, Category::Disk, "stress_disk_1".to_string()),
    ]);
    assert_eq!(log.events().len(), 3);
    let drained = log.drain();
    assert_eq!(drained.len(), 3);
    assert_eq!(drained[0].container_name, "stress_ram_1");
    assert_eq!(drained[1].category, Category::Cpu);
    assert_eq!(drained[2].timestamp, 12);
    assert_eq!(log.events().len(), 0);
}

#[test]
fn scheduler_walks_its_lifecycle() {
    let mut s = Scheduler::new(DEFAULT_INTERVAL_SECS);
    assert_eq!(s.phase, SchedulerPhase::Idle);
    assert_eq!(s.step(SchedulerEvent::Started), SchedulerAction::BeginTick);
    assert_eq!(s.phase, SchedulerPhase::RunningTick);
    assert_eq!(
        s.step(SchedulerEvent::TickFinished),
        SchedulerAction::BeginSleep(DEFAULT_INTERVAL_SECS)
    );
    assert_eq!(s.phase, SchedulerPhase::Sleeping);
    assert_eq!(s.step(SchedulerEvent::SleepElapsed), SchedulerAction::BeginTick);
    assert_eq!(s.phase, SchedulerPhase::RunningTick);
}

#[test]
fn cancellation_wins_mid_tick_and_terminates_after_capture() {
    let mut s = Scheduler::new(10);
    s.step(SchedulerEvent::Started);
    assert_eq!(
        s.step(SchedulerEvent::CancelSignal),
        SchedulerAction::CaptureFinalState
    );
    assert_eq!(s.phase, SchedulerPhase::ShuttingDown);
    assert_eq!(s.step(SchedulerEvent::FinalCaptureDone), SchedulerAction::Exit);
    assert_eq!(s.phase, SchedulerPhase::Terminated);
}

#[test]
fn terminated_scheduler_ignores_every_event() {
    let mut s = Scheduler::new(10);
    s.step(SchedulerEvent::CancelSignal);
    s.step(SchedulerEvent::FinalCaptureDone);
    assert_eq!(s.phase, SchedulerPhase::Terminated);
    for event in [
        SchedulerEvent::Started,
        SchedulerEvent::TickFinished,
        SchedulerEvent::SleepElapsed,
        SchedulerEvent::CancelSignal,
        SchedulerEvent::FinalCaptureDone,
    ] {
        assert_eq!(s.step(event), SchedulerAction::Ignore);
        assert_eq!(s.phase, SchedulerPhase::Terminated);
    }
}

#[test]
fn unexpected_events_are_ignored_in_place() {
    let mut s = Scheduler::new(10);
    assert_eq!(s.step(SchedulerEvent::TickFinished), SchedulerAction::Ignore);
    assert_eq!(s.phase, SchedulerPhase::Idle);
    s.step(SchedulerEvent::Started);
    assert_eq!(s.step(SchedulerEvent::Started), SchedulerAction::Ignore);
    assert_eq!(s.phase, SchedulerPhase::RunningTick);
}
