use ssh_key_sync::daemon::{
    DaemonLoop, DaemonMode, PeerSyncError, PeerSyncErrorKind, SyncCycleResult, SyncExecution,
};

fn success(at: u64) -> SyncExecution {
    SyncExecution::Success(SyncCycleResult { completed_at_secs: at, peer_errors: Vec::new() })
}

#[test]
fn startup_sync_sets_success_state() {
    let mut daemon = DaemonLoop::new(1_000, 30, 5);
    daemon.run_startup_sync(
        SyncExecution::Success(SyncCycleResult {
            completed_at_secs: 1_001,
            peer_errors: Vec::new(),
        }),
        1_001,
    );

    let state = daemon.state();
    assert_eq!(state.mode, DaemonMode::Running);
    assert_eq!(state.last_successful_sync_at_secs, Some(1_001));
    assert_eq!(state.next_sync_due_secs, 1_001 + 30 + 5);
}

#[test]
fn discovery_trigger_starts_sync_before_poll_due() {
    let mut daemon = DaemonLoop::new(1_000, 30, 0);
    assert!(!daemon.should_start_sync(1_010));
    daemon.trigger_sync_from_discovery();
    assert!(daemon.should_start_sync(1_010));
    assert!(daemon.start_sync(1_010));
}

#[test]
fn peer_errors_do_not_stop_daemon() {
    let mut daemon = DaemonLoop::new(1_000, 30, 0);
    assert!(daemon.start_sync(1_031));
    daemon.finish_sync(
        SyncExecution::Success(SyncCycleResult {
            completed_at_secs: 1_032,
            peer_errors: vec![PeerSyncError {
                participant_id: "node-b".to_owned(),
                kind: PeerSyncErrorKind::Unreachable,
                message: "connection timeout".to_owned(),
            }],
        }),
        1_032,
    );

    let state = daemon.state();
    assert_eq!(state.mode, DaemonMode::Running);
    assert_eq!(state.last_peer_errors.len(), 1);
    assert_eq!(state.last_critical_error, None);
}

#[test]
fn critical_error_stops_daemon() {
    let mut daemon = DaemonLoop::new(1_000, 30, 0);
    assert!(daemon.start_sync(1_030));
    daemon.finish_sync(
        SyncExecution::CriticalFailure("failed to update authorized_keys".to_owned()),
        1_031,
    );

    let state = daemon.state();
    assert_eq!(state.mode, DaemonMode::Stopped);
    assert_eq!(state.last_critical_error, Some("failed to update authorized_keys".to_owned()));
}

#[test]
fn graceful_shutdown_waits_for_inflight_sync() {
    let mut daemon = DaemonLoop::new(1_000, 30, 0);
    assert!(daemon.start_sync(1_030));
    daemon.request_shutdown();

    assert_eq!(daemon.state().mode, DaemonMode::Stopping);
    daemon.finish_sync(
        SyncExecution::Success(SyncCycleResult {
            completed_at_secs: 1_031,
            peer_errors: Vec::new(),
        }),
        1_031,
    );
    assert_eq!(daemon.state().mode, DaemonMode::Stopped);
}

#[test]
fn shutdown_without_inflight_sync_stops_immediately() {
    let mut daemon = DaemonLoop::new(1_000, 30, 0);
    daemon.request_shutdown();

    assert_eq!(daemon.state().mode, DaemonMode::Stopped);
    assert!(!daemon.should_start_sync(2_000));
}

#[test]
fn poll_interval_triggers_sync_when_due() {
    let daemon = DaemonLoop::new(1_000, 30, 0);
    assert!(!daemon.should_start_sync(1_029));
    assert!(daemon.should_start_sync(1_030));
}

#[test]
fn zero_interval_counts_as_one_second() {
    let daemon = DaemonLoop::new(1_000, 0, 2);
    assert_eq!(daemon.state().next_sync_due_secs, 1_003);
    assert_eq!(daemon.state().mode, DaemonMode::Running);
    assert!(!daemon.state().in_flight_sync);
    assert_eq!(daemon.state().known_peers_count, 0);
    assert_eq!(daemon.state().last_successful_sync_at_secs, None);
}

#[test]
fn no_second_sync_while_one_is_in_flight() {
    let mut daemon = DaemonLoop::new(1_000, 30, 0);
    assert!(daemon.start_sync(1_030));
    assert!(daemon.state().in_flight_sync);
    assert!(!daemon.start_sync(1_031));
    daemon.trigger_sync_from_discovery();
    assert!(!daemon.should_start_sync(5_000));
}

#[test]
fn finishing_clears_the_trigger_and_schedules_the_next_poll() {
    let mut daemon = DaemonLoop::new(1_000, 30, 4);
    daemon.trigger_sync_from_discovery();
    assert!(daemon.start_sync(1_001));
    daemon.finish_sync(success(1_002), 1_003);
    let state = daemon.state();
    assert!(!state.sync_trigger_pending);
    assert!(!state.in_flight_sync);
    assert_eq!(state.next_sync_due_secs, 1_037);
    assert_eq!(state.last_successful_sync_at_secs, Some(1_002));
}

#[test]
fn trigger_is_ignored_once_stopped() {
    let mut daemon = DaemonLoop::new(1_000, 30, 0);
    daemon.request_shutdown();
    daemon.trigger_sync_from_discovery();
    assert!(!daemon.state().sync_trigger_pending);
    daemon.request_shutdown();
    assert_eq!(daemon.state().mode, DaemonMode::Stopped);
}

#[test]
fn critical_failure_keeps_the_last_success() {
    let mut daemon = DaemonLoop::new(1_000, 30, 0);
    daemon.run_startup_sync(success(1_000), 1_000);
    assert!(daemon.start_sync(1_030));
    daemon.finish_sync(SyncExecution::CriticalFailure("disk".to_owned()), 1_031);
    let state = daemon.state();
    assert_eq!(state.mode, DaemonMode::Stopped);
    assert_eq!(state.last_successful_sync_at_secs, Some(1_000));
    assert_eq!(state.last_critical_error, Some("disk".to_owned()));
    assert!(!daemon.should_start_sync(10_000));
}

#[test]
fn startup_sync_runs_even_when_not_due() {
    let mut daemon = DaemonLoop::new(1_000, 30, 0);
    assert!(!daemon.should_start_sync(1_000));
    daemon.run_startup_sync(success(1_000), 1_000);
    assert_eq!(daemon.state().last_successful_sync_at_secs, Some(1_000));
    assert_eq!(daemon.state().next_sync_due_secs, 1_030);
}

#[test]
fn peer_count_is_recorded() {
    let mut daemon = DaemonLoop::new(1_000, 30, 0);
    daemon.set_known_peers_count(7);
    assert_eq!(daemon.state().known_peers_count, 7);
}

#[test]
fn nothing_restarts_a_daemon_after_shutdown() {
    let mut daemon = DaemonLoop::new(1_000, 30, 0);
    assert!(daemon.start_sync(1_030));
    daemon.request_shutdown();
    daemon.trigger_sync_from_discovery();
    daemon.finish_sync(success(1_031), 1_031);
    daemon.set_known_peers_count(3);
    daemon.run_startup_sync(success(1_040), 1_040);
    daemon.request_shutdown();
    for now in [1_041, 5_000, u64::MAX] {
        assert!(!daemon.should_start_sync(now));
        assert!(!daemon.start_sync(now));
    }
    assert_eq!(daemon.state().mode, DaemonMode::Stopped);
}
