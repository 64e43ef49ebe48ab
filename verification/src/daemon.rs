//! The daemon's scheduling state machine: when a sync cycle starts, what its
//! outcome does to the state, and how shutdown proceeds.
use vstd::prelude::*;

verus! {

#[derive(Debug, Clone, PartialEq, Eq, Structural)]
pub enum DaemonMode {
    Running,
    Stopping,
    Stopped,
}

#[derive(Debug, Clone, PartialEq, Eq, Structural)]
pub enum PeerSyncErrorKind {
    AuthFailed,
    Unreachable,
    InvalidPayload,
}

#[derive(Debug, Clone, PartialEq, Eq)]
pub struct PeerSyncError {
    pub participant_id: String,
    pub kind: PeerSyncErrorKind,
    pub message: String,
}

#[derive(Debug, Clone, PartialEq, Eq)]
pub struct SyncCycleResult {
    pub completed_at_secs: u64,
    pub peer_errors: Vec<PeerSyncError>,
}

/// The outcome of one sync cycle.
#[derive(Debug, Clone, PartialEq, Eq)]
pub enum SyncExecution {
    Success(SyncCycleResult),
    CriticalFailure(String),
}

#[derive(Debug, Clone, PartialEq, Eq)]
pub struct DaemonState {
    pub mode: DaemonMode,
    pub known_peers_count: usize,
    pub sync_trigger_pending: bool,
    pub next_sync_due_secs: u64,
    pub in_flight_sync: bool,
    pub last_successful_sync_at_secs: Option<u64>,
    pub last_peer_errors: Vec<PeerSyncError>,
    pub last_critical_error: Option<String>,
}

#[derive(Debug, Clone, PartialEq, Eq)]
pub struct DaemonLoop {
    sync_interval_secs: u64,
    jitter_secs: u64,
    shutdown_requested: bool,
    state: DaemonState,
}

/// The whole state of a daemon loop.
pub struct DaemonView {
    pub sync_interval_secs: u64,
    pub jitter_secs: u64,
    pub shutdown_requested: bool,
    pub state: DaemonState,
}

impl View for DaemonLoop {
    type V = DaemonView;

    closed spec fn view(&self) -> DaemonView {
        DaemonView {
            sync_interval_secs: self.sync_interval_secs,
            jitter_secs: self.jitter_secs,
            shutdown_requested: self.shutdown_requested,
            state: self.state,
        }
    }
}

/// The consistency of a daemon's state: the interval is positive; the daemon
/// is stopping only while a sync is in flight after a shutdown request; after
/// a shutdown request it is no longer running; and a sync is in flight only
/// while the daemon has not stopped.
pub open spec fn daemon_wf(v: DaemonView) -> bool {
    &&& v.sync_interval_secs >= 1
    &&& v.state.mode == DaemonMode::Stopping ==> v.state.in_flight_sync && v.shutdown_requested
    &&& v.shutdown_requested ==> v.state.mode != DaemonMode::Running
    &&& v.state.in_flight_sync ==> v.state.mode != DaemonMode::Stopped
}

/// Whether a sync cycle may start at `now`: the daemon has not stopped, no
/// shutdown was requested, no sync is in flight, and either discovery asked
/// for one or the poll time has come.
pub open spec fn should_start(v: DaemonView, now: u64) -> bool {
    &&& v.state.mode != DaemonMode::Stopped
    &&& !v.shutdown_requested
    &&& !v.state.in_flight_sync
    &&& (v.state.sync_trigger_pending || now >= v.state.next_sync_due_secs)
}

/// The state after a sync cycle ends with `execution` at `now`.
pub open spec fn finish_step(v: DaemonView, execution: SyncExecution, now: u64) -> DaemonView {
    let cleared = DaemonState { in_flight_sync: false, sync_trigger_pending: false, ..v.state };
    match execution {
        SyncExecution::Success(result) => DaemonView {
            state: DaemonState {
                last_successful_sync_at_secs: Some(result.completed_at_secs),
                last_peer_errors: result.peer_errors,
                last_critical_error: None,
                next_sync_due_secs: (now + v.sync_interval_secs + v.jitter_secs) as u64,
                mode: if v.shutdown_requested {
                    DaemonMode::Stopped
                } else {
                    DaemonMode::Running
                },
                ..cleared
            },
            ..v
        },
        SyncExecution::CriticalFailure(message) => DaemonView {
            state: DaemonState {
                last_critical_error: Some(message),
                mode: DaemonMode::Stopped,
                ..cleared
            },
            ..v
        },
    }
}

/// The state after the peer count is set to `count`.
pub open spec fn peers_count_step(v: DaemonView, count: usize) -> DaemonView {
    DaemonView { state: DaemonState { known_peers_count: count, ..v.state }, ..v }
}

/// The state after discovery asks for a sync: only a running daemon takes it.
pub open spec fn trigger_step(v: DaemonView) -> DaemonView {
    if v.state.mode == DaemonMode::Running {
        DaemonView { state: DaemonState { sync_trigger_pending: true, ..v.state }, ..v }
    } else {
        v
    }
}

/// The state after a shutdown request: a daemon with a sync in flight starts
/// stopping, any other that has not stopped stops at once.
pub open spec fn shutdown_step(v: DaemonView) -> DaemonView {
    DaemonView {
        shutdown_requested: true,
        state: if v.state.mode == DaemonMode::Stopped {
            v.state
        } else if v.state.in_flight_sync {
            DaemonState { mode: DaemonMode::Stopping, ..v.state }
        } else {
            DaemonState { mode: DaemonMode::Stopped, ..v.state }
        },
        ..v
    }
}

/// The state after trying to start a sync at `now`.
pub open spec fn start_step(v: DaemonView, now: u64) -> DaemonView {
    if should_start(v, now) {
        DaemonView { state: DaemonState { in_flight_sync: true, ..v.state }, ..v }
    } else {
        v
    }
}

/// A call on a daemon loop that can change its state.
pub enum DaemonCall {
    SetKnownPeersCount(usize),
    TriggerSyncFromDiscovery,
    RequestShutdown,
    StartSync(u64),
    RunStartupSync(SyncExecution, u64),
    FinishSync(SyncExecution, u64),
}

/// The state after one call.
pub open spec fn daemon_call_step(v: DaemonView, c: DaemonCall) -> DaemonView {
    match c {
        DaemonCall::SetKnownPeersCount(count) => peers_count_step(v, count),
        DaemonCall::TriggerSyncFromDiscovery => trigger_step(v),
        DaemonCall::RequestShutdown => shutdown_step(v),
        DaemonCall::StartSync(now) => start_step(v, now),
        DaemonCall::RunStartupSync(execution, now) => finish_step(v, execution, now),
        DaemonCall::FinishSync(execution, now) => finish_step(v, execution, now),
    }
}

/// The state after the calls in order.
pub open spec fn run_daemon(v: DaemonView, calls: Seq<DaemonCall>) -> DaemonView
    decreases calls.len(),
{
    if calls.len() == 0 {
        v
    } else {
        daemon_call_step(run_daemon(v, calls.drop_last()), calls.last())
    }
}

/// Whether finishing a sync with `execution` at `now` stays within `u64`.
pub open spec fn finish_fits(v: DaemonView, execution: SyncExecution, now: u64) -> bool {
    execution is Success ==> now + v.sync_interval_secs + v.jitter_secs <= u64::MAX
}

impl DaemonLoop {
    /// A running daemon whose first poll is due one interval (at least one
    /// second) plus the jitter after `started_at_secs`.
    pub fn new(started_at_secs: u64, sync_interval_secs: u64, jitter_secs: u64) -> (r: Self)
        requires
            started_at_secs + (if sync_interval_secs >= 1 { sync_interval_secs } else { 1 })
                + jitter_secs <= u64::MAX,
        ensures
            r@.sync_interval_secs == (if sync_interval_secs >= 1 {
                sync_interval_secs
            } else {
                1
            }),
            r@.jitter_secs == jitter_secs,
            !r@.shutdown_requested,
            r@.state.mode == DaemonMode::Running,
            r@.state.known_peers_count == 0,
            !r@.state.sync_trigger_pending,
            r@.state.next_sync_due_secs == started_at_secs + r@.sync_interval_secs + jitter_secs,
            !r@.state.in_flight_sync,
            r@.state.last_successful_sync_at_secs is None,
            r@.state.last_peer_errors@ == Seq::<PeerSyncError>::empty(),
            r@.state.last_critical_error is None,
            daemon_wf(r@),
    {
        let sync_interval_secs = if sync_interval_secs >= 1 {
            sync_interval_secs
        } else {
            1
        };
        let next_sync_due_secs = started_at_secs + sync_interval_secs + jitter_secs;
        DaemonLoop {
            sync_interval_secs,
            jitter_secs,
            shutdown_requested: false,
            state: DaemonState {
                mode: DaemonMode::Running,
                known_peers_count: 0,
                sync_trigger_pending: false,
                next_sync_due_secs,
                in_flight_sync: false,
                last_successful_sync_at_secs: None,
                last_peer_errors: Vec::new(),
                last_critical_error: None,
            },
        }
    }

    pub fn state(&self) -> (s: &DaemonState)
        ensures
            *s == self@.state,
    {
        &self.state
    }

    pub fn set_known_peers_count(&mut self, count: usize)
        ensures
            final(self)@ == peers_count_step(old(self)@, count),
            daemon_wf(old(self)@) ==> daemon_wf(final(self)@),
    {
        self.state.known_peers_count = count;
    }

    /// Asks for a sync cycle; only a running daemon takes the request.
    pub fn trigger_sync_from_discovery(&mut self)
        ensures
            final(self)@ == trigger_step(old(self)@),
            daemon_wf(old(self)@) ==> daemon_wf(final(self)@),
    {
        if self.state.mode == DaemonMode::Running {
            self.state.sync_trigger_pending = true;
        }
    }

    /// Records a shutdown request: a daemon with a sync in flight starts
    /// stopping, any other stops at once.
    pub fn request_shutdown(&mut self)
        ensures
            final(self)@ == shutdown_step(old(self)@),
            daemon_wf(old(self)@) ==> daemon_wf(final(self)@),
    {
        self.shutdown_requested = true;
        if self.state.mode == DaemonMode::Stopped {
            return;
        }
        if self.state.in_flight_sync {
            self.state.mode = DaemonMode::Stopping;
        } else {
            self.state.mode = DaemonMode::Stopped;
        }
    }

    pub fn should_start_sync(&self, now_secs: u64) -> (b: bool)
        ensures
            b == should_start(self@, now_secs),
    {
        if self.state.mode == DaemonMode::Stopped || self.shutdown_requested
            || self.state.in_flight_sync {
            return false;
        }
        self.state.sync_trigger_pending || now_secs >= self.state.next_sync_due_secs
    }

    /// Starts a sync cycle when one may start; says whether it did.
    pub fn start_sync(&mut self, now_secs: u64) -> (b: bool)
        ensures
            b == should_start(old(self)@, now_secs),
            final(self)@ == start_step(old(self)@, now_secs),
            daemon_wf(old(self)@) ==> daemon_wf(final(self)@),
    {
        if !self.should_start_sync(now_secs) {
            return false;
        }
        self.state.in_flight_sync = true;
        true
    }

    /// Runs the startup sync: its outcome is recorded whether or not a sync
    /// cycle would have been due.
    pub fn run_startup_sync(&mut self, execution: SyncExecution, now_secs: u64)
        requires
            finish_fits(old(self)@, execution, now_secs),
        ensures
            final(self)@ == finish_step(old(self)@, execution, now_secs),
            old(self)@.sync_interval_secs >= 1 ==> daemon_wf(final(self)@),
    {
        if !self.start_sync(now_secs) {
            self.state.in_flight_sync = true;
        }
        self.finish_sync(execution, now_secs);
    }

    /// Records the outcome of the sync in flight.
    pub fn finish_sync(&mut self, execution: SyncExecution, now_secs: u64)
        requires
            finish_fits(old(self)@, execution, now_secs),
        ensures
            final(self)@ == finish_step(old(self)@, execution, now_secs),
            old(self)@.sync_interval_secs >= 1 ==> daemon_wf(final(self)@),
    {
        self.state.in_flight_sync = false;
        self.state.sync_trigger_pending = false;
        match execution {
            SyncExecution::Success(result) => {
                self.state.last_successful_sync_at_secs = Some(result.completed_at_secs);
                self.state.last_peer_errors = result.peer_errors;
                self.state.last_critical_error = None;
                self.state.next_sync_due_secs = now_secs + self.sync_interval_secs
                    + self.jitter_secs;
            },
            SyncExecution::CriticalFailure(message) => {
                self.state.last_critical_error = Some(message);
                self.state.mode = DaemonMode::Stopped;
                return;
            },
        }
        if self.shutdown_requested {
            self.state.mode = DaemonMode::Stopped;
        } else {
            self.state.mode = DaemonMode::Running;
        }
    }
}

/// After a shutdown request no sync cycle starts.
pub proof fn lemma_no_sync_after_shutdown(v: DaemonView, now: u64)
    requires
        v.shutdown_requested,
    ensures
        !should_start(v, now),
{
}

/// A sync that ends after a shutdown request leaves the daemon stopped.
pub proof fn lemma_shutdown_completes_with_sync(v: DaemonView, execution: SyncExecution, now: u64)
    requires
        v.shutdown_requested,
    ensures
        finish_step(v, execution, now).state.mode == DaemonMode::Stopped,
        !finish_step(v, execution, now).state.in_flight_sync,
{
}

/// A critical failure stops the daemon and records its message.
pub proof fn lemma_critical_failure_stops(v: DaemonView, message: String, now: u64)
    ensures
        finish_step(v, SyncExecution::CriticalFailure(message), now).state.mode
            == DaemonMode::Stopped,
        finish_step(v, SyncExecution::CriticalFailure(message), now).state.last_critical_error
            == Some(message),
{
}

/// Peer errors in a successful cycle do not stop a daemon that was not asked
/// to shut down; they are recorded, and the next poll is due one interval plus
/// the jitter later.
pub proof fn lemma_peer_errors_keep_running(v: DaemonView, result: SyncCycleResult, now: u64)
    requires
        !v.shutdown_requested,
        now + v.sync_interval_secs + v.jitter_secs <= u64::MAX,
    ensures
        ({
            let w = finish_step(v, SyncExecution::Success(result), now);
            &&& w.state.mode == DaemonMode::Running
            &&& w.state.last_peer_errors == result.peer_errors
            &&& w.state.last_critical_error is None
            &&& w.state.next_sync_due_secs == now + v.sync_interval_secs + v.jitter_secs
        }),
{
}

/// A discovery trigger makes a running daemon without a sync in flight start
/// one at any time, before the poll is due.
pub proof fn lemma_trigger_starts_sync(v: DaemonView, now: u64)
    requires
        daemon_wf(v),
        v.state.mode == DaemonMode::Running,
        !v.state.in_flight_sync,
    ensures
        should_start(
            DaemonView { state: DaemonState { sync_trigger_pending: true, ..v.state }, ..v },
            now,
        ),
{
}

/// Once a shutdown was requested, no sequence of later calls starts a sync
/// or makes the daemon run again: the request stays recorded, the daemon is
/// stopping or stopped, and no sync may start at any time.
pub proof fn lemma_shutdown_is_final(v: DaemonView, calls: Seq<DaemonCall>, now: u64)
    ensures
        ({
            let w = run_daemon(shutdown_step(v), calls);
            &&& w.shutdown_requested
            &&& w.state.mode != DaemonMode::Running
            &&& !should_start(w, now)
        }),
    decreases calls.len(),
{
    if calls.len() > 0 {
        lemma_shutdown_is_final(v, calls.drop_last(), now);
        let u = run_daemon(shutdown_step(v), calls.drop_last());
        lemma_no_sync_after_shutdown(u, now);
        match calls.last() {
            DaemonCall::StartSync(t) => lemma_no_sync_after_shutdown(u, t),
            _ => {},
        }
    }
}

} // verus!
