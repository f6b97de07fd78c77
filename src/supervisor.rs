//! The decisions of the supervisor: service status, the start sequence and
//! the stop protocol.
//!
//! Start and stop interleave outside work (probing processes, spawning,
//! sleeping, sending the shutdown request) with decisions. Each is a state
//! machine here: the caller performs the action that a step returns, reports
//! what happened as the next event, and stops at `Finish`.
use vstd::prelude::*;
use crate::identity::{RecordProbe, probe_valid, probe_is_valid};
use crate::record::{ServiceRecord, StartedBy};

verus! {

/// Grace period after a spawn before the launch is confirmed.
pub const LAUNCH_GRACE_MS: u64 = 500;

/// Interval between two liveness polls while stopping.
pub const POLL_INTERVAL_MS: u64 = 200;

/// Liveness polls after an acknowledged shutdown request (about 5 s).
pub const GRACEFUL_POLLS: u32 = 25;

/// Liveness polls after a forced termination (about 2 s).
pub const FORCE_KILL_POLLS: u32 = 10;

/// Timeout of the cooperative shutdown request.
pub const SHUTDOWN_TIMEOUT_SECS: u64 = 3;

/// Bytes of the service log attached to an immediate-exit failure.
pub const LOG_TAIL_BYTES: usize = 6000;

/// The in-memory handle of a process that this supervisor spawned, as seen
/// for one workspace.
#[derive(Clone, Copy, Debug, PartialEq, Eq, Structural)]
pub enum HandleState {
    /// No handle for this workspace.
    Absent,
    /// A handle whose process has exited; the observer drops it.
    Exited,
    /// A handle whose process is alive, with its pid.
    Alive(u32),
}

#[derive(Clone, Copy, Debug, PartialEq, Eq, Structural)]
pub struct ServiceStatus {
    pub running: bool,
    pub pid: Option<u32>,
}

pub open spec fn running(pid: u32) -> ServiceStatus {
    ServiceStatus { running: true, pid: Some(pid) }
}

pub open spec fn not_running() -> ServiceStatus {
    ServiceStatus { running: false, pid: None }
}

/// A status answer, and whether the registry entry is to be deleted.
#[derive(Clone, Copy, Debug, PartialEq, Eq, Structural)]
pub struct StatusReport {
    pub status: ServiceStatus,
    pub purge_record: bool,
}

pub open spec fn status_of(handle: HandleState, probe: Option<RecordProbe>) -> StatusReport {
    match handle {
        HandleState::Alive(p) => StatusReport { status: running(p), purge_record: false },
        HandleState::Exited => StatusReport { status: not_running(), purge_record: true },
        HandleState::Absent => match probe {
            Some(pr) => if probe_valid(pr) {
                StatusReport { status: running(pr.record.pid), purge_record: false }
            } else {
                StatusReport { status: not_running(), purge_record: true }
            },
            None => StatusReport { status: not_running(), purge_record: false },
        },
    }
}

/// The service's status from the handle and, failing that, the registry: a
/// live handle is authoritative; an exited one, or a record whose pid is dead
/// or now belongs to another process, reads as not running and is purged.
pub fn service_status(handle: HandleState, probe: Option<RecordProbe>) -> (r: StatusReport)
    ensures
        r == status_of(handle, probe),
{
    match handle {
        HandleState::Alive(p) => StatusReport {
            status: ServiceStatus { running: true, pid: Some(p) },
            purge_record: false,
        },
        HandleState::Exited => StatusReport {
            status: ServiceStatus { running: false, pid: None },
            purge_record: true,
        },
        HandleState::Absent => match probe {
            Some(pr) => if probe_is_valid(&pr) {
                StatusReport {
                    status: ServiceStatus { running: true, pid: Some(pr.record.pid) },
                    purge_record: false,
                }
            } else {
                StatusReport { status: ServiceStatus { running: false, pid: None }, purge_record: true }
            },
            None => StatusReport { status: ServiceStatus { running: false, pid: None }, purge_record: false },
        },
    }
}

/// Heartbeat check: whether the workspace's service process is alive, by the
/// handle when there is one, else by an identity-valid registry record.
pub fn check_pid_alive(handle: HandleState, probe: Option<RecordProbe>) -> (r: bool)
    ensures
        r == status_of(handle, probe).status.running,
{
    service_status(handle, probe).status.running
}

/// The last `LOG_TAIL_BYTES` bytes of a log, or all of a shorter one.
pub fn log_tail(log: &[u8]) -> (r: Vec<u8>)
    ensures
        r@ == if log@.len() > LOG_TAIL_BYTES {
            log@.subrange(log@.len() - LOG_TAIL_BYTES, log@.len() as int)
        } else {
            log@
        },
{
    let start: usize = if log.len() > LOG_TAIL_BYTES {
        log.len() - LOG_TAIL_BYTES
    } else {
        0
    };
    let mut out: Vec<u8> = Vec::new();
    let mut i: usize = start;
    while i < log.len()
        invariant
            start <= i <= log@.len(),
            out@ == log@.subrange(start as int, i as int),
        decreases log@.len() - i,
    {
        out.push(log[i]);
        assert(log@.subrange(start as int, i + 1) =~= log@.subrange(start as int, i as int).push(
            log@[i as int],
        ));
        i = i + 1;
    }
    assert(log@.subrange(0, log@.len() as int) =~= log@);
    out
}

/// Bytes of the service log that a log query returns when it names none.
pub const DEFAULT_LOG_QUERY_BYTES: u64 = 40000;

/// The most bytes of the service log that one query returns.
pub const MAX_LOG_QUERY_BYTES: u64 = 400000;

/// The part of a log file that a query returns: from `start` to the end;
/// `truncated` when that is not the whole file.
#[derive(Clone, Copy, Debug, PartialEq, Eq, Structural)]
pub struct LogWindow {
    pub start: u64,
    pub truncated: bool,
}

pub open spec fn query_bytes(tail_bytes: Option<u64>) -> u64 {
    let t = match tail_bytes {
        Some(t) => t,
        None => DEFAULT_LOG_QUERY_BYTES,
    };
    if t < MAX_LOG_QUERY_BYTES {
        t
    } else {
        MAX_LOG_QUERY_BYTES
    }
}

/// The window of a log of `len` bytes that a query for its last
/// `tail_bytes` bytes (default and cap above) returns.
pub fn log_window(len: u64, tail_bytes: Option<u64>) -> (r: LogWindow)
    ensures
        r.start == (if len > query_bytes(tail_bytes) {
            len - query_bytes(tail_bytes)
        } else {
            0
        }),
        r.truncated == (r.start > 0),
{
    let t = match tail_bytes {
        Some(t) => t,
        None => DEFAULT_LOG_QUERY_BYTES,
    };
    let tail = if t < MAX_LOG_QUERY_BYTES {
        t
    } else {
        MAX_LOG_QUERY_BYTES
    };
    let start = len.saturating_sub(tail);
    LogWindow { start, truncated: start > 0 }
}

/// Timeout of the pre-start health probe.
pub const HEALTH_TIMEOUT_SECS: u64 = 2;

/// Whether a background launch spawns the current workspace's service: only
/// when there is a current workspace and nothing answers the health probe
/// on its port (a service answering there, such as one started from the
/// command line, is left alone).
pub fn should_autostart(has_current_workspace: bool, port_answers_health: bool) -> (r: bool)
    ensures
        r == (has_current_workspace && !port_answers_health),
{
    has_current_workspace && !port_answers_health
}

// ---------------------------------------------------------------------------
// Start
#[derive(Clone, Copy, Debug, PartialEq, Eq, Structural)]
pub enum StartPhase {
    /// The handle is to be observed.
    Begin,
    /// The registry is to be read and its pid probed.
    Registry,
    /// The start lock is to be taken.
    Lock,
    /// The lock is held; the handle and the registry are to be looked at
    /// again, since another start may have launched in between.
    Recheck,
    /// The lock is held; a stale registry entry is being removed.
    Stale,
    /// The lock is held and the re-check found no live service; the
    /// process is to be spawned.
    Spawn,
    /// Spawned; the record is to be written and the handle kept.
    Persist { record: ServiceRecord },
    /// Recorded; the grace period is to pass and the pid to be probed.
    Confirm { pid: u32 },
    Finished,
}

#[derive(Clone, Copy, Debug, PartialEq, Eq, Structural)]
pub enum StartError {
    /// Another start of this workspace holds the lock: retry later.
    StartRace,
    /// The operating system refused to create the process.
    SpawnFailed,
    /// The registry record of the new process could not be written.
    RecordWriteFailed,
    /// The process exited within the grace period.
    ImmediateExit { pid: u32 },
    /// An event that does not answer the last action.
    OutOfOrder,
}

/// How a start ends. `release_lock`: delete the start lock marker.
/// `discard_launch`: terminate and drop the spawned process's handle and
/// delete its registry record.
#[derive(Clone, Copy, Debug, PartialEq, Eq)]
pub struct StartOutcome {
    /// The pid of the running service, or why there is none.
    pub result: Result<u32, StartError>,
    pub release_lock: bool,
    pub discard_launch: bool,
}

#[derive(Clone, Copy, Debug, PartialEq, Eq)]
pub enum StartAction {
    /// Observe this workspace's handle (`StartEvent::Handle`).
    ObserveHandle,
    /// Read the registry record and probe its pid (`StartEvent::Record`).
    ProbeRecord,
    /// With the lock held, delete the registry record, whose identity failed
    /// (`StartEvent::StaleRemoved`).
    RemoveStale,
    /// Create the lock marker exclusively (`StartEvent::Lock`).
    AcquireLock,
    /// With the lock held, observe the handle, read the registry record and
    /// probe its pid again (`StartEvent::Rechecked`).
    Recheck,
    /// Spawn the service process (`StartEvent::Spawned`).
    Spawn,
    /// Write this record (the new pid, launched by the supervisor, at the
    /// observed start time) as a whole file and keep the handle
    /// (`StartEvent::Persisted`).
    Persist { record: ServiceRecord },
    /// Wait `LAUNCH_GRACE_MS`, then probe the pid (`StartEvent::Alive`).
    Confirm { pid: u32 },
    Finish(StartOutcome),
}

/// A process just spawned: its pid and the time of the spawn, in seconds
/// since the Unix epoch.
#[derive(Clone, Copy, Debug, PartialEq, Eq, Structural)]
pub struct Launch {
    pub pid: u32,
    pub started_at: u64,
}

/// The registry record of a launch by this supervisor.
pub open spec fn launch_record(l: Launch) -> ServiceRecord {
    ServiceRecord { pid: l.pid, started_by: StartedBy::Supervisor, started_at: l.started_at }
}

#[derive(Clone, Copy, Debug, PartialEq, Eq)]
pub enum StartEvent {
    Handle(HandleState),
    Record(Option<RecordProbe>),
    StaleRemoved,
    Lock(bool),
    Rechecked { handle: HandleState, probe: Option<RecordProbe> },
    /// The new process, or none when the spawn failed.
    Spawned(Option<Launch>),
    Persisted(bool),
    Alive(bool),
}

/// The phases in which this start holds the lock.
pub open spec fn holds_lock(p: StartPhase) -> bool {
    match p {
        StartPhase::Recheck | StartPhase::Stale | StartPhase::Spawn | StartPhase::Persist { .. }
        | StartPhase::Confirm { .. } => true,
        _ => false,
    }
}

/// The phases after a successful spawn.
pub open spec fn has_spawned(p: StartPhase) -> bool {
    match p {
        StartPhase::Persist { .. } | StartPhase::Confirm { .. } => true,
        _ => false,
    }
}

pub open spec fn start_finish(p: StartPhase, result: Result<u32, StartError>, discard: bool) -> (
    StartPhase,
    StartAction,
) {
    (
        StartPhase::Finished,
        StartAction::Finish(
            StartOutcome { result, release_lock: holds_lock(p), discard_launch: discard },
        ),
    )
}

/// One step of the start sequence.
pub open spec fn start_next(p: StartPhase, e: StartEvent) -> (StartPhase, StartAction) {
    match (p, e) {
        (StartPhase::Begin, StartEvent::Handle(HandleState::Alive(pid))) => start_finish(
            p,
            Ok(pid),
            false,
        ),
        (StartPhase::Begin, StartEvent::Handle(_)) => (StartPhase::Registry, StartAction::ProbeRecord),
        (StartPhase::Registry, StartEvent::Record(Some(pr))) => if probe_valid(pr) {
            start_finish(p, Ok(pr.record.pid), false)
        } else {
            (StartPhase::Lock, StartAction::AcquireLock)
        },
        (StartPhase::Registry, StartEvent::Record(None)) => (
            StartPhase::Lock,
            StartAction::AcquireLock,
        ),
        (StartPhase::Stale, StartEvent::StaleRemoved) => (StartPhase::Spawn, StartAction::Spawn),
        (StartPhase::Lock, StartEvent::Lock(true)) => (StartPhase::Recheck, StartAction::Recheck),
        (StartPhase::Recheck, StartEvent::Rechecked { handle, probe }) => match handle {
            HandleState::Alive(pid) => start_finish(p, Ok(pid), false),
            _ => match probe {
                Some(pr) => if probe_valid(pr) {
                    start_finish(p, Ok(pr.record.pid), false)
                } else {
                    (StartPhase::Stale, StartAction::RemoveStale)
                },
                None => (StartPhase::Spawn, StartAction::Spawn),
            },
        },
        (StartPhase::Lock, StartEvent::Lock(false)) => start_finish(
            p,
            Err(StartError::StartRace),
            false,
        ),
        (StartPhase::Spawn, StartEvent::Spawned(Some(l))) => (
            StartPhase::Persist { record: launch_record(l) },
            StartAction::Persist { record: launch_record(l) },
        ),
        (StartPhase::Spawn, StartEvent::Spawned(None)) => start_finish(
            p,
            Err(StartError::SpawnFailed),
            false,
        ),
        (StartPhase::Persist { record }, StartEvent::Persisted(true)) => (
            StartPhase::Confirm { pid: record.pid },
            StartAction::Confirm { pid: record.pid },
        ),
        (StartPhase::Persist { .. }, StartEvent::Persisted(false)) => start_finish(
            p,
            Err(StartError::RecordWriteFailed),
            true,
        ),
        (StartPhase::Confirm { pid }, StartEvent::Alive(true)) => start_finish(p, Ok(pid), false),
        (StartPhase::Confirm { pid }, StartEvent::Alive(false)) => start_finish(
            p,
            Err(StartError::ImmediateExit { pid }),
            true,
        ),
        _ => start_finish(p, Err(StartError::OutOfOrder), has_spawned(p)),
    }
}

/// The first action of a start.
pub fn start_begin() -> (r: (StartPhase, StartAction))
    ensures
        r == (StartPhase::Begin, StartAction::ObserveHandle),
{
    (StartPhase::Begin, StartAction::ObserveHandle)
}

fn start_finish_exec(p: StartPhase, result: Result<u32, StartError>, discard: bool) -> (r: (
    StartPhase,
    StartAction,
))
    ensures
        r == start_finish(p, result, discard),
{
    let held = match p {
        StartPhase::Recheck | StartPhase::Stale | StartPhase::Spawn | StartPhase::Persist { .. }
        | StartPhase::Confirm { .. } => true,
        _ => false,
    };
    (
        StartPhase::Finished,
        StartAction::Finish(StartOutcome { result, release_lock: held, discard_launch: discard }),
    )
}

/// The next phase and action of a start, given the event that answered its
/// last action. The lock is taken only by exclusive creation, spawning
/// happens only while it is held, and every ending of a start that holds it
/// releases it.
pub fn start_step(p: StartPhase, e: StartEvent) -> (r: (StartPhase, StartAction))
    ensures
        r == start_next(p, e),
{
    match (p, e) {
        (StartPhase::Begin, StartEvent::Handle(HandleState::Alive(pid))) => start_finish_exec(
            p,
            Ok(pid),
            false,
        ),
        (StartPhase::Begin, StartEvent::Handle(_)) => (StartPhase::Registry, StartAction::ProbeRecord),
        (StartPhase::Registry, StartEvent::Record(Some(pr))) => if probe_is_valid(&pr) {
            start_finish_exec(p, Ok(pr.record.pid), false)
        } else {
            (StartPhase::Lock, StartAction::AcquireLock)
        },
        (StartPhase::Registry, StartEvent::Record(None)) => (
            StartPhase::Lock,
            StartAction::AcquireLock,
        ),
        (StartPhase::Stale, StartEvent::StaleRemoved) => (StartPhase::Spawn, StartAction::Spawn),
        (StartPhase::Lock, StartEvent::Lock(true)) => (StartPhase::Recheck, StartAction::Recheck),
        (StartPhase::Recheck, StartEvent::Rechecked { handle, probe }) => match handle {
            HandleState::Alive(pid) => start_finish_exec(p, Ok(pid), false),
            _ => match probe {
                Some(pr) => if probe_is_valid(&pr) {
                    start_finish_exec(p, Ok(pr.record.pid), false)
                } else {
                    (StartPhase::Stale, StartAction::RemoveStale)
                },
                None => (StartPhase::Spawn, StartAction::Spawn),
            },
        },
        (StartPhase::Lock, StartEvent::Lock(false)) => start_finish_exec(
            p,
            Err(StartError::StartRace),
            false,
        ),
        (StartPhase::Spawn, StartEvent::Spawned(Some(l))) => {
            let record = ServiceRecord {
                pid: l.pid,
                started_by: StartedBy::Supervisor,
                started_at: l.started_at,
            };
            (StartPhase::Persist { record }, StartAction::Persist { record })
        },
        (StartPhase::Spawn, StartEvent::Spawned(None)) => start_finish_exec(
            p,
            Err(StartError::SpawnFailed),
            false,
        ),
        (StartPhase::Persist { record }, StartEvent::Persisted(true)) => (
            StartPhase::Confirm { pid: record.pid },
            StartAction::Confirm { pid: record.pid },
        ),
        (StartPhase::Persist { .. }, StartEvent::Persisted(false)) => start_finish_exec(
            p,
            Err(StartError::RecordWriteFailed),
            true,
        ),
        (StartPhase::Confirm { pid }, StartEvent::Alive(true)) => start_finish_exec(
            p,
            Ok(pid),
            false,
        ),
        (StartPhase::Confirm { pid }, StartEvent::Alive(false)) => start_finish_exec(
            p,
            Err(StartError::ImmediateExit { pid }),
            true,
        ),
        _ => {
            let spawned = match p {
                StartPhase::Persist { .. } | StartPhase::Confirm { .. } => true,
                _ => false,
            };
            start_finish_exec(p, Err(StartError::OutOfOrder), spawned)
        },
    }
}

// ---------------------------------------------------------------------------
// Stop
#[derive(Clone, Copy, Debug, PartialEq, Eq, Structural)]
pub enum StopPhase {
    /// The handle and the registry are to be observed.
    Begin,
    /// The target's liveness is to be checked.
    Running { pid: u32, via_handle: bool },
    /// The cooperative shutdown request is out.
    GracefulRequested { pid: u32, via_handle: bool },
    /// Polling after an acknowledged request; `polls` remain.
    GracefulWait { pid: u32, via_handle: bool, polls: u32 },
    /// The forced termination signal is out.
    ForceKillRequested { pid: u32, via_handle: bool },
    /// Polling after the signal; `polls` remain.
    ForceKillWait { pid: u32, via_handle: bool, polls: u32 },
    /// The last resort through the handle is out.
    HandleKill { pid: u32 },
    Finished,
}

#[derive(Clone, Copy, Debug, PartialEq, Eq, Structural)]
pub enum StopError {
    /// Neither the cooperative nor the forced stop ended the process.
    StopFailed { pid: u32 },
    /// An event that does not answer the last action.
    OutOfOrder,
}

/// How a stop ends. This workspace's handle, if any, is dropped in every
/// case; `purge_record`: delete the registry record.
#[derive(Clone, Copy, Debug, PartialEq, Eq)]
pub struct StopOutcome {
    pub result: Result<(), StopError>,
    pub purge_record: bool,
}

#[derive(Clone, Copy, Debug, PartialEq, Eq)]
pub enum StopAction {
    /// Observe the handle, read the registry and probe its pid
    /// (`StopEvent::Observed`).
    Observe,
    /// Probe the pid now (`StopEvent::Alive`).
    CheckAlive { pid: u32 },
    /// Send the cooperative shutdown request to the service's port, with a
    /// timeout of `SHUTDOWN_TIMEOUT_SECS` (`StopEvent::ShutdownAcked`).
    RequestShutdown { pid: u32 },
    /// Wait `POLL_INTERVAL_MS`, then probe the pid (`StopEvent::Alive`).
    Poll { pid: u32 },
    /// Send the forced termination signal (`StopEvent::KillSent`).
    Kill { pid: u32 },
    /// Kill the process through the handle and wait for it, then probe the
    /// pid (`StopEvent::Alive`).
    KillHandle { pid: u32 },
    Finish(StopOutcome),
}

#[derive(Clone, Copy, Debug, PartialEq, Eq)]
pub enum StopEvent {
    Observed { handle: HandleState, probe: Option<RecordProbe> },
    Alive(bool),
    /// Whether a 2xx answer came back; no answer is `false`.
    ShutdownAcked(bool),
    KillSent,
}

pub open spec fn stopped() -> (StopPhase, StopAction) {
    (StopPhase::Finished, StopAction::Finish(StopOutcome { result: Ok(()), purge_record: true }))
}

pub open spec fn stop_failed(pid: u32) -> (StopPhase, StopAction) {
    (
        StopPhase::Finished,
        StopAction::Finish(
            StopOutcome { result: Err(StopError::StopFailed { pid }), purge_record: false },
        ),
    )
}

/// What a stop does once it has observed the handle and the registry: a
/// live handle's process is the target; otherwise a record whose identity
/// holds names it. A record that fails the identity check is purged and its
/// pid never touched.
pub open spec fn stop_target(handle: HandleState, probe: Option<RecordProbe>) -> (
    StopPhase,
    StopAction,
) {
    match handle {
        HandleState::Alive(pid) => (
            StopPhase::Running { pid, via_handle: true },
            StopAction::CheckAlive { pid },
        ),
        _ => match probe {
            Some(pr) => if probe_valid(pr) {
                (
                    StopPhase::Running { pid: pr.record.pid, via_handle: false },
                    StopAction::CheckAlive { pid: pr.record.pid },
                )
            } else {
                stopped()
            },
            None => (
                StopPhase::Finished,
                StopAction::Finish(StopOutcome { result: Ok(()), purge_record: false }),
            ),
        },
    }
}

/// After the last poll of the forced wait found the process alive.
pub open spec fn force_exhausted(pid: u32, via_handle: bool) -> (StopPhase, StopAction) {
    if via_handle {
        (StopPhase::HandleKill { pid }, StopAction::KillHandle { pid })
    } else {
        stop_failed(pid)
    }
}

/// One step of the stop protocol.
pub open spec fn stop_next(p: StopPhase, e: StopEvent) -> (StopPhase, StopAction) {
    match (p, e) {
        (StopPhase::Begin, StopEvent::Observed { handle, probe }) => stop_target(handle, probe),
        (StopPhase::Running { .. }, StopEvent::Alive(false)) => stopped(),
        (StopPhase::Running { pid, via_handle }, StopEvent::Alive(true)) => (
            StopPhase::GracefulRequested { pid, via_handle },
            StopAction::RequestShutdown { pid },
        ),
        (StopPhase::GracefulRequested { pid, via_handle }, StopEvent::ShutdownAcked(true)) => (
            StopPhase::GracefulWait { pid, via_handle, polls: GRACEFUL_POLLS },
            StopAction::Poll { pid },
        ),
        (StopPhase::GracefulRequested { pid, via_handle }, StopEvent::ShutdownAcked(false)) => (
            StopPhase::ForceKillRequested { pid, via_handle },
            StopAction::Kill { pid },
        ),
        (StopPhase::GracefulWait { .. }, StopEvent::Alive(false)) => stopped(),
        (StopPhase::GracefulWait { pid, via_handle, polls }, StopEvent::Alive(true)) => if polls
            > 1 {
            (StopPhase::GracefulWait { pid, via_handle, polls: (polls - 1) as u32 }, StopAction::Poll { pid })
        } else {
            (StopPhase::ForceKillRequested { pid, via_handle }, StopAction::Kill { pid })
        },
        (StopPhase::ForceKillRequested { pid, via_handle }, StopEvent::KillSent) => (
            StopPhase::ForceKillWait { pid, via_handle, polls: FORCE_KILL_POLLS },
            StopAction::Poll { pid },
        ),
        (StopPhase::ForceKillWait { .. }, StopEvent::Alive(false)) => stopped(),
        (StopPhase::ForceKillWait { pid, via_handle, polls }, StopEvent::Alive(true)) => if polls
            > 1 {
            (
                StopPhase::ForceKillWait { pid, via_handle, polls: (polls - 1) as u32 },
                StopAction::Poll { pid },
            )
        } else {
            force_exhausted(pid, via_handle)
        },
        (StopPhase::HandleKill { .. }, StopEvent::Alive(false)) => stopped(),
        (StopPhase::HandleKill { pid }, StopEvent::Alive(true)) => stop_failed(pid),
        _ => (
            StopPhase::Finished,
            StopAction::Finish(StopOutcome { result: Err(StopError::OutOfOrder), purge_record: false }),
        ),
    }
}

/// The first action of a stop.
pub fn stop_begin() -> (r: (StopPhase, StopAction))
    ensures
        r == (StopPhase::Begin, StopAction::Observe),
{
    (StopPhase::Begin, StopAction::Observe)
}

fn stopped_exec() -> (r: (StopPhase, StopAction))
    ensures
        r == stopped(),
{
    (StopPhase::Finished, StopAction::Finish(StopOutcome { result: Ok(()), purge_record: true }))
}

fn stop_failed_exec(pid: u32) -> (r: (StopPhase, StopAction))
    ensures
        r == stop_failed(pid),
{
    (
        StopPhase::Finished,
        StopAction::Finish(
            StopOutcome { result: Err(StopError::StopFailed { pid }), purge_record: false },
        ),
    )
}

/// The next phase and action of a stop, given the event that answered its
/// last action. A stop targets only a live handle's process or a record
/// whose identity holds, ends `Ok` only once the process is seen dead, and
/// keeps the record when it ends in `StopFailed`.
pub fn stop_step(p: StopPhase, e: StopEvent) -> (r: (StopPhase, StopAction))
    ensures
        r == stop_next(p, e),
{
    match (p, e) {
        (StopPhase::Begin, StopEvent::Observed { handle, probe }) => match handle {
            HandleState::Alive(pid) => (
                StopPhase::Running { pid, via_handle: true },
                StopAction::CheckAlive { pid },
            ),
            _ => match probe {
                Some(pr) => if probe_is_valid(&pr) {
                    (
                        StopPhase::Running { pid: pr.record.pid, via_handle: false },
                        StopAction::CheckAlive { pid: pr.record.pid },
                    )
                } else {
                    stopped_exec()
                },
                None => (
                    StopPhase::Finished,
                    StopAction::Finish(StopOutcome { result: Ok(()), purge_record: false }),
                ),
            },
        },
        (StopPhase::Running { .. }, StopEvent::Alive(false)) => stopped_exec(),
        (StopPhase::Running { pid, via_handle }, StopEvent::Alive(true)) => (
            StopPhase::GracefulRequested { pid, via_handle },
            StopAction::RequestShutdown { pid },
        ),
        (StopPhase::GracefulRequested { pid, via_handle }, StopEvent::ShutdownAcked(true)) => (
            StopPhase::GracefulWait { pid, via_handle, polls: GRACEFUL_POLLS },
            StopAction::Poll { pid },
        ),
        (StopPhase::GracefulRequested { pid, via_handle }, StopEvent::ShutdownAcked(false)) => (
            StopPhase::ForceKillRequested { pid, via_handle },
            StopAction::Kill { pid },
        ),
        (StopPhase::GracefulWait { .. }, StopEvent::Alive(false)) => stopped_exec(),
        (StopPhase::GracefulWait { pid, via_handle, polls }, StopEvent::Alive(true)) => if polls
            > 1 {
            (StopPhase::GracefulWait { pid, via_handle, polls: polls - 1 }, StopAction::Poll { pid })
        } else {
            (StopPhase::ForceKillRequested { pid, via_handle }, StopAction::Kill { pid })
        },
        (StopPhase::ForceKillRequested { pid, via_handle }, StopEvent::KillSent) => (
            StopPhase::ForceKillWait { pid, via_handle, polls: FORCE_KILL_POLLS },
            StopAction::Poll { pid },
        ),
        (StopPhase::ForceKillWait { .. }, StopEvent::Alive(false)) => stopped_exec(),
        (StopPhase::ForceKillWait { pid, via_handle, polls }, StopEvent::Alive(true)) => if polls
            > 1 {
            (StopPhase::ForceKillWait { pid, via_handle, polls: polls - 1 }, StopAction::Poll { pid })
        } else if via_handle {
            (StopPhase::HandleKill { pid }, StopAction::KillHandle { pid })
        } else {
            stop_failed_exec(pid)
        },
        (StopPhase::HandleKill { .. }, StopEvent::Alive(false)) => stopped_exec(),
        (StopPhase::HandleKill { pid }, StopEvent::Alive(true)) => stop_failed_exec(pid),
        _ => (
            StopPhase::Finished,
            StopAction::Finish(StopOutcome { result: Err(StopError::OutOfOrder), purge_record: false }),
        ),
    }
}

// ---------------------------------------------------------------------------
// Laws
/// A bound on the steps that a start still takes.
pub open spec fn start_budget(p: StartPhase) -> nat {
    match p {
        StartPhase::Begin => 8,
        StartPhase::Registry => 7,
        StartPhase::Lock => 6,
        StartPhase::Recheck => 5,
        StartPhase::Stale => 4,
        StartPhase::Spawn => 3,
        StartPhase::Persist { .. } => 2,
        StartPhase::Confirm { .. } => 1,
        StartPhase::Finished => 0,
    }
}

/// A bound on the steps that a stop still takes.
pub open spec fn stop_budget(p: StopPhase) -> nat {
    match p {
        StopPhase::Begin => (GRACEFUL_POLLS + FORCE_KILL_POLLS + 7) as nat,
        StopPhase::Running { .. } => (GRACEFUL_POLLS + FORCE_KILL_POLLS + 6) as nat,
        StopPhase::GracefulRequested { .. } => (GRACEFUL_POLLS + FORCE_KILL_POLLS + 5) as nat,
        StopPhase::GracefulWait { polls, .. } => (polls + FORCE_KILL_POLLS + 4) as nat,
        StopPhase::ForceKillRequested { .. } => (FORCE_KILL_POLLS + 3) as nat,
        StopPhase::ForceKillWait { polls, .. } => (polls + 2) as nat,
        StopPhase::HandleKill { .. } => (1) as nat,
        StopPhase::Finished => (0) as nat,
    }
}

/// Start and stop are bounded: every step of an unfinished run either
/// finishes it or lowers its budget, so a start takes at most nine steps
/// and a stop at most `GRACEFUL_POLLS + FORCE_KILL_POLLS + 8`.
pub proof fn lemma_runs_are_bounded(sp: StartPhase, se: StartEvent, tp: StopPhase, te: StopEvent)
    ensures
        sp != StartPhase::Finished ==> start_budget(start_next(sp, se).0) < start_budget(sp),
        (start_next(sp, se).0 == StartPhase::Finished) == (start_next(sp, se).1 is Finish),
        tp != StopPhase::Finished ==> stop_budget(stop_next(tp, te).0) < stop_budget(tp),
        (stop_next(tp, te).0 == StopPhase::Finished) == (stop_next(tp, te).1 is Finish),
{
}

/// What a re-check under the lock found: no live handle and no record
/// whose identity holds.
pub open spec fn found_nothing_live(e: StartEvent) -> bool {
    match e {
        StartEvent::Rechecked { handle, probe } => !(handle is Alive) && match probe {
            Some(pr) => !probe_valid(pr),
            None => true,
        },
        _ => false,
    }
}

/// Start-lock discipline: a start holds the lock only after its exclusive
/// creation succeeded; it spawns only while holding it, and only after a
/// re-check of the handle and the registry made under the lock found no
/// live service (directly, or through the removal of the stale record that
/// re-check found); it ends with `StartRace` and no spawn when the creation
/// fails; and it releases the lock on every finish once held (success,
/// failure or a confused driver alike). Stale records are removed only
/// under the lock.
pub proof fn lemma_start_lock_discipline(p: StartPhase, e: StartEvent)
    ensures
        start_next(p, e).1 == StartAction::Spawn ==> holds_lock(start_next(p, e).0),
        start_next(p, e).1 == StartAction::Spawn ==> (p == StartPhase::Recheck && found_nothing_live(
            e,
        )) || (p == StartPhase::Stale && e == StartEvent::StaleRemoved),
        start_next(p, e).1 == StartAction::RemoveStale ==> p == StartPhase::Recheck
            && found_nothing_live(e) && holds_lock(start_next(p, e).0),
        holds_lock(start_next(p, e).0) && !holds_lock(p) ==> p == StartPhase::Lock && e
            == StartEvent::Lock(true),
        start_next(p, e).1 matches StartAction::Finish(o) ==> o.release_lock == holds_lock(p)
            && !holds_lock(start_next(p, e).0),
        p == StartPhase::Lock && e == StartEvent::Lock(false) ==> start_next(p, e).1
            == StartAction::Finish(
            StartOutcome {
                result: Err(StartError::StartRace),
                release_lock: false,
                discard_launch: false,
            },
        ),
{
}

/// Whether the lock marker exists after a start in phase `p` took a step on
/// event `e` to action `a`: it was created by the start's exclusive creation,
/// or deleted by its releasing finish.
pub open spec fn marker_after(present: bool, p: StartPhase, e: StartEvent, a: StartAction) -> bool {
    if p == StartPhase::Lock && e == StartEvent::Lock(true) {
        true
    } else if a matches StartAction::Finish(o) && o.release_lock {
        false
    } else {
        present
    }
}

/// Concurrent starts of one workspace never hold the lock at once: while
/// the lock marker exists exactly when one of two starts holds it, and
/// exclusive creation succeeds exactly when it is absent, a step of either
/// start keeps it so. (That the second start then does not spawn a second
/// backend is `lemma_starts_spawn_one_backend`.)
pub proof fn lemma_concurrent_starts_exclusive(
    present: bool,
    a: StartPhase,
    b: StartPhase,
    e: StartEvent,
)
    requires
        present == (holds_lock(a) || holds_lock(b)),
        !(holds_lock(a) && holds_lock(b)),
        a == StartPhase::Lock && e == StartEvent::Lock(true) ==> !present,
    ensures
        marker_after(present, a, e, start_next(a, e).1) == (holds_lock(start_next(a, e).0) || holds_lock(
            b,
        )),
        !(holds_lock(start_next(a, e).0) && holds_lock(b)),
{
}

/// Identity soundness: a record whose pid now belongs to a process created
/// away from the recorded start reads as not running and is purged by a
/// status query; a stop purges it without probing or signalling the pid;
/// a start does not report it running, and once it holds the lock removes
/// it as stale before spawning.
pub proof fn lemma_reused_pid_never_targeted(handle: HandleState, pr: RecordProbe)
    requires
        !(handle is Alive),
        pr.record.started_at != 0,
        pr.creation_time matches Some(c) && crate::identity::abs_diff(pr.record.started_at, c)
            > crate::identity::IDENTITY_TOLERANCE_SECS,
    ensures
        status_of(handle, Some(pr)) == (StatusReport { status: not_running(), purge_record: true }),
        stop_next(StopPhase::Begin, (StopEvent::Observed { handle, probe: Some(pr) })) == stopped(),
        start_next(StartPhase::Registry, StartEvent::Record(Some(pr))) == (
            StartPhase::Lock,
            StartAction::AcquireLock,
        ),
        start_next(StartPhase::Recheck, (StartEvent::Rechecked { handle, probe: Some(pr) })) == (
            StartPhase::Stale,
            StartAction::RemoveStale,
        ),
{
}

pub open spec fn finishes_ok(a: StopAction) -> bool {
    match a {
        StopAction::Finish(o) => o.result is Ok,
        _ => false,
    }
}

pub open spec fn finishes_failed(a: StopAction) -> bool {
    match a {
        StopAction::Finish(o) => o.result is Err,
        _ => false,
    }
}

pub open spec fn finish_purges(a: StopAction) -> bool {
    match a {
        StopAction::Finish(o) => o.purge_record,
        _ => false,
    }
}

pub open spec fn observed_nothing() -> StopEvent {
    StopEvent::Observed { handle: HandleState::Absent, probe: None }
}

/// Idempotent stop: a stop that ends well after finding a target deletes
/// the record (and, as every stop does, drops the handle); a stop that then
/// finds neither handle nor record ends `Ok` at once, touching nothing.
pub proof fn lemma_stop_idempotent(p: StopPhase, e: StopEvent)
    ensures
        p != StopPhase::Begin && finishes_ok(stop_next(p, e).1) ==> finish_purges(
            stop_next(p, e).1,
        ),
        stop_next(StopPhase::Begin, observed_nothing()) == (
            StopPhase::Finished,
            StopAction::Finish((StopOutcome { result: Ok(()), purge_record: false })),
        ),
{
}

/// A stop ends `Ok` only after the process was seen dead, and a failed stop
/// keeps the record so that status still reflects the live process.
pub proof fn lemma_stop_outcomes(p: StopPhase, e: StopEvent)
    ensures
        p != StopPhase::Begin && finishes_ok(stop_next(p, e).1) ==> e == StopEvent::Alive(false),
        finishes_failed(stop_next(p, e).1) ==> !finish_purges(stop_next(p, e).1),
{
}

/// Grace-window detection: a launch found dead after the grace period ends
/// in `ImmediateExit`, releasing the lock and discarding the handle and the
/// record; with both gone, status reports the service as not running.
pub proof fn lemma_immediate_exit_detected(pid: u32)
    ensures
        start_next(StartPhase::Confirm { pid }, StartEvent::Alive(false)) == (
            StartPhase::Finished,
            StartAction::Finish(
                StartOutcome {
                    result: Err(StartError::ImmediateExit { pid }),
                    release_lock: true,
                    discard_launch: true,
                },
            ),
        ),
        status_of(HandleState::Absent, None).status == not_running(),
{
}

/// The record a launch writes: the spawned pid, launched by the supervisor,
/// at the start time observed for the spawn; the launch is confirmed only
/// after that record was written.
pub proof fn lemma_launch_is_recorded(l: Launch)
    ensures
        start_next(StartPhase::Spawn, StartEvent::Spawned(Some(l))).1 == (StartAction::Persist {
            record: ServiceRecord {
                pid: l.pid,
                started_by: StartedBy::Supervisor,
                started_at: l.started_at,
            },
        }),
        start_next(StartPhase::Persist { record: launch_record(l) }, StartEvent::Persisted(true)).1
            == (StartAction::Confirm { pid: l.pid }),
{
}

/// The other half of mutual exclusion: a start that comes after a confirmed
/// launch (no handle of its own, the launch's record on disk, its process
/// alive and created within the tolerance of the recorded time, or its
/// creation time unknown) reports that pid as running, taking neither the
/// lock nor spawning.
pub proof fn lemma_later_start_sees_launch(l: Launch, creation_time: Option<u64>)
    requires
        l.started_at != 0 ==> (creation_time matches Some(c) ==> crate::identity::abs_diff(
            l.started_at,
            c,
        ) <= crate::identity::IDENTITY_TOLERANCE_SECS),
    ensures
        start_next(StartPhase::Begin, StartEvent::Handle(HandleState::Absent)) == (
            StartPhase::Registry,
            StartAction::ProbeRecord,
        ),
        start_next(
            StartPhase::Registry,
            StartEvent::Record(Some(RecordProbe { record: launch_record(l), alive: true, creation_time })),
        ) == start_finish(StartPhase::Registry, Ok(l.pid), false),
        !holds_lock(StartPhase::Registry),
        start_next(
            StartPhase::Recheck,
            (StartEvent::Rechecked {
                handle: HandleState::Absent,
                probe: Some(RecordProbe { record: launch_record(l), alive: true, creation_time }),
            }),
        ) == start_finish(StartPhase::Recheck, Ok(l.pid), false),
        holds_lock(StartPhase::Recheck),
{
}

// ---------------------------------------------------------------------------
// Two starts of one workspace
/// What two starts of one workspace share: the lock marker; whether a
/// backend that a start spawned is alive; and whether its record is on disk.
pub struct StartWorld {
    pub marker: bool,
    pub live: bool,
    pub recorded: bool,
}

/// The answers that the file system and the process table can give a start
/// in phase `p`: exclusive creation succeeds exactly when the marker is
/// absent, and a re-check made under the lock sees the live backend's
/// record with its identity holding. Every other answer is free.
pub open spec fn answer_possible(w: StartWorld, p: StartPhase, e: StartEvent) -> bool {
    &&& (p == StartPhase::Lock && e is Lock) ==> e == StartEvent::Lock(!w.marker)
    &&& (p == StartPhase::Recheck && w.live && w.recorded) ==> !found_nothing_live(e)
}

/// The shared world after a start in phase `p` took a step on event `e`.
pub open spec fn world_after(w: StartWorld, p: StartPhase, e: StartEvent) -> StartWorld {
    let a = start_next(p, e).1;
    if p == StartPhase::Lock && e == StartEvent::Lock(true) {
        StartWorld { marker: true, ..w }
    } else if p == StartPhase::Stale && e == StartEvent::StaleRemoved {
        StartWorld { recorded: false, ..w }
    } else if p == StartPhase::Spawn && e matches StartEvent::Spawned(Some(_)) {
        StartWorld { live: true, recorded: false, ..w }
    } else if p is Persist && e == StartEvent::Persisted(true) {
        StartWorld { recorded: true, ..w }
    } else {
        match a {
            StartAction::Finish(o) => StartWorld {
                marker: if o.release_lock {
                    false
                } else {
                    w.marker
                },
                live: if o.discard_launch {
                    false
                } else {
                    w.live
                },
                recorded: if o.discard_launch {
                    false
                } else {
                    w.recorded
                },
            },
            _ => w,
        }
    }
}

/// The invariant of two starts `a` and `b` in world `w`.
pub open spec fn starts_consistent(w: StartWorld, a: StartPhase, b: StartPhase) -> bool {
    &&& w.marker == (holds_lock(a) || holds_lock(b))
    &&& !(holds_lock(a) && holds_lock(b))
    &&& (a == StartPhase::Stale || a == StartPhase::Spawn) ==> !w.live
    &&& (b == StartPhase::Stale || b == StartPhase::Spawn) ==> !w.live
    &&& (a is Persist) ==> !w.recorded
    &&& (b is Persist) ==> !w.recorded
    &&& (w.live && !w.recorded) ==> (a is Persist || b is Persist)
}

/// Mutual exclusion: of two starts of one workspace, however their steps
/// interleave (and whenever a backend dies), a start spawns only when no
/// backend that a start spawned is alive. So at most one live backend ever
/// exists, and a start that does not spawn ends with `StartRace`, with the
/// pid of the running service, or with the failure of the other's launch
/// behind it. The invariant holds at the outset (no marker, no backend) and
/// after every step of either start, every death of the backend, and every
/// purge of a dead backend's record (by a status query or a stop).
pub proof fn lemma_starts_spawn_one_backend(w: StartWorld, a: StartPhase, b: StartPhase, e: StartEvent)
    requires
        starts_consistent(w, a, b),
        answer_possible(w, a, e),
    ensures
        starts_consistent(
            StartWorld { marker: false, live: false, recorded: false },
            StartPhase::Begin,
            StartPhase::Begin,
        ),
        start_next(a, e).1 is Persist ==> !w.live,
        starts_consistent(world_after(w, a, e), start_next(a, e).0, b),
        starts_consistent(StartWorld { live: false, ..w }, a, b),
        !w.live ==> starts_consistent(StartWorld { recorded: false, ..w }, a, b),
{
}

} // verus!
