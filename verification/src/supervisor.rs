//! The process supervisor: owner of the single tracked worker slot. All
//! transitions of the slot go through `start` and `stop`; `status` is a
//! pure read of the bookkeeping and never probes the platform, so a worker
//! that exits on its own is still reported as running until it is stopped.
//! Exclusive access to the slot (`&mut self`) gives the mutual exclusion
//! that the surrounding shell provides with a lock, and the lock need only
//! be held for these state transitions, never while spawning or relaying.

use vstd::prelude::*;

verus! {

/// An exclusive, opaque reference to one running worker: the identifier
/// the platform gave the process, plus a token telling spawns apart.
#[derive(Clone, Copy, Debug, PartialEq, Eq, Structural)]
pub struct ProcessHandle {
    pub pid: u32,
    pub token: u64,
}

/// The supervisor's bookkeeping of its one worker slot. At most one handle
/// exists at any time.
#[derive(Clone, Copy, Debug, PartialEq, Eq, Structural)]
pub enum TrackedState {
    NotRunning,
    Running(ProcessHandle),
}

/// What `status` reports: the supervisor's own bookkeeping, not the
/// platform's view of the process.
#[derive(Clone, Copy, Debug, PartialEq, Eq, Structural)]
pub enum BotStatus {
    Running,
    Stopped,
}

/// Control-plane errors, surfaced synchronously to the caller; none is
/// retried.
#[derive(Clone, Copy, Debug, PartialEq, Eq, Structural)]
pub enum SupervisorError {
    AlreadyRunning,
    NotRunning,
    SpawnError,
}

/// What came of asking the platform to spawn the worker.
#[derive(Clone, Copy, Debug, PartialEq, Eq, Structural)]
pub enum SpawnOutcome {
    Spawned(ProcessHandle),
    Failed,
}

/// The `start` transition: refused outright while a worker is tracked;
/// otherwise the spawn outcome decides between tracking the new handle and
/// staying put with a spawn error.
pub open spec fn spec_start(st: TrackedState, outcome: SpawnOutcome) -> (
    TrackedState,
    Result<(), SupervisorError>,
) {
    match st {
        TrackedState::Running(h) => (st, Err(SupervisorError::AlreadyRunning)),
        TrackedState::NotRunning => match outcome {
            SpawnOutcome::Spawned(h) => (TrackedState::Running(h), Ok(())),
            SpawnOutcome::Failed => (TrackedState::NotRunning, Err(SupervisorError::SpawnError)),
        },
    }
}

/// The `stop` transition: the tracked handle is taken out — not merely
/// read — so a racing second stop finds the slot empty; stopping an empty
/// slot is an error, not a no-op.
pub open spec fn spec_stop(st: TrackedState) -> (
    TrackedState,
    Result<ProcessHandle, SupervisorError>,
) {
    match st {
        TrackedState::Running(h) => (TrackedState::NotRunning, Ok(h)),
        TrackedState::NotRunning => (TrackedState::NotRunning, Err(SupervisorError::NotRunning)),
    }
}

/// What `status` reports of a tracked state.
pub open spec fn spec_status(st: TrackedState) -> BotStatus {
    match st {
        TrackedState::Running(h) => BotStatus::Running,
        TrackedState::NotRunning => BotStatus::Stopped,
    }
}

/// Owns the one worker slot. The raw platform handle never leaves the
/// supervisor except through `stop`, which hands it out exactly once so
/// the caller can deliver the termination signal.
pub struct ProcessSupervisor {
    state: TrackedState,
}

impl ProcessSupervisor {
    /// The tracked state, for contracts.
    pub closed spec fn spec_state(&self) -> TrackedState {
        self.state
    }

    /// A fresh supervisor tracks no worker.
    pub fn new() -> (s: Self)
        ensures
            s.spec_state() == TrackedState::NotRunning,
    {
        ProcessSupervisor { state: TrackedState::NotRunning }
    }

    /// Records the outcome of one attempt to start the worker. While a
    /// worker is already tracked the attempt is refused; otherwise a
    /// successful spawn is tracked and a failed one leaves the slot empty
    /// and surfaces `SpawnError`.
    pub fn start(&mut self, outcome: SpawnOutcome) -> (r: Result<(), SupervisorError>)
        ensures
            final(self).spec_state() == spec_start(old(self).spec_state(), outcome).0,
            r == spec_start(old(self).spec_state(), outcome).1,
    {
        match self.state {
            TrackedState::Running(_) => Err(SupervisorError::AlreadyRunning),
            TrackedState::NotRunning => match outcome {
                SpawnOutcome::Spawned(h) => {
                    self.state = TrackedState::Running(h);
                    Ok(())
                },
                SpawnOutcome::Failed => Err(SupervisorError::SpawnError),
            },
        }
    }

    /// Takes the tracked worker out of the slot for termination. After a
    /// stop the slot is always empty; with no tracked worker the stop is
    /// refused with `NotRunning`.
    pub fn stop(&mut self) -> (r: Result<ProcessHandle, SupervisorError>)
        ensures
            final(self).spec_state() == spec_stop(old(self).spec_state()).0,
            r == spec_stop(old(self).spec_state()).1,
    {
        match self.state {
            TrackedState::Running(h) => {
                self.state = TrackedState::NotRunning;
                Ok(h)
            },
            TrackedState::NotRunning => Err(SupervisorError::NotRunning),
        }
    }

    /// Reads the bookkeeping: `Running` exactly while a worker is tracked.
    /// No platform probe happens here.
    pub fn status(&self) -> (r: BotStatus)
        ensures
            r == spec_status(self.spec_state()),
    {
        match self.state {
            TrackedState::Running(_) => BotStatus::Running,
            TrackedState::NotRunning => BotStatus::Stopped,
        }
    }
}

/// Law: starting twice without an intervening stop succeeds once, then
/// reports `AlreadyRunning`, whatever the second spawn outcome, and the
/// first worker stays tracked.
pub proof fn lemma_start_twice(h: ProcessHandle, second: SpawnOutcome)
    ensures
        ({
            let (st1, r1) = spec_start(TrackedState::NotRunning, SpawnOutcome::Spawned(h));
            let (st2, r2) = spec_start(st1, second);
            r1 == Ok::<(), SupervisorError>(()) && r2 == Err::<(), SupervisorError>(
                SupervisorError::AlreadyRunning,
            ) && st2 == st1
        }),
{
}

/// Law: stopping with no prior successful start is refused with
/// `NotRunning` and moves nothing.
pub proof fn lemma_stop_unstarted()
    ensures
        ({
            let (st, r) = spec_stop(TrackedState::NotRunning);
            r == Err::<ProcessHandle, SupervisorError>(SupervisorError::NotRunning) && st
                == TrackedState::NotRunning
        }),
{
}

/// Law: status reads `Running` immediately after a successful start and
/// `Stopped` immediately after any stop. No transition besides `start`
/// and `stop` exists, so a worker that exits spontaneously is still
/// reported `Running` until an explicit stop.
pub proof fn lemma_status_tracks_transitions(h: ProcessHandle, st: TrackedState)
    ensures
        spec_status(spec_start(TrackedState::NotRunning, SpawnOutcome::Spawned(h)).0)
            == BotStatus::Running,
        spec_status(spec_stop(st).0) == BotStatus::Stopped,
{
}

} // verus!
