use paira_shell::supervisor::{
    BotStatus, ProcessHandle, ProcessSupervisor, SpawnOutcome, SupervisorError,
};

fn handle(pid: u32, token: u64) -> ProcessHandle {
    ProcessHandle { pid, token }
}

#[test]
fn start_twice_reports_already_running() {
    let mut sup = ProcessSupervisor::new();
    let r1 = sup.start(SpawnOutcome::Spawned(handle(100, 1)));
    assert_eq!(r1, Ok(()));
    let r2 = sup.start(SpawnOutcome::Spawned(handle(101, 2)));
    assert_eq!(r2, Err(SupervisorError::AlreadyRunning));
    // The first worker is still the tracked one.
    assert_eq!(sup.stop(), Ok(handle(100, 1)));
}

#[test]
fn start_refused_even_for_failed_outcome_while_running() {
    let mut sup = ProcessSupervisor::new();
    assert_eq!(sup.start(SpawnOutcome::Spawned(handle(7, 7))), Ok(()));
    assert_eq!(sup.start(SpawnOutcome::Failed), Err(SupervisorError::AlreadyRunning));
    assert_eq!(sup.status(), BotStatus::Running);
}

#[test]
fn stop_without_start_reports_not_running() {
    let mut sup = ProcessSupervisor::new();
    assert_eq!(sup.stop(), Err(SupervisorError::NotRunning));
}

#[test]
fn stop_twice_reports_not_running_second_time() {
    let mut sup = ProcessSupervisor::new();
    assert_eq!(sup.start(SpawnOutcome::Spawned(handle(5, 9))), Ok(()));
    assert_eq!(sup.stop(), Ok(handle(5, 9)));
    assert_eq!(sup.stop(), Err(SupervisorError::NotRunning));
}

#[test]
fn status_tracks_start_and_stop() {
    let mut sup = ProcessSupervisor::new();
    assert_eq!(sup.status(), BotStatus::Stopped);
    assert_eq!(sup.start(SpawnOutcome::Spawned(handle(42, 3))), Ok(()));
    assert_eq!(sup.status(), BotStatus::Running);
    assert_eq!(sup.stop(), Ok(handle(42, 3)));
    assert_eq!(sup.status(), BotStatus::Stopped);
}

#[test]
fn status_stays_running_without_explicit_stop() {
    // The supervisor never probes the platform: even once the worker has
    // long exited, the bookkeeping still says Running until stop() is
    // called.
    let mut sup = ProcessSupervisor::new();
    assert_eq!(sup.start(SpawnOutcome::Spawned(handle(314, 1))), Ok(()));
    assert_eq!(sup.status(), BotStatus::Running);
    assert_eq!(sup.status(), BotStatus::Running);
}

#[test]
fn failed_spawn_surfaces_spawn_error_and_leaves_slot_empty() {
    let mut sup = ProcessSupervisor::new();
    assert_eq!(sup.start(SpawnOutcome::Failed), Err(SupervisorError::SpawnError));
    assert_eq!(sup.status(), BotStatus::Stopped);
    // The slot stayed empty, so a later start may succeed.
    assert_eq!(sup.start(SpawnOutcome::Spawned(handle(1, 1))), Ok(()));
}
