//! The git synchronizer's single-flight gate.

use ruyi_search::{GitSyncGate, GIT_SYNC_COOLDOWN_SECONDS};

#[test]
fn first_trigger_runs() {
    let mut gate = GitSyncGate::new();
    assert!(gate.try_trigger(1000));
}

#[test]
fn single_flight_within_cooldown() {
    // Two triggers within the cooldown window: exactly one run.
    let mut gate = GitSyncGate::new();
    assert!(gate.try_trigger(1000));
    assert!(!gate.try_trigger(1000));
    assert!(!gate.try_trigger(1000 + GIT_SYNC_COOLDOWN_SECONDS - 1));
}

#[test]
fn rerun_after_cooldown() {
    let mut gate = GitSyncGate::new();
    assert!(gate.try_trigger(1000));
    assert!(gate.try_trigger(1000 + GIT_SYNC_COOLDOWN_SECONDS));
    // the admitted run moved the timestamp: the window starts over
    assert!(!gate.try_trigger(1000 + GIT_SYNC_COOLDOWN_SECONDS + 10));
}

#[test]
fn cooldown_is_thirty_minutes() {
    assert_eq!(GIT_SYNC_COOLDOWN_SECONDS, 1800);
}
