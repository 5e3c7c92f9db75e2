use vstd::prelude::*;

verus! {

/// A lock older than this many milliseconds is taken to be left behind by a
/// holder that crashed.
pub const STALE_AFTER_MS: u64 = 10000;

/// How long a caller waits for a lock before giving up, in milliseconds.
pub const MAX_WAIT_MS: u64 = 5000;

/// How long to sleep between two attempts, in milliseconds.
pub const RETRY_DELAY_MS: u64 = 50;

/// What was found when the lock of a session was tried.
#[derive(Debug, Clone, Copy, PartialEq, Eq, Structural)]
pub enum LockState {
    /// Nobody holds the lock.
    Free,
    /// The lock is held: whether the recorded holder process still runs, and
    /// how old the lock is.
    Held { holder_alive: bool, age_ms: u64 },
}

/// What to do next to obtain the lock.
#[derive(Debug, Clone, Copy, PartialEq, Eq, Structural)]
pub enum LockAction {
    /// Create the lock for this process.
    Take,
    /// Remove the stale lock, then create it for this process.
    Reclaim,
    /// Sleep this many milliseconds and look again.
    Wait(u64),
    /// Stop: the wait has reached its bound.
    GiveUp,
}

/// The lock is stale: its holder is gone, or it has outlived the threshold.
pub open spec fn is_stale(holder_alive: bool, age_ms: u64) -> bool {
    !holder_alive || age_ms > STALE_AFTER_MS
}

/// Decides the next step of lock acquisition, given what was found and how
/// long this caller has waited so far.
pub fn next_lock_action(state: LockState, waited_ms: u64) -> (r: LockAction)
    ensures
        r == match state {
            LockState::Free => LockAction::Take,
            LockState::Held { holder_alive, age_ms } => if is_stale(holder_alive, age_ms) {
                LockAction::Reclaim
            } else if waited_ms >= MAX_WAIT_MS {
                LockAction::GiveUp
            } else {
                LockAction::Wait(RETRY_DELAY_MS)
            },
        },
{
    match state {
        LockState::Free => LockAction::Take,
        LockState::Held { holder_alive, age_ms } => {
            if !holder_alive || age_ms > STALE_AFTER_MS {
                LockAction::Reclaim
            } else if waited_ms >= MAX_WAIT_MS {
                LockAction::GiveUp
            } else {
                LockAction::Wait(RETRY_DELAY_MS)
            }
        },
    }
}

} // verus!
