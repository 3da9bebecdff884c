//! Lock abstractions for state synchronisation.
use vstd::prelude::*;
use super::errors::StateError;

verus! {

/// A held lock; dropping it releases the lock.
pub trait LockAtomicGuard {}

/// A lock that can be tried without blocking.
pub trait LockAtomic: Send + Sync {
    /// Tries to take the lock: a guard when it was free, `None` when it is held.
    fn try_lock(&self) -> Result<Option<Box<dyn LockAtomicGuard + '_>>, StateError>;
}

} // verus!

verus! {

/// What polling for a lock gives.
#[derive(Debug, PartialEq)]
pub enum LockPoll {
    /// The lock is taken and the value acquired.
    Ready,
    /// The lock is held elsewhere, or the value cannot be acquired yet.
    Pending,
    /// The lock attempt failed.
    Failed(StateError),
}

/// Decides a poll from the lock attempt (its error, or whether the lock was taken) and,
/// where the lock was taken, from whether the value could then be acquired (`acquired`,
/// asked only in that case and `None` otherwise): a failed attempt fails the poll, a lock
/// held elsewhere or a value not yet available leaves it pending, and a taken lock whose
/// value was acquired makes it ready.
pub fn lock_poll(attempt: Result<bool, StateError>, acquired: Option<bool>) -> (r: LockPoll)
    ensures
        match attempt {
            Err(e) => r == LockPoll::Failed(e),
            Ok(false) => r == LockPoll::Pending,
            Ok(true) => r == (if acquired == Some(true) { LockPoll::Ready } else { LockPoll::Pending }),
        },
{
    match attempt {
        Err(e) => LockPoll::Failed(e),
        Ok(false) => LockPoll::Pending,
        Ok(true) => match acquired {
            Some(true) => LockPoll::Ready,
            _ => LockPoll::Pending,
        },
    }
}

} // verus!
