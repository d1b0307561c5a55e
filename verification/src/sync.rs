//! The raw spin lock under the kernel mutex: one atomic flag that is set while
//! the lock is held.
use vstd::prelude::*;
use core::sync::atomic::AtomicBool;
use core::sync::atomic::Ordering;

verus! {

/// The value of the flag while the lock is held.
pub const LOCKED: bool = true;

/// The value of the flag while the lock is free.
pub const UNLOCKED: bool = false;

/// A spin lock; the flag is public so that a lock can be built in a constant.
/// The flag is shared with every other holder of the lock, so
/// what it reads is not known in advance.
pub struct RawMutex(pub AtomicBool);

impl RawMutex {
    /// A free lock.
    pub fn new() -> Self {
        RawMutex(AtomicBool::new(UNLOCKED))
    }

    /// Takes the lock if it is free; returns whether it was taken. May fail
    /// spuriously, so callers retry.
    pub fn try_lock(&self) -> bool {
        self.0.compare_exchange_weak(UNLOCKED, LOCKED, Ordering::Acquire, Ordering::Relaxed).is_ok()
    }

    /// Releases the lock.
    pub fn unlock(&self) {
        self.0.store(UNLOCKED, Ordering::Release);
    }

    /// Whether the lock is held at this moment.
    pub fn is_locked(&self) -> bool {
        self.0.load(Ordering::Acquire)
    }
}

} // verus!
