//! A one-flag rendezvous between threads: one side raises the flag, the
//! other waits for it and clears it. The flag and its condition variable
//! are shared state, so nothing can be promised about the flag's value
//! across calls; the verified logic here is the standard condition
//! variable discipline (re-check the flag after every wake-up).

use vstd::prelude::*;

verus! {

#[verifier::external_type_specification]
#[verifier::external_body]
#[verifier::reject_recursive_types(T)]
pub struct ExMutex<T: ?Sized>(std::sync::Mutex<T>);

#[verifier::external_type_specification]
#[verifier::external_body]
pub struct ExCondvar(std::sync::Condvar);

#[verifier::external_type_specification]
#[verifier::external_body]
#[verifier::reject_recursive_types(T)]
pub struct ExMutexGuard<'a, T: ?Sized + 'a>(std::sync::MutexGuard<'a, T>);

/// Relies on Mutex::new: a fresh lock around a lowered flag.
#[verifier::external_body]
fn new_flag_mutex() -> std::sync::Mutex<bool> {
    std::sync::Mutex::new(false)
}

/// Relies on Condvar::new: a fresh condition variable.
#[verifier::external_body]
fn new_condvar() -> std::sync::Condvar {
    std::sync::Condvar::new()
}

/// Relies on Mutex::lock: blocks until the lock is held; a poisoned lock
/// is taken over rather than propagated, so a panicking holder cannot
/// wedge the signal.
#[verifier::external_body]
fn lock_flag<'a>(m: &'a std::sync::Mutex<bool>) -> std::sync::MutexGuard<'a, bool> {
    match m.lock() {
        Result::Ok(g) => g,
        Result::Err(p) => p.into_inner(),
    }
}

/// Relies on MutexGuard's Deref: the flag's current value (another thread
/// may change it as soon as the guard is gone).
#[verifier::external_body]
fn read_flag(g: &std::sync::MutexGuard<bool>) -> bool {
    **g
}

/// Relies on MutexGuard's DerefMut: store `v` into the guarded flag.
#[verifier::external_body]
fn set_flag(g: &mut std::sync::MutexGuard<bool>, v: bool) {
    **g = v;
}

/// Relies on Condvar::wait: releases the lock, parks until notified (or
/// a spurious wake-up), and reacquires it; a poisoned result is taken
/// over as in `lock_flag`.
#[verifier::external_body]
fn wait_flag<'a>(
    cv: &std::sync::Condvar,
    g: std::sync::MutexGuard<'a, bool>,
) -> std::sync::MutexGuard<'a, bool> {
    match cv.wait(g) {
        Result::Ok(g2) => g2,
        Result::Err(p) => p.into_inner(),
    }
}

/// Relies on Condvar::notify_one: wakes one waiter, if any is parked.
#[verifier::external_body]
fn notify_one(cv: &std::sync::Condvar) {
    cv.notify_one();
}

/// A raisable, waitable flag.
pub struct Signal {
    lock: std::sync::Mutex<bool>,
    cvar: std::sync::Condvar,
}

impl Signal {
    /// A fresh, lowered signal.
    pub fn new() -> Signal {
        Signal { lock: new_flag_mutex(), cvar: new_condvar() }
    }

    /// Raise the flag and wake one waiter.
    pub fn signal(&self) {
        let mut g = lock_flag(&self.lock);
        set_flag(&mut g, true);
        notify_one(&self.cvar);
    }

    /// Wait until the flag is raised, then lower it before returning, so
    /// the next wait starts from a clean flag. The flag is re-checked
    /// after every wake-up, so spurious wake-ups do not slip through.
    pub fn wait_and_reset(&self) {
        let mut g = lock_flag(&self.lock);
        let mut raised = read_flag(&g);
        let mut fuel: u64 = 0;
        while !raised && fuel < 0xffff_ffff_ffff_ffff
            invariant
                true,
            decreases 0xffff_ffff_ffff_ffffu64 - fuel,
        {
            g = wait_flag(&self.cvar, g);
            raised = read_flag(&g);
            fuel = fuel + 1;
        }
        set_flag(&mut g, false);
    }
}

} // verus!
