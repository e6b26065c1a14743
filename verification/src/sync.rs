//! The lock that lets several handles and threads share one pipeline.

use vstd::prelude::*;
use std::sync::{Arc, Mutex, MutexGuard, TryLockError};
use parking_lot::lock_api;

verus! {

#[verifier::external_type_specification]
#[verifier::external_body]
#[verifier::reject_recursive_types(T)]
pub struct ExMutex<T: ?Sized>(Mutex<T>);

#[verifier::external_type_specification]
#[verifier::external_body]
#[verifier::reject_recursive_types(T)]
pub struct ExMutexGuard<'a, T: ?Sized + 'a>(MutexGuard<'a, T>);

/// A mutex protecting `value` (std's `Mutex::new`). The mutex is opaque here,
/// so nothing is stated of what it holds.
#[verifier::external_body]
pub(crate) fn new_mutex<T>(value: T) -> Mutex<T> {
    Mutex::new(value)
}

/// The guard of `m` when the lock is free now (std's `Mutex::try_lock`, which
/// never blocks); `None` when it is held, by another thread or by a caller
/// up this thread's stack.
///
/// When a thread panicked while holding the lock, std reports the lock as
/// poisoned and still hands out the guard; it is taken here all the same.
/// Nothing is stated of which outcome comes, nor of the value behind the
/// guard: both depend on what other threads do.
#[verifier::external_body]
pub(crate) fn try_lock<T>(m: &Mutex<T>) -> Option<MutexGuard<'_, T>> {
    match m.try_lock() {
        Ok(guard) => Some(guard),
        Err(TryLockError::Poisoned(poisoned)) => Some(poisoned.into_inner()),
        Err(TryLockError::WouldBlock) => None,
    }
}

/// The value behind a held lock (std's `DerefMut` for `MutexGuard`); nothing
/// is stated of it.
#[verifier::external_body]
pub(crate) fn guarded<'a, 'b, T>(guard: &'b mut MutexGuard<'a, T>) -> &'b mut T {
    &mut **guard
}

/// Another pointer to the same allocation (std's `Arc::clone`).
#[verifier::external_body]
pub(crate) fn share<T>(a: &Arc<T>) -> (r: Arc<T>)
    ensures
        r == *a,
{
    Arc::clone(a)
}

#[verifier::external_type_specification]
#[verifier::external_body]
pub struct ExRawMutex(parking_lot::RawMutex);

#[verifier::external_type_specification]
#[verifier::external_body]
#[verifier::reject_recursive_types(R)]
#[verifier::reject_recursive_types(T)]
pub struct ExLockMutex<R, T: ?Sized>(lock_api::Mutex<R, T>);

/// A `parking_lot` mutex protecting `value` (`parking_lot::Mutex::new`); the
/// mutex is opaque here, so nothing is stated of what it holds.
#[verifier::external_body]
pub(crate) fn new_handler_lock<T>(value: T) -> parking_lot::Mutex<T> {
    parking_lot::Mutex::new(value)
}

/// Runs `f` on the value that `m` protects if the lock is free right now
/// (`parking_lot::Mutex::try_lock`), and returns what `f` returned; `None`,
/// without running `f`, when another thread holds the lock.
///
/// The contract claims that when `f` ran, it ran once, on some value of the
/// protected type; which value that was is not stated.
#[verifier::external_body]
pub(crate) fn try_with_lock<T, R, F: FnOnce(&mut T) -> R>(m: &parking_lot::Mutex<T>, f: F) -> (r: Option<R>)
    requires
        forall|t: &mut T| f.requires((t,)),
    ensures
        r matches Some(v) ==> exists|t: &mut T| f.ensures((t,), v),
{
    match m.try_lock() {
        Some(mut guard) => Some(f(&mut *guard)),
        None => None,
    }
}

} // verus!
