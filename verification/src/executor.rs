//! Shutdown-aware task executor.
//!
//! An [`Executor`] pairs the ambient asynchronous runtime with an optional
//! shutdown guard. Spawning through an executor that carries a guard registers
//! the task with the shutdown coordinator before scheduling it, so a graceful
//! shutdown waits for the task; spawning without a guard schedules the task
//! with no shutdown tracking.

use vstd::prelude::*;

verus! {

/// Declares `tokio_graceful::ShutdownGuard`, the handle that counts a unit of
/// in-flight work towards a graceful shutdown; opaque to the verifier.
#[verifier::external_type_specification]
#[verifier::external_body]
pub struct ExShutdownGuard(tokio_graceful::ShutdownGuard);

/// Declares `tokio::task::JoinHandle`, the awaitable handle of a spawned
/// task; opaque to the verifier.
#[verifier::external_type_specification]
#[verifier::external_body]
#[verifier::reject_recursive_types(T)]
pub struct ExJoinHandle<T>(tokio::task::JoinHandle<T>);

/// Declares `tokio::task::JoinError`, the error a join handle reports when
/// the task panicked or was cancelled; opaque to the verifier.
#[verifier::external_type_specification]
#[verifier::external_body]
pub struct ExJoinError(tokio::task::JoinError);

/// Relies on `tokio::spawn`: schedules the future on the ambient runtime and
/// returns a handle that can be awaited for the future's output. The ambient
/// runtime must exist — `tokio::spawn` panics when called outside one, a
/// condition of the environment that no clause on the arguments can state.
#[verifier::external_body]
fn spawn_untracked<F>(future: F) -> (r: tokio::task::JoinHandle<F::Output>) where
    F: core::future::Future + Send + 'static,
    F::Output: Send + 'static,
 {
    tokio::spawn(future)
}

/// Relies on `tokio_graceful::ShutdownGuard::spawn_task`: registers the task
/// with the shutdown coordinator (a clone of the guard is held until the task
/// finishes) before scheduling it on the ambient runtime, and returns a handle
/// that can be awaited for the future's output. As with `tokio::spawn`, the
/// ambient runtime must exist.
#[verifier::external_body]
fn spawn_tracked<F>(guard: &tokio_graceful::ShutdownGuard, future: F) -> (r: tokio::task::JoinHandle<
    F::Output,
>) where F: core::future::Future + Send + 'static, F::Output: Send + 'static {
    guard.spawn_task(future)
}

/// Relies on `tokio_graceful::ShutdownGuard::clone`: the new guard tracks the
/// same shutdown coordinator as the one it was cloned from.
#[verifier::external_body]
fn clone_guard(guard: &tokio_graceful::ShutdownGuard) -> (r: tokio_graceful::ShutdownGuard)
    ensures
        r == *guard,
{
    guard.clone()
}

/// A handle to the ambient asynchronous runtime, optionally bound to a
/// shutdown guard.
#[derive(Debug)]
pub struct Executor {
    guard: Option<tokio_graceful::ShutdownGuard>,
}

impl Executor {
    /// The shutdown guard this executor is bound to, if any.
    pub closed spec fn guard_of(&self) -> Option<tokio_graceful::ShutdownGuard> {
        self.guard
    }

    /// Binds a shutdown coordinator: tasks spawned through the returned
    /// executor are tracked by `guard`.
    pub fn with_guard(guard: tokio_graceful::ShutdownGuard) -> (r: Executor)
        ensures
            r.guard_of() == Some(guard),
    {
        Executor { guard: Some(guard) }
    }

    /// The bound shutdown guard, if and only if one was bound at construction.
    pub fn guard(&self) -> (r: Option<&tokio_graceful::ShutdownGuard>)
        ensures
            match r {
                Some(g) => self.guard_of() == Some(*g),
                None => self.guard_of() is None,
            },
    {
        match &self.guard {
            Some(g) => Some(g),
            None => None,
        }
    }

    /// Spawns `future` on the ambient runtime: tracked by the shutdown
    /// coordinator when a guard is bound, untracked otherwise. Spawning never
    /// fails; the returned handle surfaces the task's own outcome at await
    /// time.
    pub fn spawn_task<F>(&self, future: F) -> (r: tokio::task::JoinHandle<F::Output>) where
        F: core::future::Future + Send + 'static,
        F::Output: Send + 'static,
     {
        match &self.guard {
            Some(g) => spawn_tracked(g, future),
            None => spawn_untracked(future),
        }
    }
}

impl Default for Executor {
    /// An executor on the ambient runtime with no shutdown guard.
    fn default() -> (r: Executor)
        ensures
            r.guard_of() is None,
    {
        Executor { guard: None }
    }
}

impl Clone for Executor {
    /// A clone spawns exactly as this executor does: it is bound to a guard
    /// of the same shutdown coordinator, or to none.
    fn clone(&self) -> (r: Self)
        ensures
            r.guard_of() == self.guard_of(),
    {
        match &self.guard {
            Some(g) => Executor { guard: Some(clone_guard(g)) },
            None => Executor { guard: None },
        }
    }
}

} // verus!
