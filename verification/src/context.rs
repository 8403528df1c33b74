//! Context passed to and between services as input.
//!
//! A [`Context`] carries shared long-lived state, an [`Executor`] for spawning
//! tracked background work, and an [`Extensions`] store for typed side-channel
//! values. It is cloned once per connection, request, or middleware hop:
//! clones share the state and the executor binding, while their extension
//! stores diverge from the moment either side mutates its own.

use std::sync::Arc;
use vstd::prelude::*;

use crate::executor::Executor;
use crate::extensions::{ExtensionValue, Extensions};

verus! {

/// Context passed to and between services as input.
#[derive(Debug)]
pub struct Context<S> {
    state: Arc<S>,
    executor: Executor,
    extensions: Extensions,
}

impl<S> Context<S> {
    /// The shared state this context carries.
    pub closed spec fn state_of(&self) -> S {
        *self.state
    }

    /// The executor this context spawns through.
    pub closed spec fn executor_of(&self) -> Executor {
        self.executor
    }

    /// The extension store owned by this context.
    pub closed spec fn extensions_of(&self) -> Extensions {
        self.extensions
    }

    /// The context's structural invariant: its extension store is well formed.
    pub open spec fn wf(&self) -> bool {
        self.extensions_of().wf()
    }

    /// Creates a new context around `state`: the state is moved into shared
    /// ownership, the executor is taken as given, and the extension store
    /// starts out empty.
    pub fn new(state: S, executor: Executor) -> (r: Context<S>)
        ensures
            r.wf(),
            r.state_of() == state,
            r.executor_of() == executor,
            r.extensions_of()@ == Map::<u64, ExtensionValue>::empty(),
    {
        Context { state: Arc::new(state), executor, extensions: Extensions::new() }
    }

    /// Borrowed access to the shared state; the state is never mutated
    /// through a context.
    pub fn state(&self) -> (r: &S)
        ensures
            *r == self.state_of(),
    {
        &*self.state
    }

    /// The executor bound to this context.
    pub fn executor(&self) -> (r: &Executor)
        ensures
            *r == self.executor_of(),
    {
        &self.executor
    }

    /// Spawns `future` on this context's executor: tracked by the shutdown
    /// coordinator when the executor carries a guard, untracked otherwise.
    pub fn spawn<F>(&self, future: F) -> (r: tokio::task::JoinHandle<F::Output>) where
        F: core::future::Future + Send + 'static,
        F::Output: Send + 'static,
     {
        self.executor.spawn_task(future)
    }

    /// The extension store of this context.
    pub fn extensions(&self) -> (r: &Extensions)
        ensures
            *r == self.extensions_of(),
    {
        &self.extensions
    }

    /// Mutable access to the extension store: the one mutation surface of a
    /// context. State and executor are untouched by whatever the caller does
    /// through the borrow.
    pub fn extensions_mut(&mut self) -> (r: &mut Extensions)
        ensures
            *r == old(self).extensions_of(),
            final(self).extensions_of() == *final(r),
            final(self).state_of() == old(self).state_of(),
            final(self).executor_of() == old(self).executor_of(),
    {
        &mut self.extensions
    }

    /// The shutdown guard, if and only if this context was created within a
    /// graceful-shutdown scope.
    pub fn guard(&self) -> (r: Option<&tokio_graceful::ShutdownGuard>)
        ensures
            match r {
                Some(g) => self.executor_of().guard_of() == Some(*g),
                None => self.executor_of().guard_of() is None,
            },
    {
        self.executor.guard()
    }
}

impl Default for Context<()> {
    /// A zero-state context with a default executor.
    fn default() -> (r: Context<()>)
        ensures
            r.wf(),
            r.executor_of().guard_of() is None,
            r.extensions_of()@ == Map::<u64, ExtensionValue>::empty(),
    {
        Context::new((), Executor::default())
    }
}

impl<S> Clone for Context<S> {
    /// Shares the state (never copying it) and the executor's binding, and
    /// copies the extension store's index entry-by-entry: the clone observes
    /// the same state and the same extension entries as this context, and the
    /// two extension stores diverge independently from the moment either side
    /// mutates its own.
    fn clone(&self) -> (r: Self)
        ensures
            r.state_of() == self.state_of(),
            r.executor_of().guard_of() == self.executor_of().guard_of(),
            r.extensions_of()@ == self.extensions_of()@,
            r.wf() == self.wf(),
    {
        Context {
            state: self.state.clone(),
            executor: self.executor.clone(),
            extensions: self.extensions.clone(),
        }
    }
}

} // verus!
