//! Request-scoped context propagation for layered services: a type-indexed
//! extension store with copy-on-write cloning, a shutdown-aware task executor,
//! and the context value that carries shared state through a service pipeline.

pub mod context;
pub mod executor;
pub mod extensions;

pub use context::Context;
pub use executor::Executor;
pub use extensions::{Extension, ExtensionValue, Extensions};
