//! A generic, embeddable finite-state-machine engine with extended state.
//!
//! The engine drives an application-defined state space (states and events are
//! `u64` tags) through application-supplied transition handlers and entry/exit
//! hooks, while carrying a single mutable piece of extended state that every
//! handler can read and mutate. Events are processed in waves: a call to
//! [`machine::RunsFSM::process_event_queue`] snapshots the queue, runs each
//! event in order, and defers any events emitted by handlers to the next wave.

pub mod graph;
pub mod machine;
pub mod still;
