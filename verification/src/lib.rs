//! An instrumented, visualization-oriented merge sort.
//!
//! The engine sorts a sequence of [`model::Element`]s in place and, at every
//! algorithmically meaningful step, records an [`model::Operation`] describing
//! what just happened, so that an independent consumer holding its own mirror
//! of the sequence can replay the sort exactly as the engine performed it.
//! Operations are also forwarded, best effort, over a single-producer,
//! single-consumer channel owned by the host.

pub mod engine;
pub mod integration;
pub mod laws;
pub mod mirror;
pub mod model;
pub mod sort_spec;
pub mod trace_spec;
pub mod transport;
