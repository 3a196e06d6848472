//! Runtime control plane for an observability data pipeline.
//!
//! A declarative configuration names sources, transforms, and sinks; this
//! library validates such a configuration, computes diffs between
//! configuration generations, and drives the signal-driven state machine
//! that starts, hot-reloads, and shuts down the running topology.

pub mod config;
pub mod diff;
pub mod topology;
pub mod supervisor;
pub mod validate;
pub mod runtime;
pub mod opts;
