//! The transport multiplexer: one command in flight, telemetry folded into
//! a snapshot, everything decided here and performed by the caller.

pub mod laws;
pub mod multiplexer;
pub mod reader;
pub mod snapshot;
pub mod types;
