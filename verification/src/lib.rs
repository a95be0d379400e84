//! Core of a simulated traffic-intersection telemetry and control link.
//!
//! A detector process synthesizes a numeric description of intersection
//! state from simulated time and streams it to a collection agent; a
//! controller process accepts inbound control commands, logs the
//! inter-command timing, and acknowledges receipt. This crate holds the
//! deterministic part of both ends — the phase clock, the vector synthesis,
//! the wire form, and the per-connection decisions — while the process
//! shells around it do the sockets, scheduling and configuration.

pub mod client;
pub mod ingest;
pub mod phase;
pub mod state_vector;
pub mod timestamp;
pub mod wire;
