//! A verified multiplexed event-wait ("poll") orchestrator.
//!
//! Given a set of file descriptors and the events the caller cares about
//! (readable / writable / error), the orchestrator repeatedly scans the set
//! with a per-descriptor readiness oracle until at least one descriptor has
//! an event to report or a caller-supplied timeout elapses.  The oracle, the
//! clock and the scheduler are collaborators supplied by the embedding
//! runtime; this crate verifies the validation, deadline arithmetic, scan
//! and retry logic that orchestrates them.

pub mod poll;
pub mod rand;
