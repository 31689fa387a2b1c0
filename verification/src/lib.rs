//! Mirrors the pods behind a label selector from a cluster's watch protocol
//! and turns their cumulative CPU counters into one time-aligned total.
//!
//! [`client`] holds the mirrored pod set, the framing of the watch stream,
//! reconciliation against a full listing and the watch session's state
//! machine. [`metrics`] holds the per-pod rate history, the interpolating
//! round aggregator and the controller that keeps one querier per pod.
//!
//! Everything here is a function from plain values to plain values: the
//! caller performs the requests, awaits and sleeps that the returned
//! commands ask for and hands the outcome back.
pub mod client;
pub mod metrics;
