//! Verified core of an HTTP uptime monitor: route data model, probe
//! evaluation with retries and latency thresholds, the interval registry,
//! and the per-interval scheduler state machine.
pub mod headers;
pub mod method;
pub mod probe;
pub mod registry;
pub mod route;
pub mod scheduler;
