//! Sampling and differencing engine of a terminal CPU-utilization monitor.

pub mod counters;
pub mod log;
pub mod render;
pub mod stat;
pub mod window;
pub mod aggregate;
