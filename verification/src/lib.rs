//! A terminal-resident latency monitor: per-host bounded latency histories
//! with derived statistics, matching of probe-round responses onto tracked
//! hosts, and a column-aligned, style-annotated table renderer.
//!
//! Latencies are carried as integer microseconds so that statistics are
//! exact; the renderer displays truncated whole milliseconds.

pub mod host;
pub mod render;
pub mod round;
pub mod sched;
