//! Telemetry core of a terminal dashboard for a multi-accelerator SoC:
//! sensor-text parsing, sample assembly, a bounded sample history, chart
//! projection with axis bounds, tab navigation and the sampling schedule.

pub mod chart;
pub mod dashboard;
pub mod history;
pub mod text;
pub mod metrics;
pub mod sensors;
