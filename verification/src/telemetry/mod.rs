//! Data model shared by the monitors: counter deltas, bounded history and errors.

pub mod delta;
pub mod metrics;
pub mod series;

pub use delta::{DeltaSample, DeltaTracker};
pub use metrics::MonitorError;
pub use series::MetricSeries;
