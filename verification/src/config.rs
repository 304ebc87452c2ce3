//! Application settings.

use vstd::prelude::*;

verus! {

#[derive(Debug, Clone)]
pub struct AppConfig {
    /// Time between telemetry samples, in milliseconds.
    pub sample_interval_ms: u64,
    /// Points of history each metric graph keeps.
    pub graph_history_points: usize,
    /// Interface the network monitor follows; `None` picks the busiest one.
    pub default_network_interface: Option<String>,
}

impl Default for AppConfig {
    /// One sample per second, sixty points of history, automatic interface choice.
    fn default() -> (config: Self)
        ensures
            config.sample_interval_ms == 1000,
            config.graph_history_points == 60,
            config.default_network_interface is None,
    {
        AppConfig {
            sample_interval_ms: 1000,
            graph_history_points: 60,
            default_network_interface: None,
        }
    }
}

/// The shortest time between two samples of one monitor, in milliseconds.
pub const MIN_SAMPLING_INTERVAL_MS: u64 = 250;

/// The time a sampler waits between samples when `requested_ms` is asked
/// for: never less than `MIN_SAMPLING_INTERVAL_MS`.
pub fn sampling_interval_ms(requested_ms: u64) -> (ms: u64)
    ensures
        ms == if requested_ms < MIN_SAMPLING_INTERVAL_MS {
            MIN_SAMPLING_INTERVAL_MS
        } else {
            requested_ms
        },
        ms >= MIN_SAMPLING_INTERVAL_MS,
{
    if requested_ms < MIN_SAMPLING_INTERVAL_MS {
        MIN_SAMPLING_INTERVAL_MS
    } else {
        requested_ms
    }
}

} // verus!
