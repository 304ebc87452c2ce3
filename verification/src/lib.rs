//! Telemetry core of a Linux system monitor: procfs/sysfs parsers, counter
//! delta tracking, bounded metric history and interface selection.

pub mod config;
pub mod monitors;
pub mod platform;
pub mod telemetry;
pub mod text;
