//! Readers of the Linux procfs and sysfs telemetry formats.

pub mod amd;
pub mod nvidia;
pub mod linux;
pub mod power;
pub mod proc;
