//! Per-resource monitor state and the decisions each sample makes.

pub mod cpu;
pub mod gpu;
pub mod network;
pub mod power;

pub use cpu::CpuMonitor;
pub use network::NetworkMonitor;
pub use power::PowerMonitor;
