//! One import path for every platform reader.

pub use super::amd::{amd_gpu_readings, is_card_name, AmdGpuReadings};
pub use super::power::{
    energy_counter, supply_kind, supply_power_reading, EnergyCounter, PowerReading, PowercapWalk,
    ZoneEntry,
};
pub use super::proc::{
    cpu_line_fields, cpu_usage_ratio, parse_proc_net_dev, parse_proc_stat, parse_proc_stat_cpu, CpuTimes,
    CpuUsage, NetworkCounters,
};
