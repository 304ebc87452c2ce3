use linux_task_manager::config::{sampling_interval_ms, AppConfig, MIN_SAMPLING_INTERVAL_MS};
use linux_task_manager::monitors::{CpuMonitor, NetworkMonitor};
use linux_task_manager::platform::linux::{CpuTimes, CpuUsage, EnergyCounter, NetworkCounters};
use linux_task_manager::telemetry::delta::DeltaSample;
use linux_task_manager::telemetry::metrics::MonitorError;

const SECOND: u64 = 1_000_000_000;

fn counter(interface: &str, rx: u64, tx: u64) -> NetworkCounters {
    NetworkCounters {
        interface: interface.to_string(),
        rx_bytes: rx,
        tx_bytes: tx,
    }
}

fn energy(path: &str, uj: u64) -> EnergyCounter {
    EnergyCounter {
        path: path.to_string(),
        name: "package-0".to_string(),
        energy_uj: uj,
    }
}

#[test]
fn default_config_matches_documented_values() {
    let config = AppConfig::default();
    assert_eq!(config.sample_interval_ms, 1000);
    assert_eq!(config.graph_history_points, 60);
    assert!(config.default_network_interface.is_none());
}

#[test]
fn monitor_error_keeps_its_message() {
    let err = MonitorError::new("missing aggregate cpu line".to_string());
    assert_eq!(err.message(), "missing aggregate cpu line");
}

#[test]
fn cpu_usage_needs_a_previous_sample() {
    let mut monitor = CpuMonitor::new();
    assert_eq!(monitor.update_usage(CpuTimes { idle: 80, total: 100 }), None);
    assert_eq!(
        monitor.update_usage(CpuTimes { idle: 90, total: 200 }),
        Some(CpuUsage { busy: 90, total: 100 })
    );
    assert_eq!(monitor.update_usage(CpuTimes { idle: 90, total: 200 }), None);
}

#[test]
fn package_energy_skips_first_and_rolled_back_counters() {
    let mut monitor = CpuMonitor::new();
    let first = monitor.record_package_energy(&[energy("/p/a", 1_000_000), energy("/p/b", 50)], 0);
    assert!(first.is_empty());
    let second = monitor.record_package_energy(
        &[energy("/p/a", 3_000_000), energy("/p/b", 10)],
        2 * SECOND,
    );
    assert_eq!(second, vec![(2_000_000, 2 * SECOND)]);
    let third = monitor.record_package_energy(
        &[energy("/p/a", 3_000_000), energy("/p/b", 20)],
        3 * SECOND,
    );
    assert_eq!(third, vec![(0, SECOND), (10, SECOND)]);
}

#[test]
fn network_observation_reports_rates_from_second_sample() {
    let mut monitor = NetworkMonitor::new(None);
    let first = monitor
        .observe(&[counter("lo", 1000, 1000), counter("eth0", 100, 50)], 0)
        .unwrap();
    assert_eq!(first.interface, "eth0");
    assert_eq!((first.rx, first.tx), (DeltaSample::First, DeltaSample::First));
    let second = monitor
        .observe(&[counter("lo", 1000, 1000), counter("eth0", 400, 50)], SECOND)
        .unwrap();
    assert_eq!(second.rx, DeltaSample::Changed(300, SECOND));
    assert_eq!(second.tx, DeltaSample::Changed(0, SECOND));
    assert_eq!((second.rx_bytes, second.tx_bytes), (400, 50));
}

#[test]
fn network_observation_without_interfaces_is_none() {
    let mut monitor = NetworkMonitor::new(Some("wlan0".to_string()));
    assert!(monitor.observe(&[counter("eth0", 1, 1)], 0).is_none());
    assert!(NetworkMonitor::new(None).observe(&[], 0).is_none());
}

#[test]
fn network_counter_reset_is_invalid() {
    let mut monitor = NetworkMonitor::new(Some("eth0".to_string()));
    monitor.observe(&[counter("eth0", 500, 500)], 0);
    let after_reset = monitor.observe(&[counter("eth0", 10, 600)], SECOND).unwrap();
    assert_eq!(after_reset.rx, DeltaSample::Invalid);
    assert_eq!(after_reset.tx, DeltaSample::Changed(100, SECOND));
}

#[test]
fn sampler_interval_has_a_floor() {
    assert_eq!(MIN_SAMPLING_INTERVAL_MS, 250);
    assert_eq!(sampling_interval_ms(0), 250);
    assert_eq!(sampling_interval_ms(249), 250);
    assert_eq!(sampling_interval_ms(1000), 1000);
}
