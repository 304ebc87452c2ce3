use linux_task_manager::monitors::cpu::{cpu_report, CpuValue};
use linux_task_manager::monitors::gpu::{gpu_report, nvidia_subtitle, GpuMonitorState, GpuReadings};
use linux_task_manager::monitors::network::{network_report, NetworkObservation, NetworkValue};
use linux_task_manager::monitors::power::{power_report, SupplyReadings, SupplyValue};
use linux_task_manager::monitors::{CpuMonitor, NetworkMonitor, PowerMonitor};
use linux_task_manager::platform::linux::{CpuUsage, PowerReading};
use linux_task_manager::telemetry::DeltaSample;
use linux_task_manager::text::decimal_string;

fn supply(name: &str, kind: &str, power: PowerReading, capacity: Option<u64>) -> SupplyReadings {
    SupplyReadings {
        name: name.to_string(),
        kind: kind.to_string(),
        power,
        capacity_percent: capacity,
    }
}

fn labels<T>(rows: &[(String, T)]) -> Vec<&str> {
    rows.iter().map(|(label, _)| label.as_str()).collect()
}

#[test]
fn monitor_names_match_tabs() {
    assert_eq!(CpuMonitor::new().name(), "CPU");
    assert_eq!(GpuMonitorState::new(None).name(), "GPU");
    assert_eq!(NetworkMonitor::new(None).name(), "Network");
    assert_eq!(PowerMonitor::new().name(), "Power");
}

#[test]
fn power_report_without_supplies_is_unavailable() {
    let report = power_report(&[]);
    assert_eq!(report.subtitle, "No system power supply telemetry found");
    assert_eq!(labels(&report.rows), vec!["System power", "Battery"]);
    assert_eq!(report.rows[0].1, SupplyValue::Unavailable);
    assert_eq!(report.rows[1].1, SupplyValue::Unavailable);
    assert!(report.graph.is_empty());
}

#[test]
fn power_report_pairs_rows_per_supply() {
    let supplies = vec![
        supply("BAT0", "Battery", PowerReading::Direct(12_000_000), Some(73)),
        supply("AC", "Mains", PowerReading::Missing, None),
        supply("WEIRD", "WeirdThing", PowerReading::CurrentAndVoltage(2000, 240_000), None),
    ];
    let report = power_report(&supplies);
    assert_eq!(report.subtitle, "System power supply telemetry");
    assert_eq!(
        labels(&report.rows),
        vec![
            "BAT0 Battery power",
            "BAT0 Battery capacity",
            "AC Mains power",
            "AC Mains capacity",
            "WEIRD WeirdThing power",
            "WEIRD WeirdThing capacity",
        ]
    );
    assert_eq!(
        report.rows[0].1,
        SupplyValue::Power(PowerReading::Direct(12_000_000))
    );
    assert_eq!(report.rows[1].1, SupplyValue::Capacity(73));
    assert_eq!(report.rows[2].1, SupplyValue::Unavailable);
    assert_eq!(report.rows[3].1, SupplyValue::Unavailable);
    assert_eq!(
        report.rows[4].1,
        SupplyValue::Power(PowerReading::CurrentAndVoltage(2000, 240_000))
    );
    assert_eq!(report.rows[5].1, SupplyValue::Unavailable);
}

#[test]
fn power_graph_has_one_point_per_supply_with_power() {
    let supplies = vec![
        supply("BAT0", "Battery", PowerReading::Direct(5), Some(50)),
        supply("AC", "Mains", PowerReading::Missing, Some(100)),
        supply("BAT1", "Battery", PowerReading::CurrentAndVoltage(3, 4), None),
    ];
    let report = power_report(&supplies);
    assert_eq!(
        report.graph,
        vec![
            ("BAT0 Battery power".to_string(), PowerReading::Direct(5)),
            ("BAT1 Battery power".to_string(), PowerReading::CurrentAndVoltage(3, 4)),
        ]
    );
    for (label, _) in &report.graph {
        assert!(label.ends_with(" power"), "graph label {label}");
    }
}

#[test]
fn cpu_report_first_sample_is_unavailable() {
    let report = cpu_report(None, Vec::new());
    assert_eq!(report.subtitle, "Aggregate processor usage and package power");
    assert_eq!(labels(&report.rows), vec!["Usage", "CPU package power"]);
    assert!(matches!(report.rows[0].1, CpuValue::Unavailable));
    assert!(matches!(report.rows[1].1, CpuValue::Unavailable));
    assert_eq!(report.graph, vec![("Usage".to_string(), None)]);
}

#[test]
fn cpu_report_carries_usage_and_package_deltas() {
    let usage = CpuUsage { busy: 80, total: 100 };
    let report = cpu_report(Some(usage), vec![(2_000_000, 1_000_000_000), (5, 7)]);
    match &report.rows[0].1 {
        CpuValue::Usage(u) => assert_eq!((u.busy, u.total), (80, 100)),
        other => panic!("expected usage, got {other:?}"),
    }
    match &report.rows[1].1 {
        CpuValue::PackagePower(deltas) => {
            assert_eq!(deltas, &vec![(2_000_000, 1_000_000_000), (5, 7)])
        }
        other => panic!("expected package power, got {other:?}"),
    }
    assert_eq!(report.graph, vec![("Usage".to_string(), Some(usage))]);
}

#[test]
fn gpu_report_nvidia_layout() {
    let report = gpu_report(
        nvidia_subtitle(2),
        Some(GpuReadings {
            usage: Some(42.0),
            power: Some(112.345),
            temperature: Some(61.4),
        }),
    );
    assert_eq!(report.subtitle, "NVIDIA GPU 2");
    assert_eq!(labels(&report.rows), vec!["Usage", "GPU power", "Temperature"]);
    assert_eq!(report.rows[0].1, Some(42.0));
    assert_eq!(report.rows[1].1, Some(112.345));
    assert_eq!(report.rows[2].1, Some(61.4));
    assert_eq!(report.graph, vec![("Usage".to_string(), Some(42.0))]);
}

#[test]
fn gpu_report_partially_unavailable_keeps_usage_point() {
    let report = gpu_report(
        nvidia_subtitle(0),
        Some(GpuReadings {
            usage: None,
            power: Some(80.0),
            temperature: None,
        }),
    );
    assert_eq!(report.rows[0].1, None);
    assert_eq!(report.rows[1].1, Some(80.0));
    assert_eq!(report.rows[2].1, None);
    assert_eq!(report.graph, vec![("Usage".to_string(), None)]);
}

#[test]
fn gpu_report_without_device_has_unavailable_rows_and_no_point() {
    let report = gpu_report::<u64>(
        "No supported AMD or NVIDIA GPU telemetry found".to_string(),
        None,
    );
    assert_eq!(report.subtitle, "No supported AMD or NVIDIA GPU telemetry found");
    assert_eq!(labels(&report.rows), vec!["Usage", "GPU power", "Temperature"]);
    assert!(report.rows.iter().all(|(_, value)| value.is_none()));
    assert!(report.graph.is_empty());
}

#[test]
fn decimal_string_writes_indices() {
    assert_eq!(decimal_string(0), "0");
    assert_eq!(decimal_string(7), "7");
    assert_eq!(decimal_string(10), "10");
    assert_eq!(decimal_string(4_294_967_295), "4294967295");
    assert_eq!(nvidia_subtitle(13), "NVIDIA GPU 13");
}

#[test]
fn network_report_without_interface() {
    let report = network_report(None);
    assert_eq!(report.subtitle, "No network interfaces found");
    assert_eq!(labels(&report.rows), vec!["Receive", "Transmit"]);
    assert_eq!(report.rows[0].1, NetworkValue::Unavailable);
    assert_eq!(report.rows[1].1, NetworkValue::Unavailable);
    assert!(report.graph.is_empty());
}

#[test]
fn network_report_rows_in_order() {
    let report = network_report(Some(NetworkObservation {
        interface: "eth0".to_string(),
        rx_bytes: 4096,
        tx_bytes: 8192,
        rx: DeltaSample::Changed(96, 1_000_000_000),
        tx: DeltaSample::First,
    }));
    assert_eq!(report.subtitle, "eth0");
    assert_eq!(
        labels(&report.rows),
        vec!["Receive", "Transmit", "Received total", "Transmitted total"]
    );
    assert_eq!(
        report.rows[0].1,
        NetworkValue::Rate(DeltaSample::Changed(96, 1_000_000_000))
    );
    assert_eq!(report.rows[1].1, NetworkValue::Rate(DeltaSample::First));
    assert_eq!(report.rows[2].1, NetworkValue::Bytes(4096));
    assert_eq!(report.rows[3].1, NetworkValue::Bytes(8192));
    assert_eq!(
        report.graph,
        vec![
            ("RX".to_string(), DeltaSample::Changed(96, 1_000_000_000)),
            ("TX".to_string(), DeltaSample::First),
        ]
    );
}

#[test]
fn network_second_observation_measures_from_the_first() {
    let mut monitor = NetworkMonitor::new(None);
    let eth0 = |rx: u64, tx: u64| linux_task_manager::platform::linux::NetworkCounters {
        interface: "eth0".to_string(),
        rx_bytes: rx,
        tx_bytes: tx,
    };
    let first = monitor.observe(&[eth0(100, 900)], 1_000).unwrap();
    assert_eq!((first.rx, first.tx), (DeltaSample::First, DeltaSample::First));
    let second = monitor.observe(&[eth0(400, 800)], 3_000).unwrap();
    assert_eq!(second.rx, DeltaSample::Changed(300, 2_000));
    assert_eq!(second.tx, DeltaSample::Invalid);
    let third = monitor.observe(&[eth0(400, 850)], 3_000).unwrap();
    assert_eq!((third.rx, third.tx), (DeltaSample::Invalid, DeltaSample::Invalid));
}
