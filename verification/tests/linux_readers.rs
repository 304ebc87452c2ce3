use linux_task_manager::platform::linux::{
    cpu_usage_ratio, parse_proc_net_dev, parse_proc_stat_cpu, CpuTimes,
};

fn usage_percent(previous: CpuTimes, current: CpuTimes) -> Option<f64> {
    cpu_usage_ratio(previous, current).map(|u| (u.busy as f64 / u.total as f64) * 100.0)
}

#[test]
fn linux_parses_proc_stat_cpu() {
    let times = parse_proc_stat_cpu("cpu  100 0 50 850 10 0 0 0 0 0").unwrap();
    assert_eq!(times.idle, 860);
    assert_eq!(times.total, 1010);
}

#[test]
fn linux_calculates_cpu_usage_delta() {
    let previous = CpuTimes {
        idle: 80,
        total: 100,
    };
    let current = CpuTimes {
        idle: 90,
        total: 200,
    };
    assert_eq!(usage_percent(previous, current), Some(90.0));
}

#[test]
fn linux_rejects_per_core_stat_lines() {
    assert!(parse_proc_stat_cpu("cpu0 100 0 50 850 10 0 0 0 0 0").is_none());
    assert!(parse_proc_stat_cpu("garbage 1 2 3 4").is_none());
}

#[test]
fn linux_rejects_stat_lines_with_fewer_than_four_fields() {
    assert!(parse_proc_stat_cpu("cpu 1 2 3").is_none());
    assert!(parse_proc_stat_cpu("cpu 1 2 3 4").is_some());
}

#[test]
fn linux_ignores_non_numeric_extra_fields() {
    let times = parse_proc_stat_cpu("cpu 10 0 0 90 x y 0 0").unwrap();
    assert_eq!(times.idle, 90);
    assert_eq!(times.total, 100);
}

#[test]
fn linux_usage_is_none_when_no_time_elapses() {
    let previous = CpuTimes { idle: 80, total: 100 };
    let current = CpuTimes { idle: 80, total: 100 };
    assert_eq!(usage_percent(previous, current), None);
}

#[test]
fn linux_usage_is_none_when_total_counter_goes_backwards() {
    let previous = CpuTimes { idle: 80, total: 100 };
    let current = CpuTimes { idle: 90, total: 50 };
    assert_eq!(usage_percent(previous, current), None);
}

#[test]
fn linux_usage_clamps_idle_backslide_to_100_percent() {
    let previous = CpuTimes { idle: 90, total: 100 };
    let current = CpuTimes { idle: 0, total: 200 };
    assert_eq!(usage_percent(previous, current), Some(100.0));
}

#[test]
fn linux_idle_only_delta_reports_zero_usage() {
    let previous = CpuTimes { idle: 80, total: 100 };
    let current = CpuTimes { idle: 180, total: 200 };
    assert_eq!(usage_percent(previous, current), Some(0.0));
}

#[test]
fn linux_parses_proc_net_dev() {
    let contents = "\
Inter-|   Receive                                                |  Transmit
 face |bytes    packets errs drop fifo frame compressed multicast|bytes    packets errs drop fifo colls carrier compressed
    lo: 1000 1 0 0 0 0 0 0 2000 2 0 0 0 0 0 0
  eth0: 4096 4 0 0 0 0 0 0 8192 8 0 0 0 0 0 0
";
    let parsed = parse_proc_net_dev(contents);
    assert_eq!(parsed.len(), 2);
    assert_eq!(parsed[1].interface, "eth0");
    assert_eq!(parsed[1].rx_bytes, 4096);
    assert_eq!(parsed[1].tx_bytes, 8192);
}

#[test]
fn linux_net_dev_skips_malformed_lines() {
    let contents = "\
Inter-|   Receive                                                |  Transmit
 face |bytes    packets errs drop fifo frame compressed multicast|bytes    packets errs drop fifo colls carrier compressed
bad line without colon
eth floppy: 1 2 not-a-number 4 5 6 7 8 9 10
  eth0: 4096 4 0 0 0 0 0 0 8192 8 0 0 0 0 0 0
";
    let parsed = parse_proc_net_dev(contents);
    assert_eq!(parsed.len(), 2);
    assert_eq!(parsed[0].interface, "eth floppy");
    assert_eq!(parsed[0].rx_bytes, 1);
    assert_eq!(parsed[0].tx_bytes, 10);
    assert_eq!(parsed[1].interface, "eth0");
}

#[test]
fn linux_net_dev_trims_interface_whitespace() {
    let contents = "\
header one
header two
     eth0    : 1 2 3 4 5 6 7 8 9
";
    let parsed = parse_proc_net_dev(contents);
    assert_eq!(parsed[0].interface, "eth0");
}

#[test]
fn linux_net_dev_counts_exactly_sixteen_fields() {
    let contents = "\
header one
header two
eth0: 10 1 0 0 0 0 0 0 100 2 0 0 0 0 0 0
eth1: 20 1 0 0 0 0 0 0 0 1 0 0 0 0 0 0
";
    let parsed = parse_proc_net_dev(contents);
    assert_eq!(parsed.len(), 2);
    assert_eq!(parsed[0].tx_bytes, 100);
    assert_eq!(parsed[1].tx_bytes, 0);
}
