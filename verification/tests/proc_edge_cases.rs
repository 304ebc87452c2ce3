use linux_task_manager::platform::proc::{
    cpu_line_fields, cpu_usage_ratio, parse_proc_net_dev, parse_proc_stat, parse_proc_stat_cpu, CpuTimes,
    CpuUsage,
};

#[test]
fn stat_line_with_four_fields_has_no_iowait() {
    let times = parse_proc_stat_cpu("cpu 1 2 3 4").unwrap();
    assert_eq!(times, CpuTimes { idle: 4, total: 10 });
}

#[test]
fn stat_line_accepts_tabs_plus_signs_and_crlf() {
    let times = parse_proc_stat_cpu("\tcpu\t+5 0 0 +7 1\r").unwrap();
    assert_eq!(times, CpuTimes { idle: 8, total: 13 });
}

#[test]
fn stat_line_drops_out_of_range_and_signed_fields() {
    // 18446744073709551616 is one past u64::MAX; "-3" and "+" are not unsigned numbers.
    let times = parse_proc_stat_cpu("cpu 18446744073709551616 -3 + 1 2 3 4").unwrap();
    assert_eq!(times, CpuTimes { idle: 4, total: 10 });
}

#[test]
fn empty_or_blank_stat_line_is_rejected() {
    assert!(parse_proc_stat_cpu("").is_none());
    assert!(parse_proc_stat_cpu("   ").is_none());
    assert!(parse_proc_stat_cpu("CPU 1 2 3 4").is_none());
}

#[test]
fn cpu_line_fields_lists_numeric_fields() {
    assert_eq!(cpu_line_fields("cpu 7 x 8"), Some(vec![7, 8]));
    assert_eq!(cpu_line_fields("cpu1 7 8"), None);
    assert_eq!(cpu_line_fields("cpu"), Some(vec![]));
}

#[test]
fn usage_ratio_pins_busy_and_total() {
    let previous = CpuTimes { idle: 80, total: 100 };
    let current = CpuTimes { idle: 90, total: 200 };
    assert_eq!(
        cpu_usage_ratio(previous, current),
        Some(CpuUsage { busy: 90, total: 100 })
    );
}

#[test]
fn net_dev_with_only_headers_is_empty() {
    assert!(parse_proc_net_dev("").is_empty());
    assert!(parse_proc_net_dev("a: 1 2 3 4 5 6 7 8 9\nb: 1 2 3 4 5 6 7 8 9\n").is_empty());
}

#[test]
fn net_dev_splits_at_first_colon_and_needs_nine_numbers() {
    let contents = "h1\nh2\nveth:x: 1 2 3 4 5 6 7 8 9\nshort: 1 2 3 4 5 6 7 8\n";
    let parsed = parse_proc_net_dev(contents);
    // "veth" before the first colon; "x:" is not numeric and is skipped.
    assert_eq!(parsed.len(), 1);
    assert_eq!(parsed[0].interface, "veth");
    assert_eq!((parsed[0].rx_bytes, parsed[0].tx_bytes), (1, 9));
}

#[test]
fn net_dev_handles_crlf_and_missing_final_newline() {
    let contents = "h1\r\nh2\r\n  wlan0: 5 0 0 0 0 0 0 0 6\r\n  eth1: 7 0 0 0 0 0 0 0 8";
    let parsed = parse_proc_net_dev(contents);
    assert_eq!(parsed.len(), 2);
    assert_eq!(parsed[0].interface, "wlan0");
    assert_eq!(parsed[0].tx_bytes, 6);
    assert_eq!(parsed[1].interface, "eth1");
    assert_eq!(parsed[1].tx_bytes, 8);
}

#[test]
fn whole_stat_file_yields_the_aggregate_line_only() {
    let contents = "cpu0 1 2 3 4\ncpu  100 0 50 850 10 0 0 0 0 0\ncpu1 9 9 9 9\nintr 5\n";
    assert_eq!(
        parse_proc_stat(contents),
        Some(CpuTimes { idle: 860, total: 1010 })
    );
    assert_eq!(parse_proc_stat("cpu0 1 2 3 4\nintr 1 2 3 4\n"), None);
    assert_eq!(parse_proc_stat(""), None);
}
