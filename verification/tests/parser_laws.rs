use linux_task_manager::platform::linux::{parse_proc_net_dev, parse_proc_stat_cpu};

const NET_DEV: &str = "Inter-|   Receive                            |  Transmit\n face |bytes    packets errs drop fifo frame compressed multicast|bytes    packets errs drop fifo colls carrier compressed\n    lo: 1000 10 0 0 0 0 0 0 1000 10 0 0 0 0 0 0\n  eth0: 4096 20 0 0 0 0 0 0 8192 30 0 0 0 0 0 0\n";

#[test]
fn net_dev_rows_parse_independently_of_what_precedes_them() {
    let more = "wlan0: 7 1 0 0 0 0 0 0 9 1 0 0 0 0 0 0\nbroken line\n";
    let whole = parse_proc_net_dev(&format!("{NET_DEV}{more}"));
    let mut expected = parse_proc_net_dev(NET_DEV);
    expected.extend(parse_proc_net_dev(&format!("h\nh\n{more}")));
    assert_eq!(whole, expected);
    let names: Vec<&str> = whole.iter().map(|c| c.interface.as_str()).collect();
    assert_eq!(names, vec!["lo", "eth0", "wlan0"]);
    assert_eq!((whole[2].rx_bytes, whole[2].tx_bytes), (7, 9));
}

#[test]
fn stat_line_ignores_an_appended_non_numeric_field() {
    let line = "cpu 10 0 0 90 5";
    let base = parse_proc_stat_cpu(line);
    assert_eq!(parse_proc_stat_cpu(&format!("{line} x")), base);
    assert_eq!(parse_proc_stat_cpu(&format!("{line} -3")), base);
    assert_eq!(parse_proc_stat_cpu(&format!("{line} 99999999999999999999")), base);
    let times = base.expect("aggregate line parses");
    assert_eq!((times.idle, times.total), (95, 105));
    assert_eq!(parse_proc_stat_cpu("cpu 1 2 3 x"), None);
}
