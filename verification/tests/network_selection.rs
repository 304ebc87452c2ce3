use linux_task_manager::monitors::network::choose_interface;
use linux_task_manager::platform::linux::NetworkCounters;

fn counter(interface: &str, rx: u64, tx: u64) -> NetworkCounters {
    NetworkCounters {
        interface: interface.to_string(),
        rx_bytes: rx,
        tx_bytes: tx,
    }
}

#[test]
fn prefers_selected_interface() {
    let counters = vec![counter("eth0", 10, 10), counter("wlan0", 1, 1)];

    assert_eq!(
        choose_interface(&counters, Some("wlan0"))
            .unwrap()
            .interface,
        "wlan0"
    );
}

#[test]
fn selected_interface_missing_returns_none() {
    let counters = vec![counter("eth0", 10, 10)];
    assert!(choose_interface(&counters, Some("ppp0")).is_none());
}

#[test]
fn skips_loopback_for_auto_selection() {
    let counters = vec![counter("lo", 1000, 1000), counter("eth0", 10, 20)];
    let chosen = choose_interface(&counters, None).unwrap();
    assert_eq!(chosen.interface, "eth0");
}

#[test]
fn picks_busiest_interface_by_rx_plus_tx() {
    let counters = vec![counter("eth0", 10, 10), counter("wlan0", 1, 100)];
    let chosen = choose_interface(&counters, None).unwrap();
    assert_eq!(chosen.interface, "wlan0");
}

#[test]
fn all_loopback_is_still_returned_as_fallback() {
    let counters = vec![counter("lo", 1000, 1000)];
    let chosen = choose_interface(&counters, None).unwrap();
    assert_eq!(chosen.interface, "lo");
}

#[test]
fn empty_counters_have_no_selection() {
    let counters: Vec<NetworkCounters> = Vec::new();
    assert!(choose_interface(&counters, None).is_none());
    assert!(choose_interface(&counters, Some("eth0")).is_none());
}

#[test]
fn tie_keeps_first_max() {
    let counters = vec![counter("eth0", 100, 100), counter("wlan0", 100, 100)];
    let chosen = choose_interface(&counters, None).unwrap();
    assert_eq!(chosen.interface, "wlan0");
}

#[test]
fn selected_interface_takes_first_of_duplicates() {
    let counters = vec![
        counter("eth0", 1, 2),
        counter("eth0", 30, 40),
        counter("wlan0", 5, 6),
    ];
    let chosen = choose_interface(&counters, Some("eth0")).unwrap();
    assert_eq!((chosen.rx_bytes, chosen.tx_bytes), (1, 2));
}

#[test]
fn selected_loopback_is_honoured() {
    let counters = vec![counter("eth0", 500, 500), counter("lo", 1, 1)];
    let chosen = choose_interface(&counters, Some("lo")).unwrap();
    assert_eq!(chosen.interface, "lo");
}

#[test]
fn loopback_first_falls_back_to_busiest_later_interface() {
    let counters = vec![
        counter("lo", 9000, 9000),
        counter("eth0", 3, 4),
        counter("wlan0", 2, 1),
    ];
    let chosen = choose_interface(&counters, None).unwrap();
    assert_eq!(chosen.interface, "eth0");
}

#[test]
fn interface_names_compare_exactly() {
    let counters = vec![counter("lo0", 1, 1), counter("eth", 0, 0)];
    // "lo0" is not loopback, so it wins on traffic.
    assert_eq!(choose_interface(&counters, None).unwrap().interface, "lo0");
    assert!(choose_interface(&counters, Some("eth0")).is_none());
}
