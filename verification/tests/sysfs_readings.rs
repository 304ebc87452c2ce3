use linux_task_manager::platform::amd::{amd_gpu_readings, is_card_name};
use linux_task_manager::platform::power::{
    energy_counter, supply_kind, supply_power_reading, PowerReading, PowercapWalk, ZoneEntry,
};
use linux_task_manager::text::{parse_trimmed_u64, trimmed};

fn zone(path: &str, is_real_dir: bool, energy: Option<&str>, name: Option<&str>) -> ZoneEntry {
    ZoneEntry {
        path: path.to_string(),
        is_real_dir,
        energy_contents: energy.map(|s| s.to_string()),
        name_contents: name.map(|s| s.to_string()),
    }
}

#[test]
fn sysfs_values_are_trimmed_before_parsing() {
    assert_eq!(parse_trimmed_u64("1234567890\n"), Some(1234567890));
    assert_eq!(parse_trimmed_u64("  73 "), Some(73));
    assert_eq!(parse_trimmed_u64(" \n"), None);
    assert_eq!(parse_trimmed_u64("garbage"), None);
    assert_eq!(parse_trimmed_u64("18446744073709551615"), Some(u64::MAX));
    assert_eq!(parse_trimmed_u64("18446744073709551616"), None);
    assert_eq!(trimmed("  Battery\n"), "Battery");
}

#[test]
fn energy_counter_needs_a_numeric_energy_file() {
    let c = energy_counter("/z/zone0".to_string(), Some("1234567890\n"), Some("intel-rapl-main\n"))
        .unwrap();
    assert_eq!(c.path, "/z/zone0");
    assert_eq!(c.name, "intel-rapl-main");
    assert_eq!(c.energy_uj, 1234567890);
    assert!(energy_counter("/z/bogus".to_string(), Some("bogus"), Some("x")).is_none());
    assert!(energy_counter("/z/none".to_string(), None, Some("x")).is_none());
}

#[test]
fn energy_counter_without_name_is_called_powercap() {
    let c = energy_counter("/z/zone1".to_string(), Some("5"), None).unwrap();
    assert_eq!(c.name, "powercap");
}

#[test]
fn powercap_walk_descends_only_into_real_directories() {
    let mut walk = PowercapWalk::start(Some("/sys/class/powercap".to_string()));
    assert_eq!(walk.next_dir(), Some("/sys/class/powercap".to_string()));
    walk.visit(zone("/p/zone0", true, Some("1234567890"), Some("intel-rapl-main")));
    walk.visit(zone("/p/device", false, Some("99"), None));
    walk.visit(zone("/p/bogus", true, Some("bogus"), None));
    assert_eq!(walk.next_dir(), Some("/p/bogus".to_string()));
    assert_eq!(walk.next_dir(), Some("/p/zone0".to_string()));
    walk.visit(zone("/p/zone0/subzone", true, Some("987654321"), Some("intel-rapl-core")));
    assert_eq!(walk.next_dir(), Some("/p/zone0/subzone".to_string()));
    assert_eq!(walk.next_dir(), None);
    let counters = walk.finish();
    assert_eq!(counters.len(), 2);
    assert_eq!(counters[0].name, "intel-rapl-main");
    assert_eq!(counters[0].energy_uj, 1234567890);
    assert_eq!(counters[1].path, "/p/zone0/subzone");
    assert_eq!(counters[1].energy_uj, 987654321);
}

#[test]
fn powercap_walk_without_root_is_empty() {
    let mut walk = PowercapWalk::start(None);
    assert_eq!(walk.next_dir(), None);
    assert!(walk.finish().is_empty());
}

#[test]
fn supply_power_prefers_power_now() {
    assert_eq!(
        supply_power_reading(Some(12_000_000), Some(1), Some(2)),
        PowerReading::Direct(12_000_000)
    );
    assert_eq!(
        supply_power_reading(None, Some(2000), Some(240_000)),
        PowerReading::CurrentAndVoltage(2000, 240_000)
    );
    assert_eq!(supply_power_reading(None, Some(2000), None), PowerReading::Missing);
    assert_eq!(supply_power_reading(None, None, None), PowerReading::Missing);
}

#[test]
fn supply_kind_falls_back_to_unknown() {
    assert_eq!(supply_kind(Some("Battery\n")), "Battery");
    assert_eq!(supply_kind(Some("WeirdThing")), "WeirdThing");
    assert_eq!(supply_kind(None), "Unknown");
}

#[test]
fn card_names_start_with_card() {
    assert!(is_card_name("card1"));
    assert!(is_card_name("card0-DP-1"));
    assert!(!is_card_name("renderD128"));
    assert!(!is_card_name("car"));
}

#[test]
fn amd_device_files_win_over_hwmon() {
    let hwmon = [(Some(51_230_000), None), (None, Some(36_500)), (Some(1), Some(2))];
    let gpu = amd_gpu_readings("card1".to_string(), Some(42), Some(35_123_000), None, &hwmon)
        .unwrap();
    assert_eq!(gpu.card, "card1");
    assert_eq!(gpu.busy_percent, Some(42));
    assert_eq!(gpu.power_microwatts, Some(35_123_000));
    assert_eq!(gpu.temperature_millicelsius, Some(36_500));
}

#[test]
fn amd_card_without_readings_is_skipped() {
    assert!(amd_gpu_readings("cardNoHwmon".to_string(), None, None, None, &[]).is_none());
    let only_hwmon = amd_gpu_readings("card2".to_string(), None, None, None, &[(Some(7), None)])
        .unwrap();
    assert_eq!(only_hwmon.power_microwatts, Some(7));
    assert_eq!(only_hwmon.temperature_millicelsius, None);
}
