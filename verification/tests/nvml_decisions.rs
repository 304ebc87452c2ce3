use linux_task_manager::platform::nvidia::{
    nvml_count_error, nvml_device_readings, nvml_handle_usable, nvml_init_error,
    NvmlDeviceReadings,
};

#[test]
fn nvml_success_codes_are_not_errors() {
    assert_eq!(nvml_init_error(0), None);
    assert_eq!(nvml_count_error(0), None);
}

#[test]
fn nvml_failure_codes_name_the_call_and_code() {
    assert_eq!(
        nvml_init_error(9).as_deref(),
        Some("NVML initialization failed with code 9")
    );
    assert_eq!(
        nvml_count_error(999).as_deref(),
        Some("NVML device count failed with code 999")
    );
}

#[test]
fn nvml_device_needs_a_non_null_handle() {
    assert!(nvml_handle_usable(0, false));
    assert!(!nvml_handle_usable(0, true));
    assert!(!nvml_handle_usable(3, false));
}

#[test]
fn nvml_readings_keep_only_successful_calls() {
    assert_eq!(
        nvml_device_readings(2, (0, 42), (0, 112_345), (0, 61)),
        NvmlDeviceReadings {
            index: 2,
            utilization_percent: Some(42),
            power_milliwatts: Some(112_345),
            temperature_celsius: Some(61),
        }
    );
    assert_eq!(
        nvml_device_readings(0, (1, 42), (0, 80_000), (15, 61)),
        NvmlDeviceReadings {
            index: 0,
            utilization_percent: None,
            power_milliwatts: Some(80_000),
            temperature_celsius: None,
        }
    );
}
