use linux_task_manager::monitors::gpu::{amd_subtitle, GpuMonitorState, GpuSource, NvmlOutcome};

#[test]
fn nvidia_wins_then_amd_then_notices() {
    let state = GpuMonitorState::new(None);
    assert_eq!(state.choose_source(true, true, true), GpuSource::Nvidia);
    assert_eq!(state.choose_source(false, true, true), GpuSource::Amd);
    assert_eq!(state.choose_source(false, false, true), GpuSource::NvidiaWithoutNvml);
    assert_eq!(state.choose_source(false, false, false), GpuSource::Nothing);
}

#[test]
fn failed_query_message_reaches_the_notice() {
    let mut state = GpuMonitorState::new(None);
    assert_eq!(
        state.unavailable_notice(true),
        "NVIDIA device detected; NVML unavailable"
    );
    assert!(!state.note_nvml(NvmlOutcome::Failed(
        "NVML device count failed with code 3".to_string()
    )));
    assert_eq!(
        state.unavailable_notice(true),
        "NVIDIA device detected; NVML unavailable: NVML device count failed with code 3"
    );
    // A later successful query keeps the remembered message.
    assert!(state.note_nvml(NvmlOutcome::Devices));
    assert!(!state.note_nvml(NvmlOutcome::NoDevices));
    assert_eq!(
        state.unavailable_notice(true),
        "NVIDIA device detected; NVML unavailable: NVML device count failed with code 3"
    );
}

#[test]
fn load_error_and_missing_gpu_notices() {
    let mut state = GpuMonitorState::new(Some("NVML library not found".to_string()));
    assert!(!state.note_nvml(NvmlOutcome::NoReader));
    assert_eq!(
        state.unavailable_notice(true),
        "NVIDIA device detected; NVML unavailable: NVML library not found"
    );
    assert_eq!(
        state.unavailable_notice(false),
        "No supported AMD or NVIDIA GPU telemetry found"
    );
}

#[test]
fn amd_subtitle_names_the_card() {
    assert_eq!(amd_subtitle("card1"), "AMD card1");
}
