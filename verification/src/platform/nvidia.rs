//! The decisions of an NVML query, on the plain return codes and values
//! that the NVML calls hand back.

use vstd::prelude::*;
use vstd::string::*;

use crate::text::{decimal, decimal_string};

verus! {

/// The return code of a successful NVML call.
pub const NVML_SUCCESS: u32 = 0;

/// The error message of a failed call: `<call> failed with code <code>`.
pub open spec fn failure_message(call: Seq<char>, code: u32) -> Seq<char> {
    call + " failed with code "@ + decimal(code as nat)
}

fn call_error(call: &str, code: u32) -> (r: Option<String>)
    ensures
        code == NVML_SUCCESS ==> r is None,
        code != NVML_SUCCESS ==> (r matches Some(m) && m@ == failure_message(call@, code)),
{
    if code == NVML_SUCCESS {
        None
    } else {
        let digits = decimal_string(code);
        Some(String::from_str(call).concat(" failed with code ").concat(digits.as_str()))
    }
}

/// What the return code of `nvmlInit` means: no error on success, otherwise
/// `NVML initialization failed with code <code>`.
pub fn nvml_init_error(code: u32) -> (r: Option<String>)
    ensures
        code == NVML_SUCCESS ==> r is None,
        code != NVML_SUCCESS ==> (r matches Some(m) && m@ == failure_message(
            "NVML initialization"@,
            code,
        )),
{
    call_error("NVML initialization", code)
}

/// What the return code of `nvmlDeviceGetCount` means: no error on success,
/// otherwise `NVML device count failed with code <code>`.
pub fn nvml_count_error(code: u32) -> (r: Option<String>)
    ensures
        code == NVML_SUCCESS ==> r is None,
        code != NVML_SUCCESS ==> (r matches Some(m) && m@ == failure_message(
            "NVML device count"@,
            code,
        )),
{
    call_error("NVML device count", code)
}

/// A device is queried only when its handle was obtained: a successful
/// call that handed back a non-null handle.
pub fn nvml_handle_usable(code: u32, handle_is_null: bool) -> (r: bool)
    ensures
        r == (code == NVML_SUCCESS && !handle_is_null),
{
    code == NVML_SUCCESS && !handle_is_null
}

/// The readings of one NVIDIA device, in NVML's units: utilization percent,
/// power in milliwatts, temperature in degrees Celsius; each absent when
/// its call failed.
#[derive(Debug, Clone, Copy, PartialEq, Eq, Structural)]
pub struct NvmlDeviceReadings {
    pub index: u32,
    pub utilization_percent: Option<u32>,
    pub power_milliwatts: Option<u32>,
    pub temperature_celsius: Option<u32>,
}

/// The value a call handed back, kept only when the call succeeded.
pub open spec fn reading(result: (u32, u32)) -> Option<u32> {
    if result.0 == NVML_SUCCESS {
        Some(result.1)
    } else {
        None
    }
}

fn keep(result: (u32, u32)) -> (v: Option<u32>)
    ensures
        v == reading(result),
{
    if result.0 == NVML_SUCCESS {
        Some(result.1)
    } else {
        None
    }
}

/// The readings of device `index` from the (return code, value) of its
/// utilization, power and temperature calls.
pub fn nvml_device_readings(
    index: u32,
    utilization: (u32, u32),
    power: (u32, u32),
    temperature: (u32, u32),
) -> (r: NvmlDeviceReadings)
    ensures
        r == (NvmlDeviceReadings {
            index,
            utilization_percent: reading(utilization),
            power_milliwatts: reading(power),
            temperature_celsius: reading(temperature),
        }),
{
    NvmlDeviceReadings {
        index,
        utilization_percent: keep(utilization),
        power_milliwatts: keep(power),
        temperature_celsius: keep(temperature),
    }
}

} // verus!
