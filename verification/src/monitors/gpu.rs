//! GPU monitor decisions: which source a sample reports (NVIDIA through NVML,
//! AMD through sysfs, or an unavailable notice) and what the notice says.

use vstd::prelude::*;
use vstd::string::*;

use crate::text::{decimal, decimal_string};

verus! {

/// What the NVML query of one sample gave.
pub enum NvmlOutcome {
    /// No NVML reader was loaded.
    NoReader,
    /// The query succeeded but listed no device.
    NoDevices,
    /// The query listed at least one device.
    Devices,
    /// The query failed with this message.
    Failed(String),
}

/// The source a GPU sample reports, in order of preference.
#[derive(Debug, Clone, Copy, PartialEq, Eq, Structural)]
pub enum GpuSource {
    /// The first NVIDIA device NVML lists.
    Nvidia,
    /// The first AMD card with any reading.
    Amd,
    /// An NVIDIA device is present but NVML gave nothing: all readings unavailable.
    NvidiaWithoutNvml,
    /// Nothing to report: all readings unavailable.
    Nothing,
}

pub struct GpuMonitorState {
    nvml_error: Option<String>,
}

pub open spec fn nvml_notice_prefix() -> Seq<char> {
    "NVIDIA device detected; NVML unavailable"@
}

pub open spec fn no_gpu_notice() -> Seq<char> {
    "No supported AMD or NVIDIA GPU telemetry found"@
}

impl GpuMonitorState {
    /// The tab title of the GPU monitor.
    pub fn name(&self) -> (n: &'static str)
        ensures
            n@ == "GPU"@,
    {
        "GPU"
    }

    /// The message of the latest NVML failure (loading or querying), if any.
    pub closed spec fn nvml_error(&self) -> Option<Seq<char>> {
        match self.nvml_error {
            Some(e) => Some(e@),
            None => None,
        }
    }

    /// The state after NVML was (or was not) loaded; `load_error` is the
    /// loading failure's message.
    pub fn new(load_error: Option<String>) -> (s: Self)
        ensures
            s.nvml_error() == match load_error {
                Some(e) => Some(e@),
                None => None::<Seq<char>>,
            },
    {
        GpuMonitorState { nvml_error: load_error }
    }

    /// Takes note of this sample's NVML query; `true` when it listed a device
    /// to report. A failed query's message replaces the remembered one.
    pub fn note_nvml(&mut self, outcome: NvmlOutcome) -> (has_device: bool)
        ensures
            has_device == (outcome is Devices),
            final(self).nvml_error() == match outcome {
                NvmlOutcome::Failed(e) => Some(e@),
                _ => old(self).nvml_error(),
            },
    {
        match outcome {
            NvmlOutcome::Devices => true,
            NvmlOutcome::Failed(e) => {
                self.nvml_error = Some(e);
                false
            },
            _ => false,
        }
    }

    /// The source to report: NVIDIA when NVML listed a device, else AMD when
    /// a card has readings, else a notice that depends on whether an NVIDIA
    /// device is present.
    pub fn choose_source(&self, nvidia_listed: bool, amd_found: bool, nvidia_present: bool) -> (s:
        GpuSource)
        ensures
            s == if nvidia_listed {
                GpuSource::Nvidia
            } else if amd_found {
                GpuSource::Amd
            } else if nvidia_present {
                GpuSource::NvidiaWithoutNvml
            } else {
                GpuSource::Nothing
            },
    {
        if nvidia_listed {
            GpuSource::Nvidia
        } else if amd_found {
            GpuSource::Amd
        } else if nvidia_present {
            GpuSource::NvidiaWithoutNvml
        } else {
            GpuSource::Nothing
        }
    }

    /// The subtitle of an unavailable report: with an NVIDIA device present,
    /// that NVML is unavailable (and why, when known); otherwise that no
    /// supported GPU telemetry was found.
    pub fn unavailable_notice(&self, nvidia_present: bool) -> (notice: String)
        ensures
            notice@ == if nvidia_present {
                match self.nvml_error() {
                    Some(e) => nvml_notice_prefix() + ": "@ + e,
                    None => nvml_notice_prefix(),
                }
            } else {
                no_gpu_notice()
            },
    {
        if nvidia_present {
            let prefix = String::from_str("NVIDIA device detected; NVML unavailable");
            match &self.nvml_error {
                Some(e) => prefix.concat(": ").concat(e.as_str()),
                None => prefix,
            }
        } else {
            String::from_str("No supported AMD or NVIDIA GPU telemetry found")
        }
    }
}

/// The subtitle of an AMD report: `AMD ` and the card's name.
pub fn amd_subtitle(card: &str) -> (s: String)
    ensures
        s@ == "AMD "@ + card@,
{
    String::from_str("AMD ").concat(card)
}

/// The three readings a GPU report shows: utilization, power and
/// temperature, each absent when it could not be read.
#[derive(Debug, Clone, Copy)]
pub struct GpuReadings<T> {
    pub usage: Option<T>,
    pub power: Option<T>,
    pub temperature: Option<T>,
}

/// The subtitle, rows and usage graph point of one GPU sample; an absent
/// value shows as unavailable.
#[derive(Debug, Clone)]
pub struct GpuReport<T> {
    pub subtitle: String,
    pub rows: Vec<(String, Option<T>)>,
    pub graph: Vec<(String, Option<T>)>,
}

/// The GPU tab's content: always the rows `Usage`, `GPU power` and
/// `Temperature`, in that order. A device's readings also give one `Usage`
/// graph point; without a device (`None`) every row is unavailable and
/// there is no graph point.
pub fn gpu_report<T: Copy>(subtitle: String, readings: Option<GpuReadings<T>>) -> (r: GpuReport<T>)
    ensures
        r.subtitle@ == subtitle@,
        r.rows@.len() == 3,
        r.rows@[0].0@ == "Usage"@,
        r.rows@[1].0@ == "GPU power"@,
        r.rows@[2].0@ == "Temperature"@,
        match readings {
            Some(g) => {
                &&& r.rows@[0].1 == g.usage
                &&& r.rows@[1].1 == g.power
                &&& r.rows@[2].1 == g.temperature
                &&& r.graph@.len() == 1
                &&& r.graph@[0].0@ == "Usage"@
                &&& r.graph@[0].1 == g.usage
            },
            None => {
                &&& r.rows@[0].1 is None
                &&& r.rows@[1].1 is None
                &&& r.rows@[2].1 is None
                &&& r.graph@.len() == 0
            },
        },
{
    let mut rows: Vec<(String, Option<T>)> = Vec::new();
    let mut graph: Vec<(String, Option<T>)> = Vec::new();
    match readings {
        Some(g) => {
            rows.push((String::from_str("Usage"), g.usage));
            rows.push((String::from_str("GPU power"), g.power));
            rows.push((String::from_str("Temperature"), g.temperature));
            graph.push((String::from_str("Usage"), g.usage));
        },
        None => {
            rows.push((String::from_str("Usage"), None));
            rows.push((String::from_str("GPU power"), None));
            rows.push((String::from_str("Temperature"), None));
        },
    }
    GpuReport { subtitle, rows, graph }
}

/// The subtitle of an NVIDIA report: `NVIDIA GPU ` and the device's index.
pub fn nvidia_subtitle(index: u32) -> (s: String)
    ensures
        s@ == "NVIDIA GPU "@ + decimal(index as nat),
{
    let digits = decimal_string(index);
    String::from_str("NVIDIA GPU ").concat(digits.as_str())
}

} // verus!
