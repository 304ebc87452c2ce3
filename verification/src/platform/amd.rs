//! AMD GPU telemetry from the DRM sysfs tree: which entries are cards, and
//! how a card's readings combine its `device` files with its hwmon fallbacks.

use vstd::prelude::*;

use crate::text::starts_with;

verus! {

/// Whether a DRM entry name denotes a card (`card0`, `card1`, `card0-DP-1`, ...).
pub fn is_card_name(name: &str) -> (r: bool)
    ensures
        r == (name@.len() >= 4 && name@.take(4) == seq!['c', 'a', 'r', 'd']),
{
    let prefix = "card";
    proof {
        reveal_strlit("card");
        assert(prefix@ =~= seq!['c', 'a', 'r', 'd']);
    }
    starts_with(name, prefix)
}

/// Raw readings of one card: busy percent, power in microwatts, temperature
/// in millidegrees Celsius.
#[derive(Debug, Clone, PartialEq, Eq)]
pub struct AmdGpuReadings {
    pub card: String,
    pub busy_percent: Option<u64>,
    pub power_microwatts: Option<u64>,
    pub temperature_millicelsius: Option<u64>,
}

/// The first value present in `s`, if any.
pub open spec fn first_present(s: Seq<Option<u64>>) -> Option<u64>
    decreases s.len(),
{
    if s.len() == 0 {
        None
    } else {
        match s[0] {
            Some(v) => Some(v),
            None => first_present(s.drop_first()),
        }
    }
}

/// `preferred` when present, otherwise the first present fallback.
pub open spec fn prefer(preferred: Option<u64>, fallbacks: Seq<Option<u64>>) -> Option<u64> {
    match preferred {
        Some(v) => Some(v),
        None => first_present(fallbacks),
    }
}

pub open spec fn hwmon_power(hwmon: Seq<(Option<u64>, Option<u64>)>) -> Seq<Option<u64>> {
    hwmon.map_values(|h: (Option<u64>, Option<u64>)| h.0)
}

pub open spec fn hwmon_temperature(hwmon: Seq<(Option<u64>, Option<u64>)>) -> Seq<Option<u64>> {
    hwmon.map_values(|h: (Option<u64>, Option<u64>)| h.1)
}

/// `preferred` when present, otherwise the first present value among the
/// hwmon readings selected by `power` (the first of each pair) or not (the second).
fn prefer_hwmon(preferred: Option<u64>, hwmon: &[(Option<u64>, Option<u64>)], power: bool) -> (r:
    Option<u64>)
    ensures
        r == prefer(
            preferred,
            if power {
                hwmon_power(hwmon@)
            } else {
                hwmon_temperature(hwmon@)
            },
        ),
{
    if preferred.is_some() {
        return preferred;
    }
    let ghost all = if power {
        hwmon_power(hwmon@)
    } else {
        hwmon_temperature(hwmon@)
    };
    let n = hwmon.len();
    let mut i: usize = 0;
    assert(all.subrange(0, n as int) =~= all);
    while i < n
        invariant
            i <= n == hwmon@.len(),
            preferred is None,
            all == (if power {
                hwmon_power(hwmon@)
            } else {
                hwmon_temperature(hwmon@)
            }),
            first_present(all) == first_present(all.subrange(i as int, n as int)),
        decreases n - i,
    {
        let ghost rest = all.subrange(i as int, n as int);
        let v = if power {
            hwmon[i].0
        } else {
            hwmon[i].1
        };
        assert(rest[0] == v);
        assert(rest.drop_first() =~= all.subrange(i + 1, n as int));
        if v.is_some() {
            return v;
        }
        i = i + 1;
    }
    assert(all.subrange(n as int, n as int) =~= Seq::<Option<u64>>::empty());
    None
}

/// A card's readings: each of power and temperature from the card's `device`
/// file when present, otherwise from the first hwmon directory that has it;
/// `None` when the card reports nothing at all.
pub fn amd_gpu_readings(
    card: String,
    busy_percent: Option<u64>,
    device_power: Option<u64>,
    device_temperature: Option<u64>,
    hwmon: &[(Option<u64>, Option<u64>)],
) -> (r: Option<AmdGpuReadings>)
    ensures
        ({
            let power = prefer(device_power, hwmon_power(hwmon@));
            let temperature = prefer(device_temperature, hwmon_temperature(hwmon@));
            match r {
                Some(g) => {
                    &&& g.card@ == card@
                    &&& g.busy_percent == busy_percent
                    &&& g.power_microwatts == power
                    &&& g.temperature_millicelsius == temperature
                    &&& (busy_percent is Some || power is Some || temperature is Some)
                },
                None => busy_percent is None && power is None && temperature is None,
            }
        }),
{
    let power = prefer_hwmon(device_power, hwmon, true);
    let temperature = prefer_hwmon(device_temperature, hwmon, false);
    if busy_percent.is_some() || power.is_some() || temperature.is_some() {
        Some(
            AmdGpuReadings {
                card,
                busy_percent,
                power_microwatts: power,
                temperature_millicelsius: temperature,
            },
        )
    } else {
        None
    }
}

} // verus!
