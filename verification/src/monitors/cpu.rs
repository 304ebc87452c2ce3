//! CPU monitor state: the previous `/proc/stat` sample and the previous
//! reading of each powercap energy counter.

use vstd::prelude::*;
use vstd::string::*;

use crate::platform::power::EnergyCounter;
use crate::platform::proc::{cpu_usage_ratio, spec_cpu_usage, CpuTimes, CpuUsage};
use crate::telemetry::delta::{delta_sample, previous_record, DeltaSample, DeltaTracker};

verus! {

/// Recording each counter of `cs` in turn at `now`: the records afterwards,
/// and the (energy delta in microjoules, elapsed nanoseconds) of every
/// counter that changed, in order. First readings, rollbacks and readings
/// with no elapsed time contribute nothing.
pub open spec fn energy_steps(
    records: Map<Seq<char>, (u64, u64)>,
    cs: Seq<EnergyCounter>,
    now: u64,
) -> (Map<Seq<char>, (u64, u64)>, Seq<(u64, u64)>)
    decreases cs.len(),
{
    if cs.len() == 0 {
        (records, seq![])
    } else {
        let c = cs[0];
        let sample = delta_sample(previous_record(records, c.path@), c.energy_uj, now);
        let rest = energy_steps(records.insert(c.path@, (c.energy_uj, now)), cs.drop_first(), now);
        (
            rest.0,
            match sample {
                DeltaSample::Changed(delta, elapsed) => seq![(delta, elapsed)] + rest.1,
                _ => rest.1,
            },
        )
    }
}

pub struct CpuMonitor {
    previous_times: Option<CpuTimes>,
    previous_energy: DeltaTracker<String>,
}

impl CpuMonitor {
    /// The previous `/proc/stat` sample, if any.
    pub closed spec fn previous_times(&self) -> Option<CpuTimes> {
        self.previous_times
    }

    /// The last reading of each energy counter, by path.
    pub closed spec fn energy_records(&self) -> Map<Seq<char>, (u64, u64)> {
        self.previous_energy@
    }

    pub fn new() -> (m: Self)
        ensures
            m.previous_times() is None,
            m.energy_records() == Map::<Seq<char>, (u64, u64)>::empty(),
    {
        CpuMonitor { previous_times: None, previous_energy: DeltaTracker::new() }
    }

    /// The tab title of this monitor.
    pub fn name(&self) -> (n: &'static str)
        ensures
            n@ == "CPU"@,
    {
        "CPU"
    }

    /// Takes a new `/proc/stat` sample; the usage since the previous sample,
    /// none on the first sample.
    pub fn update_usage(&mut self, current: CpuTimes) -> (usage: Option<CpuUsage>)
        ensures
            usage == match old(self).previous_times() {
                Some(previous) => spec_cpu_usage(previous, current),
                None => None,
            },
            usage matches Some(u) ==> 0 < u.total && u.busy <= u.total,
            final(self).previous_times() == Some(current),
            final(self).energy_records() == old(self).energy_records(),
    {
        let usage = match self.previous_times {
            Some(previous) => cpu_usage_ratio(previous, current),
            None => None,
        };
        self.previous_times = Some(current);
        usage
    }

    /// Records the package energy counters read at `now` (nanoseconds); the
    /// energy used and time elapsed for each counter that advanced.
    pub fn record_package_energy(&mut self, counters: &[EnergyCounter], now: u64) -> (deltas: Vec<
        (u64, u64),
    >)
        ensures
            (final(self).energy_records(), deltas@) == energy_steps(
                old(self).energy_records(),
                counters@,
                now,
            ),
            final(self).previous_times() == old(self).previous_times(),
    {
        let n = counters.len();
        let mut deltas: Vec<(u64, u64)> = Vec::new();
        let mut i: usize = 0;
        assert(counters@.subrange(0, n as int) =~= counters@);
        while i < n
            invariant
                i <= n == counters@.len(),
                self.previous_times == old(self).previous_times,
                energy_steps(old(self).energy_records(), counters@, now) == ({
                    let rest = energy_steps(
                        self.previous_energy@,
                        counters@.subrange(i as int, n as int),
                        now,
                    );
                    (rest.0, deltas@ + rest.1)
                }),
            decreases n - i,
        {
            let ghost rest = counters@.subrange(i as int, n as int);
            let c = &counters[i];
            proof {
                assert(rest[0] == *c);
                assert(rest.drop_first() =~= counters@.subrange(i + 1, n as int));
            }
            let sample = self.previous_energy.record(c.path.clone(), c.energy_uj, now);
            match sample {
                DeltaSample::Changed(delta, elapsed) => {
                    let ghost before = deltas@;
                    deltas.push((delta, elapsed));
                    proof {
                        let tail = energy_steps(
                            self.previous_energy@,
                            counters@.subrange(i + 1, n as int),
                            now,
                        ).1;
                        assert(before + (seq![(delta, elapsed)] + tail) =~= deltas@ + tail);
                    }
                },
                _ => {},
            }
            i = i + 1;
        }
        proof {
            assert(counters@.subrange(n as int, n as int) =~= Seq::<EnergyCounter>::empty());
            assert(deltas@ + seq![] =~= deltas@);
        }
        deltas
    }
}

/// What a row of the CPU tab shows.
#[derive(Debug, Clone)]
pub enum CpuValue {
    /// Busy and total jiffies since the previous sample.
    Usage(CpuUsage),
    /// (Energy in microjoules, elapsed nanoseconds) of each package counter
    /// that advanced; the row shows their summed power.
    PackagePower(Vec<(u64, u64)>),
    Unavailable,
}

/// The subtitle, rows and graph point of one CPU sample, in display order.
/// The graph point carries the usage; absent usage plots as zero.
#[derive(Debug, Clone)]
pub struct CpuReport {
    pub subtitle: String,
    pub rows: Vec<(String, CpuValue)>,
    pub graph: Vec<(String, Option<CpuUsage>)>,
}

/// The CPU tab's content: a `Usage` row (unavailable before a usage could be
/// measured) and a `CPU package power` row (unavailable when no package
/// counter advanced), and one `Usage` graph point on every sample.
pub fn cpu_report(usage: Option<CpuUsage>, package_deltas: Vec<(u64, u64)>) -> (r: CpuReport)
    ensures
        r.subtitle@ == "Aggregate processor usage and package power"@,
        r.rows@.len() == 2,
        r.rows@[0].0@ == "Usage"@,
        r.rows@[0].1 == match usage {
            Some(u) => CpuValue::Usage(u),
            None => CpuValue::Unavailable,
        },
        r.rows@[1].0@ == "CPU package power"@,
        r.rows@[1].1 == if package_deltas@.len() == 0 {
            CpuValue::Unavailable
        } else {
            CpuValue::PackagePower(package_deltas)
        },
        r.graph@.len() == 1,
        r.graph@[0].0@ == "Usage"@,
        r.graph@[0].1 == usage,
{
    let usage_value = match usage {
        Some(u) => CpuValue::Usage(u),
        None => CpuValue::Unavailable,
    };
    let power_value = if package_deltas.len() == 0 {
        CpuValue::Unavailable
    } else {
        CpuValue::PackagePower(package_deltas)
    };
    let mut rows: Vec<(String, CpuValue)> = Vec::new();
    rows.push((String::from_str("Usage"), usage_value));
    rows.push((String::from_str("CPU package power"), power_value));
    let mut graph: Vec<(String, Option<CpuUsage>)> = Vec::new();
    graph.push((String::from_str("Usage"), usage));
    CpuReport {
        subtitle: String::from_str("Aggregate processor usage and package power"),
        rows,
        graph,
    }
}

} // verus!
