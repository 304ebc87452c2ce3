//! The Power tab: one pair of rows per system power supply, and one graph
//! point per supply that reports its power draw.

use vstd::prelude::*;

use crate::platform::power::PowerReading;

verus! {

pub struct PowerMonitor;

impl PowerMonitor {
    pub fn new() -> (m: Self) {
        PowerMonitor
    }

    /// The tab title of this monitor.
    pub fn name(&self) -> (n: &'static str)
        ensures
            n@ == "Power"@,
    {
        "Power"
    }
}

/// What one row of the Power tab shows.
#[derive(Debug, Clone, Copy, PartialEq, Eq, Structural)]
pub enum SupplyValue {
    Power(PowerReading),
    Capacity(u64),
    Unavailable,
}

/// What was read of one supply under `/sys/class/power_supply`.
#[derive(Debug, Clone)]
pub struct SupplyReadings {
    pub name: String,
    pub kind: String,
    pub power: PowerReading,
    pub capacity_percent: Option<u64>,
}

/// The rows and graph points of one Power sample, in display order.
#[derive(Debug, Clone)]
pub struct PowerReport {
    pub subtitle: String,
    pub rows: Vec<(String, SupplyValue)>,
    pub graph: Vec<(String, PowerReading)>,
}

/// `<name> <kind>`: the label every row and point of a supply starts with.
pub open spec fn supply_prefix(s: SupplyReadings) -> Seq<char> {
    s.name@ + " "@ + s.kind@
}

pub open spec fn power_row_value(p: PowerReading) -> SupplyValue {
    if p is Missing {
        SupplyValue::Unavailable
    } else {
        SupplyValue::Power(p)
    }
}

pub open spec fn capacity_row_value(c: Option<u64>) -> SupplyValue {
    match c {
        Some(c) => SupplyValue::Capacity(c),
        None => SupplyValue::Unavailable,
    }
}

/// A supply's rows show its readings as read: any capacity reading, full
/// charge included, as that capacity, and any power reading as that power;
/// only a missing reading is unavailable.
pub proof fn law_supply_rows_show_readings(p: PowerReading, c: Option<u64>)
    ensures
        c matches Some(v) ==> capacity_row_value(c) == SupplyValue::Capacity(v),
        c is None ==> capacity_row_value(c) == SupplyValue::Unavailable,
        !(p is Missing) ==> power_row_value(p) == SupplyValue::Power(p),
        p is Missing ==> power_row_value(p) == SupplyValue::Unavailable,
{
}

/// The graph points of the given supplies: those that report power, in
/// order, each labelled `<name> <kind> power`.
pub open spec fn power_graph(s: Seq<SupplyReadings>) -> Seq<(Seq<char>, PowerReading)>
    decreases s.len(),
{
    if s.len() == 0 {
        Seq::empty()
    } else {
        let rest = power_graph(s.drop_last());
        let last = s.last();
        if last.power is Missing {
            rest
        } else {
            rest.push((supply_prefix(last) + " power"@, last.power))
        }
    }
}

/// The Power tab's content for the supplies found, in the order found.
pub fn power_report(supplies: &[SupplyReadings]) -> (r: PowerReport)
    ensures
        supplies@.len() == 0 ==> {
            &&& r.subtitle@ == "No system power supply telemetry found"@
            &&& r.rows@.len() == 2
            &&& r.rows@[0].0@ == "System power"@
            &&& r.rows@[0].1 == SupplyValue::Unavailable
            &&& r.rows@[1].0@ == "Battery"@
            &&& r.rows@[1].1 == SupplyValue::Unavailable
            &&& r.graph@.len() == 0
        },
        supplies@.len() > 0 ==> {
            &&& r.subtitle@ == "System power supply telemetry"@
            &&& r.rows@.len() == 2 * supplies@.len()
            &&& forall|i: int|
                0 <= i < supplies@.len() ==> {
                    &&& (#[trigger] r.rows@[2 * i]).0@ == supply_prefix(supplies@[i]) + " power"@
                    &&& r.rows@[2 * i].1 == power_row_value(supplies@[i].power)
                    &&& r.rows@[2 * i + 1].0@ == supply_prefix(supplies@[i]) + " capacity"@
                    &&& r.rows@[2 * i + 1].1 == capacity_row_value(
                        supplies@[i].capacity_percent,
                    )
                }
        },
        supplies@.len() > 0 ==> forall|i: int|
            0 <= i < supplies@.len() ==> {
                &&& (#[trigger] supplies@[i]).capacity_percent matches Some(c) ==> r.rows@[2 * i
                    + 1].1 == SupplyValue::Capacity(c)
                &&& supplies@[i].capacity_percent is None ==> r.rows@[2 * i + 1].1
                    == SupplyValue::Unavailable
                &&& supplies@[i].power is Missing ==> r.rows@[2 * i].1 == SupplyValue::Unavailable
                &&& !(supplies@[i].power is Missing) ==> r.rows@[2 * i].1 == SupplyValue::Power(
                    supplies@[i].power,
                )
            },
        r.graph@.len() == power_graph(supplies@).len(),
        forall|j: int|
            0 <= j < r.graph@.len() ==> (#[trigger] r.graph@[j]).0@ == power_graph(supplies@)[j].0
                && r.graph@[j].1 == power_graph(supplies@)[j].1,
{
    let mut rows: Vec<(String, SupplyValue)> = Vec::new();
    let mut graph: Vec<(String, PowerReading)> = Vec::new();
    if supplies.len() == 0 {
        rows.push((String::from_str("System power"), SupplyValue::Unavailable));
        rows.push((String::from_str("Battery"), SupplyValue::Unavailable));
        return PowerReport {
            subtitle: String::from_str("No system power supply telemetry found"),
            rows,
            graph,
        };
    }
    let mut i: usize = 0;
    while i < supplies.len()
        invariant
            i <= supplies@.len(),
            rows@.len() == 2 * i,
            forall|k: int|
                0 <= k < i ==> {
                    &&& (#[trigger] rows@[2 * k]).0@ == supply_prefix(supplies@[k]) + " power"@
                    &&& rows@[2 * k].1 == power_row_value(supplies@[k].power)
                    &&& rows@[2 * k + 1].0@ == supply_prefix(supplies@[k]) + " capacity"@
                    &&& rows@[2 * k + 1].1 == capacity_row_value(supplies@[k].capacity_percent)
                },
            graph@.len() == power_graph(supplies@.subrange(0, i as int)).len(),
            forall|j: int|
                0 <= j < graph@.len() ==> (#[trigger] graph@[j]).0@ == power_graph(
                    supplies@.subrange(0, i as int),
                )[j].0 && graph@[j].1 == power_graph(supplies@.subrange(0, i as int))[j].1,
        decreases supplies@.len() - i,
    {
        let s = &supplies[i];
        let mut prefix = s.name.clone();
        prefix.append(" ");
        prefix.append(s.kind.as_str());
        let power_label = prefix.clone().concat(" power");
        let capacity_label = prefix.concat(" capacity");
        let power_value = match s.power {
            PowerReading::Missing => SupplyValue::Unavailable,
            p => SupplyValue::Power(p),
        };
        let capacity_value = match s.capacity_percent {
            Some(c) => SupplyValue::Capacity(c),
            None => SupplyValue::Unavailable,
        };
        let point_label = power_label.clone();
        let ghost before = rows@;
        rows.push((power_label, power_value));
        rows.push((capacity_label, capacity_value));
        proof {
            assert forall|k: int| 0 <= k < i implies (#[trigger] rows@[2 * k]) == before[2 * k]
                && rows@[2 * k + 1] == before[2 * k + 1] by {}
        }
        let ghost graph_before = graph@;
        let ghost upto = supplies@.subrange(0, i as int + 1);
        proof {
            assert(upto.drop_last() =~= supplies@.subrange(0, i as int));
            assert(upto.last() == supplies@[i as int]);
        }
        match s.power {
            PowerReading::Missing => {},
            p => {
                graph.push((point_label, p));
            },
        }
        proof {
            assert(graph@.len() == power_graph(upto).len());
            assert forall|j: int| 0 <= j < graph@.len() implies (#[trigger] graph@[j]).0@
                == power_graph(upto)[j].0 && graph@[j].1 == power_graph(upto)[j].1 by {
                if j < graph_before.len() {
                    assert(graph@[j] == graph_before[j]);
                }
            }
        }
        i = i + 1;
    }
    proof {
        assert(supplies@.subrange(0, supplies@.len() as int) =~= supplies@);
    }
    PowerReport { subtitle: String::from_str("System power supply telemetry"), rows, graph }
}

} // verus!
