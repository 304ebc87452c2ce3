//! Network monitor state: which interface to report, and the receive and
//! transmit byte counters' changes between samples.

use vstd::prelude::*;

use crate::platform::proc::NetworkCounters;
use crate::telemetry::delta::{delta_sample, previous_record, DeltaSample, DeltaTracker};
use crate::text::{str_equal, str_opt_view};

verus! {

pub open spec fn is_loopback(c: NetworkCounters) -> bool {
    c.interface@ == seq!['l', 'o']
}

pub open spec fn traffic(c: NetworkCounters) -> int {
    c.rx_bytes + c.tx_bytes
}

/// `i` is the first counter named `name`.
pub open spec fn is_first_named(cs: Seq<NetworkCounters>, name: Seq<char>, i: int) -> bool {
    &&& 0 <= i < cs.len()
    &&& cs[i].interface@ == name
    &&& forall|j: int| 0 <= j < i ==> (#[trigger] cs[j]).interface@ != name
}

/// `i` is the last of the non-loopback counters with the most traffic (received plus sent).
pub open spec fn is_busiest(cs: Seq<NetworkCounters>, i: int) -> bool {
    &&& 0 <= i < cs.len()
    &&& !is_loopback(cs[i])
    &&& forall|j: int| 0 <= j < cs.len() && !is_loopback(#[trigger] cs[j]) ==> traffic(cs[j]) <= traffic(cs[i])
    &&& forall|j: int| i < j < cs.len() && !is_loopback(#[trigger] cs[j]) ==> traffic(cs[j]) < traffic(cs[i])
}

/// The first counter named `name`, if any.
pub open spec fn first_named(cs: Seq<NetworkCounters>, name: Seq<char>) -> Option<int> {
    if exists|i: int| #[trigger] is_first_named(cs, name, i) {
        Some(choose|i: int| #[trigger] is_first_named(cs, name, i))
    } else {
        None
    }
}

/// The busiest non-loopback counter; the first counter when all are loopback.
pub open spec fn busiest_or_first(cs: Seq<NetworkCounters>) -> Option<int> {
    if exists|i: int| #[trigger] is_busiest(cs, i) {
        Some(choose|i: int| #[trigger] is_busiest(cs, i))
    } else if cs.len() > 0 {
        Some(0)
    } else {
        None
    }
}

/// The index of the interface to report: the first one with the selected
/// name, and no other when it is missing; without a selection, the busiest
/// non-loopback interface, or the first interface when all are loopback.
pub open spec fn chosen_index(cs: Seq<NetworkCounters>, selected: Option<Seq<char>>) -> Option<int> {
    match selected {
        Some(name) => first_named(cs, name),
        None => busiest_or_first(cs),
    }
}

/// Summing received and sent bytes of every non-loopback counter fits in 64 bits.
pub open spec fn traffic_fits(cs: Seq<NetworkCounters>) -> bool {
    forall|i: int| 0 <= i < cs.len() && !is_loopback(#[trigger] cs[i]) ==> traffic(cs[i]) <= u64::MAX
}

proof fn lemma_first_named_unique(cs: Seq<NetworkCounters>, name: Seq<char>, i: int, k: int)
    requires
        is_first_named(cs, name, i),
        is_first_named(cs, name, k),
    ensures
        i == k,
{
    if i < k {
        assert(cs[i].interface@ != name);
    } else if k < i {
        assert(cs[k].interface@ != name);
    }
}

proof fn lemma_chosen_named(cs: Seq<NetworkCounters>, name: Seq<char>, i: int)
    requires
        is_first_named(cs, name, i),
    ensures
        first_named(cs, name) == Some(i),
{
    let w = first_named(cs, name).unwrap();
    assert(is_first_named(cs, name, w));
    lemma_first_named_unique(cs, name, i, w);
}

proof fn lemma_busiest_unique(cs: Seq<NetworkCounters>, i: int, k: int)
    requires
        is_busiest(cs, i),
        is_busiest(cs, k),
    ensures
        i == k,
{
    if i < k {
        assert(!is_loopback(cs[k]));
    } else if k < i {
        assert(!is_loopback(cs[i]));
    }
}

/// `i` is, among the first `n` counters, a non-loopback one with the most
/// received plus sent bytes, and the last such.
spec fn most_bytes_upto(cs: Seq<NetworkCounters>, n: int, i: int) -> bool {
    &&& 0 <= i < n <= cs.len()
    &&& cs[i].interface@ != seq!['l', 'o']
    &&& forall|j: int|
        0 <= j < n && (#[trigger] cs[j]).interface@ != seq!['l', 'o'] ==> cs[j].rx_bytes
            + cs[j].tx_bytes <= cs[i].rx_bytes + cs[i].tx_bytes
    &&& forall|j: int|
        i < j < n && (#[trigger] cs[j]).interface@ != seq!['l', 'o'] ==> cs[j].rx_bytes
            + cs[j].tx_bytes < cs[i].rx_bytes + cs[i].tx_bytes
}

spec fn scanned(cs: Seq<NetworkCounters>, k: int, best: Option<int>) -> bool {
    match best {
        Some(b) => most_bytes_upto(cs, k, b),
        None => forall|j: int| 0 <= j < k ==> (#[trigger] cs[j]).interface@ == seq!['l', 'o'],
    }
}

/// Scans the counters from `k` on, keeping the busiest non-loopback one.
proof fn busiest_scan(cs: Seq<NetworkCounters>, k: int, best: Option<int>) -> (r: Option<int>)
    requires
        0 <= k <= cs.len(),
        scanned(cs, k, best),
    ensures
        scanned(cs, cs.len() as int, r),
    decreases cs.len() - k,
{
    if k == cs.len() {
        best
    } else {
        let c = cs[k];
        let next = if c.interface@ != seq!['l', 'o'] {
            match best {
                None => Some(k),
                Some(b) => if c.rx_bytes + c.tx_bytes >= cs[b].rx_bytes + cs[b].tx_bytes {
                    Some(k)
                } else {
                    best
                },
            }
        } else {
            best
        };
        assert(scanned(cs, k + 1, next));
        busiest_scan(cs, k + 1, next)
    }
}

proof fn first_named_from(cs: Seq<NetworkCounters>, name: Seq<char>, k: int, j: int) -> (i: int)
    requires
        0 <= k <= j < cs.len(),
        cs[j].interface@ == name,
        forall|m: int| 0 <= m < k ==> (#[trigger] cs[m]).interface@ != name,
    ensures
        is_first_named(cs, name, i),
    decreases j - k,
{
    if cs[k].interface@ == name {
        k
    } else {
        first_named_from(cs, name, k + 1, j)
    }
}

proof fn lemma_chosen_by_name(cs: Seq<NetworkCounters>, name: Seq<char>)
    ensures
        match first_named(cs, name) {
            Some(i) => {
                &&& 0 <= i < cs.len()
                &&& cs[i].interface@ == name
                &&& forall|j: int| 0 <= j < i ==> (#[trigger] cs[j]).interface@ != name
            },
            None => forall|j: int| 0 <= j < cs.len() ==> (#[trigger] cs[j]).interface@ != name,
        },
{
    if exists|i: int| #[trigger] is_first_named(cs, name, i) {
        let w = first_named(cs, name).unwrap();
        assert(is_first_named(cs, name, w));
    } else {
        assert forall|j: int| 0 <= j < cs.len() implies (#[trigger] cs[j]).interface@ != name by {
            if cs[j].interface@ == name {
                let k = first_named_from(cs, name, 0, j);
            }
        }
    }
}

proof fn lemma_chosen_by_bytes(cs: Seq<NetworkCounters>)
    ensures
        (exists|j: int| 0 <= j < cs.len() && (#[trigger] cs[j]).interface@ != seq!['l', 'o'])
            ==> (busiest_or_first(cs) matches Some(i) && most_bytes_upto(cs, cs.len() as int, i)),
        (forall|j: int| 0 <= j < cs.len() ==> (#[trigger] cs[j]).interface@ == seq!['l', 'o'])
            ==> busiest_or_first(cs) == if cs.len() > 0 {
            Some(0int)
        } else {
            None
        },
{
    let r = busiest_scan(cs, 0, None);
    match r {
        Some(b) => {
            assert(is_busiest(cs, b));
            let w = busiest_or_first(cs).unwrap();
            assert(is_busiest(cs, w));
            lemma_busiest_unique(cs, b, w);
        },
        None => {
            assert forall|k: int| !is_busiest(cs, k) by {
                if 0 <= k < cs.len() {
                    assert(cs[k].interface@ == seq!['l', 'o']);
                }
            }
        },
    }
}

/// Which interface a sample reports, over the counters' own fields. With a
/// selected name: the first interface of that name, and none when no
/// interface has it. Without one: when some interface is not loopback
/// (`lo`), a non-loopback interface whose received plus sent bytes are at
/// least those of every other non-loopback interface, the last such on
/// ties; when every interface is loopback, the first; with no interface,
/// none.
pub proof fn law_chosen_interface(cs: Seq<NetworkCounters>, selected: Option<Seq<char>>)
    ensures
        selected matches Some(name) ==> match chosen_index(cs, selected) {
            Some(i) => {
                &&& 0 <= i < cs.len()
                &&& cs[i].interface@ == name
                &&& forall|j: int| 0 <= j < i ==> (#[trigger] cs[j]).interface@ != name
            },
            None => forall|j: int| 0 <= j < cs.len() ==> (#[trigger] cs[j]).interface@ != name,
        },
        selected is None && (exists|j: int|
            0 <= j < cs.len() && (#[trigger] cs[j]).interface@ != seq!['l', 'o']) ==> {
            &&& chosen_index(cs, selected) matches Some(i)
            &&& 0 <= i < cs.len()
            &&& cs[i].interface@ != seq!['l', 'o']
            &&& forall|j: int|
                0 <= j < cs.len() && (#[trigger] cs[j]).interface@ != seq!['l', 'o']
                    ==> cs[j].rx_bytes + cs[j].tx_bytes <= cs[i].rx_bytes + cs[i].tx_bytes
            &&& forall|j: int|
                i < j < cs.len() && (#[trigger] cs[j]).interface@ != seq!['l', 'o']
                    ==> cs[j].rx_bytes + cs[j].tx_bytes < cs[i].rx_bytes + cs[i].tx_bytes
        },
        selected is None && (forall|j: int|
            0 <= j < cs.len() ==> (#[trigger] cs[j]).interface@ == seq!['l', 'o'])
            ==> chosen_index(cs, selected) == if cs.len() > 0 {
            Some(0int)
        } else {
            None
        },
{
    match selected {
        Some(name) => lemma_chosen_by_name(cs, name),
        None => lemma_chosen_by_bytes(cs),
    }
}

fn is_lo(c: &NetworkCounters) -> (r: bool)
    ensures
        r == is_loopback(*c),
{
    let lo = "lo";
    proof {
        reveal_strlit("lo");
        assert(lo@ =~= seq!['l', 'o']);
    }
    str_equal(c.interface.as_str(), lo)
}

/// The counters to report: with a selected interface, its first entry (and
/// nothing when it is absent, with no fallback); otherwise the non-loopback
/// interface with the most received plus sent bytes (the last of equals),
/// or the first entry when every interface is loopback.
pub fn choose_interface<'a>(counters: &'a [NetworkCounters], selected_interface: Option<&str>) -> (r:
    Option<&'a NetworkCounters>)
    requires
        selected_interface is None ==> traffic_fits(counters@),
    ensures
        match chosen_index(counters@, str_opt_view(selected_interface)) {
            Some(i) => r matches Some(c) && *c == counters@[i],
            None => r is None,
        },
{
    let n = counters.len();
    match selected_interface {
        Some(name) => {
            let mut i: usize = 0;
            while i < n
                invariant
                    i <= n == counters@.len(),
                    selected_interface == Some(name),
                    forall|j: int| 0 <= j < i ==> (#[trigger] counters@[j]).interface@ != name@,
                decreases n - i,
            {
                if str_equal(counters[i].interface.as_str(), name) {
                    proof {
                        lemma_chosen_named(counters@, name@, i as int);
                    }
                    return Some(&counters[i]);
                }
                i = i + 1;
            }
            proof {
                assert forall|k: int| !is_first_named(counters@, name@, k) by {
                    if 0 <= k < n {
                        assert(counters@[k].interface@ != name@);
                    }
                }
            }
            None
        },
        None => {
            let mut best: Option<usize> = None;
            let mut i: usize = 0;
            while i < n
                invariant
                    i <= n == counters@.len(),
                    traffic_fits(counters@),
                    match best {
                        Some(b) => {
                            &&& b < i
                            &&& !is_loopback(counters@[b as int])
                            &&& forall|j: int|
                                0 <= j < i && !is_loopback(#[trigger] counters@[j]) ==> traffic(
                                    counters@[j],
                                ) <= traffic(counters@[b as int])
                            &&& forall|j: int|
                                b < j < i && !is_loopback(#[trigger] counters@[j]) ==> traffic(
                                    counters@[j],
                                ) < traffic(counters@[b as int])
                        },
                        None => forall|j: int| 0 <= j < i ==> is_loopback(#[trigger] counters@[j]),
                    },
                decreases n - i,
            {
                if !is_lo(&counters[i]) {
                    let key = counters[i].rx_bytes + counters[i].tx_bytes;
                    match best {
                        None => {
                            best = Some(i);
                        },
                        Some(b) => {
                            if key >= counters[b].rx_bytes + counters[b].tx_bytes {
                                best = Some(i);
                            }
                        },
                    }
                }
                i = i + 1;
            }
            match best {
                Some(b) => {
                    proof {
                        assert(is_busiest(counters@, b as int));
                        let w = busiest_or_first(counters@).unwrap();
                        assert(is_busiest(counters@, w));
                        lemma_busiest_unique(counters@, b as int, w);
                    }
                    Some(&counters[b])
                },
                None => {
                    proof {
                        assert forall|k: int| !is_busiest(counters@, k) by {
                            if 0 <= k < n {
                                assert(is_loopback(counters@[k]));
                            }
                        }
                    }
                    if n > 0 {
                        Some(&counters[0])
                    } else {
                        None
                    }
                },
            }
        },
    }
}

/// What one network sample observed of the reported interface.
#[derive(Debug, Clone, PartialEq, Eq)]
pub struct NetworkObservation {
    pub interface: String,
    pub rx_bytes: u64,
    pub tx_bytes: u64,
    /// Change of the received-bytes counter since the interface's previous sample.
    pub rx: DeltaSample,
    /// Change of the sent-bytes counter since the interface's previous sample.
    pub tx: DeltaSample,
}

/// An observation as plain values: interface, received and sent byte
/// totals, and the change of each counter.
pub open spec fn observation_view(o: Option<NetworkObservation>) -> Option<
    (Seq<char>, u64, u64, DeltaSample, DeltaSample),
> {
    match o {
        Some(o) => Some((o.interface@, o.rx_bytes, o.tx_bytes, o.rx, o.tx)),
        None => None,
    }
}

/// What observing `cs` at `now` reports, given the received-bytes and
/// sent-bytes records before it: the chosen interface's totals, each
/// counter's change measured from the interface's previous record.
pub open spec fn observation(
    rx: Map<Seq<char>, (u64, u64)>,
    tx: Map<Seq<char>, (u64, u64)>,
    selected: Option<Seq<char>>,
    cs: Seq<NetworkCounters>,
    now: u64,
) -> Option<(Seq<char>, u64, u64, DeltaSample, DeltaSample)> {
    match chosen_index(cs, selected) {
        None => None,
        Some(i) => {
            let c = cs[i];
            Some(
                (
                    c.interface@,
                    c.rx_bytes,
                    c.tx_bytes,
                    delta_sample(previous_record(rx, c.interface@), c.rx_bytes, now),
                    delta_sample(previous_record(tx, c.interface@), c.tx_bytes, now),
                ),
            )
        },
    }
}

/// The received-bytes and sent-bytes records after observing `cs` at `now`:
/// the chosen interface's totals recorded at `now`, nothing else changed.
pub open spec fn observed_records(
    rx: Map<Seq<char>, (u64, u64)>,
    tx: Map<Seq<char>, (u64, u64)>,
    selected: Option<Seq<char>>,
    cs: Seq<NetworkCounters>,
    now: u64,
) -> (Map<Seq<char>, (u64, u64)>, Map<Seq<char>, (u64, u64)>) {
    match chosen_index(cs, selected) {
        None => (rx, tx),
        Some(i) => {
            let c = cs[i];
            (rx.insert(c.interface@, (c.rx_bytes, now)), tx.insert(c.interface@, (c.tx_bytes, now)))
        },
    }
}

/// Two observations that report the same interface: the second measures
/// each of its counters from the first one's reading and time, whatever the
/// monitor recorded before.
pub proof fn law_network_rate_between_observations(
    rx: Map<Seq<char>, (u64, u64)>,
    tx: Map<Seq<char>, (u64, u64)>,
    selected: Option<Seq<char>>,
    first: Seq<NetworkCounters>,
    t1: u64,
    second: Seq<NetworkCounters>,
    t2: u64,
)
    requires
        observation(rx, tx, selected, first, t1) is Some,
        observation(
            observed_records(rx, tx, selected, first, t1).0,
            observed_records(rx, tx, selected, first, t1).1,
            selected,
            second,
            t2,
        ) is Some,
        observation(rx, tx, selected, first, t1).unwrap().0 == observation(
            observed_records(rx, tx, selected, first, t1).0,
            observed_records(rx, tx, selected, first, t1).1,
            selected,
            second,
            t2,
        ).unwrap().0,
    ensures
        ({
            let o1 = observation(rx, tx, selected, first, t1).unwrap();
            let after = observed_records(rx, tx, selected, first, t1);
            let o2 = observation(after.0, after.1, selected, second, t2).unwrap();
            &&& o2.3 == delta_sample(Some((o1.1, t1)), o2.1, t2)
            &&& o2.4 == delta_sample(Some((o1.2, t1)), o2.2, t2)
        }),
{
    let o1 = observation(rx, tx, selected, first, t1).unwrap();
    let after = observed_records(rx, tx, selected, first, t1);
    assert(previous_record(after.0, o1.0) == Some((o1.1, t1)));
    assert(previous_record(after.1, o1.0) == Some((o1.2, t1)));
}

pub struct NetworkMonitor {
    selected_interface: Option<String>,
    previous_rx: DeltaTracker<String>,
    previous_tx: DeltaTracker<String>,
}

impl NetworkMonitor {
    /// The interface the monitor follows; `None` picks the busiest each sample.
    pub closed spec fn selected(&self) -> Option<Seq<char>> {
        match self.selected_interface {
            Some(s) => Some(s@),
            None => None,
        }
    }

    /// Last received-bytes record of each interface.
    pub closed spec fn rx_records(&self) -> Map<Seq<char>, (u64, u64)> {
        self.previous_rx@
    }

    /// Last sent-bytes record of each interface.
    pub closed spec fn tx_records(&self) -> Map<Seq<char>, (u64, u64)> {
        self.previous_tx@
    }

    pub fn new(selected_interface: Option<String>) -> (m: Self)
        ensures
            m.selected() == match selected_interface {
                Some(s) => Some(s@),
                None => None::<Seq<char>>,
            },
            m.rx_records() == Map::<Seq<char>, (u64, u64)>::empty(),
            m.tx_records() == Map::<Seq<char>, (u64, u64)>::empty(),
    {
        NetworkMonitor {
            selected_interface,
            previous_rx: DeltaTracker::new(),
            previous_tx: DeltaTracker::new(),
        }
    }

    /// The tab title of this monitor.
    pub fn name(&self) -> (n: &'static str)
        ensures
            n@ == "Network"@,
    {
        "Network"
    }

    /// The interface the monitor follows, if one was selected.
    pub fn selected_interface(&self) -> (s: Option<&str>)
        ensures
            match s {
                Some(x) => self.selected() == Some(x@),
                None => self.selected() is None,
            },
    {
        match &self.selected_interface {
            Some(x) => Some(x.as_str()),
            None => None,
        }
    }

    /// Picks the interface to report among `counters` (read at `now`, in
    /// nanoseconds) and records its byte counters; `None`, with nothing
    /// recorded, when no interface qualifies.
    pub fn observe(&mut self, counters: &[NetworkCounters], now: u64) -> (r: Option<
        NetworkObservation,
    >)
        requires
            old(self).selected() is None ==> traffic_fits(counters@),
        ensures
            final(self).selected() == old(self).selected(),
            observation_view(r) == observation(
                old(self).rx_records(),
                old(self).tx_records(),
                old(self).selected(),
                counters@,
                now,
            ),
            (final(self).rx_records(), final(self).tx_records()) == observed_records(
                old(self).rx_records(),
                old(self).tx_records(),
                old(self).selected(),
                counters@,
                now,
            ),
    {
        let selected: Option<&str> = match &self.selected_interface {
            Some(s) => Some(s.as_str()),
            None => None,
        };
        let current = match choose_interface(counters, selected) {
            Some(c) => c,
            None => return None,
        };
        let interface = current.interface.clone();
        let rx = self.previous_rx.record(interface.clone(), current.rx_bytes, now);
        let tx = self.previous_tx.record(interface.clone(), current.tx_bytes, now);
        Some(
            NetworkObservation {
                interface,
                rx_bytes: current.rx_bytes,
                tx_bytes: current.tx_bytes,
                rx,
                tx,
            },
        )
    }
}

/// What a row of the Network tab shows.
#[derive(Debug, Clone, Copy, PartialEq, Eq, Structural)]
pub enum NetworkValue {
    /// A counter's change since the previous sample, shown in bytes per
    /// second; a first sample, a rollback or no elapsed time shows zero.
    Rate(DeltaSample),
    /// A counter's total.
    Bytes(u64),
    Unavailable,
}

/// The subtitle, rows and graph points of one Network sample, in display
/// order. Each graph point carries a counter's change, plotted as its rate.
#[derive(Debug, Clone)]
pub struct NetworkReport {
    pub subtitle: String,
    pub rows: Vec<(String, NetworkValue)>,
    pub graph: Vec<(String, DeltaSample)>,
}

/// The Network tab's content for what a sample observed: the interface's
/// name, its receive and transmit rates and its byte totals, and an `RX`
/// and a `TX` graph point; without an interface, a notice, unavailable rates
/// and no graph point.
pub fn network_report(observed: Option<NetworkObservation>) -> (r: NetworkReport)
    ensures
        match observed {
            None => {
                &&& r.subtitle@ == "No network interfaces found"@
                &&& r.rows@.len() == 2
                &&& r.rows@[0] matches (label, NetworkValue::Unavailable) && label@ == "Receive"@
                &&& r.rows@[1] matches (label, NetworkValue::Unavailable) && label@ == "Transmit"@
                &&& r.graph@.len() == 0
            },
            Some(o) => {
                &&& r.subtitle@ == o.interface@
                &&& r.rows@.len() == 4
                &&& r.rows@[0].0@ == "Receive"@
                &&& r.rows@[0].1 == NetworkValue::Rate(o.rx)
                &&& r.rows@[1].0@ == "Transmit"@
                &&& r.rows@[1].1 == NetworkValue::Rate(o.tx)
                &&& r.rows@[2].0@ == "Received total"@
                &&& r.rows@[2].1 == NetworkValue::Bytes(o.rx_bytes)
                &&& r.rows@[3].0@ == "Transmitted total"@
                &&& r.rows@[3].1 == NetworkValue::Bytes(o.tx_bytes)
                &&& r.graph@.len() == 2
                &&& r.graph@[0].0@ == "RX"@
                &&& r.graph@[0].1 == o.rx
                &&& r.graph@[1].0@ == "TX"@
                &&& r.graph@[1].1 == o.tx
            },
        },
{
    let mut rows: Vec<(String, NetworkValue)> = Vec::new();
    let mut graph: Vec<(String, DeltaSample)> = Vec::new();
    match observed {
        None => {
            rows.push((String::from_str("Receive"), NetworkValue::Unavailable));
            rows.push((String::from_str("Transmit"), NetworkValue::Unavailable));
            NetworkReport { subtitle: String::from_str("No network interfaces found"), rows, graph }
        },
        Some(o) => {
            rows.push((String::from_str("Receive"), NetworkValue::Rate(o.rx)));
            rows.push((String::from_str("Transmit"), NetworkValue::Rate(o.tx)));
            rows.push((String::from_str("Received total"), NetworkValue::Bytes(o.rx_bytes)));
            rows.push((String::from_str("Transmitted total"), NetworkValue::Bytes(o.tx_bytes)));
            graph.push((String::from_str("RX"), o.rx));
            graph.push((String::from_str("TX"), o.tx));
            NetworkReport { subtitle: o.interface, rows, graph }
        },
    }
}

} // verus!
