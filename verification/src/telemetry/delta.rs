//! Delta-over-elapsed tracking shared by the rate-based monitors (network
//! byte counters, powercap energy counters). Timestamps are monotonic
//! nanosecond readings; callers interpret `DeltaSample::First`/`Invalid`
//! differently (zero rate for network, skipped accumulation for power).

use vstd::prelude::*;

use crate::text::str_equal;

verus! {

/// Keys that a tracker can tell apart by their view.
pub trait DeltaKey: View + Sized {
    fn same_key(&self, other: &Self) -> (r: bool)
        ensures
            r == (self@ == other@),
    ;
}

impl DeltaKey for String {
    fn same_key(&self, other: &Self) -> (r: bool) {
        *self == *other
    }
}

impl DeltaKey for i32 {
    fn same_key(&self, other: &Self) -> (r: bool) {
        *self == *other
    }
}

impl<'a> DeltaKey for &'a str {
    fn same_key(&self, other: &Self) -> (r: bool) {
        str_equal(*self, *other)
    }
}

#[derive(Debug, Clone, Copy, PartialEq, Eq, Structural)]
pub enum DeltaSample {
    /// No previous record for this key.
    First,
    /// No time elapsed since the previous record, or the counter rolled back.
    Invalid,
    /// Counter increase (value minus previous value) and elapsed nanoseconds.
    Changed(u64, u64),
}

/// What recording `value` at `now` yields, given the key's previous record.
pub open spec fn delta_sample(previous: Option<(u64, u64)>, value: u64, now: u64) -> DeltaSample {
    match previous {
        None => DeltaSample::First,
        Some((previous_value, previous_time)) => if now <= previous_time {
            DeltaSample::Invalid
        } else if value < previous_value {
            DeltaSample::Invalid
        } else {
            DeltaSample::Changed((value - previous_value) as u64, (now - previous_time) as u64)
        },
    }
}

/// The record that `m` holds for `k`, if any.
pub open spec fn previous_record<V>(m: Map<V, (u64, u64)>, k: V) -> Option<(u64, u64)> {
    if m.contains_key(k) {
        Some(m[k])
    } else {
        None
    }
}

/// The last recorded (value, timestamp) of each key.
///
/// The records are a list of entries with pairwise distinct keys rather than
/// a `HashMap`: vstd specifies `HashMap` lookups and inserts only for key
/// types that satisfy `obeys_key_model`, which vstd establishes for the
/// primitive integer types, `bool` and their boxes, and leaves unproved for
/// any other key type. The trackers here are keyed by interface names and
/// counter paths (`String`), and this crate takes nothing on trust, so a
/// keyed map would have given no provable result. A tracker holds a handful
/// of entries (one per interface or powercap zone), so the linear lookup
/// costs nothing that matters.
pub struct DeltaTracker<K: View> {
    entries: Vec<(K, u64, u64)>,
}

pub open spec fn keys_distinct<K: View>(s: Seq<(K, u64, u64)>) -> bool {
    forall|i: int, j: int| 0 <= i < j < s.len() ==> (#[trigger] s[i]).0@ != (#[trigger] s[j]).0@
}

pub open spec fn entries_map<K: View>(s: Seq<(K, u64, u64)>) -> Map<K::V, (u64, u64)>
    decreases s.len(),
{
    if s.len() == 0 {
        Map::empty()
    } else {
        entries_map(s.drop_last()).insert(s.last().0@, (s.last().1, s.last().2))
    }
}

proof fn lemma_entries_map_lookup<K: View>(s: Seq<(K, u64, u64)>)
    requires
        keys_distinct(s),
    ensures
        forall|k: K::V|
            #[trigger] entries_map(s).contains_key(k) <==> exists|i: int|
                0 <= i < s.len() && (#[trigger] s[i]).0@ == k,
        forall|i: int|
            0 <= i < s.len() ==> #[trigger] entries_map(s)[s[i].0@] == (s[i].1, s[i].2),
    decreases s.len(),
{
    if s.len() > 0 {
        let d = s.drop_last();
        assert(keys_distinct(d)) by {
            assert forall|i: int, j: int| 0 <= i < j < d.len() implies (#[trigger] d[i]).0@ != (
            #[trigger] d[j]).0@ by {
                assert(d[i] == s[i] && d[j] == s[j]);
            }
        }
        lemma_entries_map_lookup(d);
        assert forall|k: K::V| #[trigger] entries_map(s).contains_key(k) <==> exists|i: int|
            0 <= i < s.len() && (#[trigger] s[i]).0@ == k by {
            let last = s.len() - 1;
            if k == s[last].0@ {
                assert(entries_map(s).contains_key(k));
            } else {
                if entries_map(s).contains_key(k) {
                    assert(entries_map(d).contains_key(k));
                    let i = choose|i: int| 0 <= i < d.len() && (#[trigger] d[i]).0@ == k;
                    assert(s[i] == d[i]);
                }
                if exists|i: int| 0 <= i < s.len() && (#[trigger] s[i]).0@ == k {
                    let i = choose|i: int| 0 <= i < s.len() && (#[trigger] s[i]).0@ == k;
                    assert(i < last);
                    assert(d[i] == s[i]);
                    assert(entries_map(d).contains_key(k));
                }
            }
        }
        assert forall|i: int| 0 <= i < s.len() implies #[trigger] entries_map(s)[s[i].0@] == (
        s[i].1, s[i].2) by {
            if i < s.len() - 1 {
                assert(d[i] == s[i]);
                assert(s[i].0@ != s[s.len() - 1].0@);
                assert(entries_map(d)[d[i].0@] == (d[i].1, d[i].2));
            }
        }
    }
}

proof fn lemma_entries_map_update<K: View>(s: Seq<(K, u64, u64)>, i: int, e: (K, u64, u64))
    requires
        keys_distinct(s),
        0 <= i < s.len(),
        e.0@ == s[i].0@,
    ensures
        entries_map(s.update(i, e)) == entries_map(s).insert(e.0@, (e.1, e.2)),
    decreases s.len(),
{
    let u = s.update(i, e);
    let d = s.drop_last();
    if i == s.len() - 1 {
        assert(u.drop_last() =~= d);
        assert(entries_map(u) =~= entries_map(s).insert(e.0@, (e.1, e.2)));
    } else {
        assert(keys_distinct(d)) by {
            assert forall|a: int, b: int| 0 <= a < b < d.len() implies (#[trigger] d[a]).0@ != (
            #[trigger] d[b]).0@ by {
                assert(d[a] == s[a] && d[b] == s[b]);
            }
        }
        assert(u.drop_last() =~= d.update(i, e));
        lemma_entries_map_update(d, i, e);
        assert(s[i].0@ != s.last().0@);
        assert(entries_map(u) =~= entries_map(s).insert(e.0@, (e.1, e.2)));
    }
}

impl<K: View> View for DeltaTracker<K> {
    type V = Map<K::V, (u64, u64)>;

    closed spec fn view(&self) -> Map<K::V, (u64, u64)> {
        entries_map(self.entries@)
    }
}

impl<K: View> DeltaTracker<K> {
    #[verifier::type_invariant]
    spec fn keys_are_distinct(self) -> bool {
        keys_distinct(self.entries@)
    }
}

impl<K: DeltaKey> DeltaTracker<K> {
    pub fn new() -> (tracker: Self)
        ensures
            tracker@ == Map::<K::V, (u64, u64)>::empty(),
    {
        DeltaTracker { entries: Vec::new() }
    }

    /// Stores `(value, now)` as the key's latest record, whatever the outcome,
    /// and reports the change since the previous record.
    pub fn record(&mut self, key: K, value: u64, now: u64) -> (r: DeltaSample)
        ensures
            r == delta_sample(previous_record(old(self)@, key@), value, now),
            final(self)@ == old(self)@.insert(key@, (value, now)),
    {
        proof {
            use_type_invariant(&*self);
        }
        let mut entries: Vec<(K, u64, u64)> = Vec::new();
        std::mem::swap(&mut entries, &mut self.entries);
        let ghost old_entries = entries@;
        assert(old(self)@ == entries_map(old_entries));
        let n = entries.len();
        let mut i: usize = 0;
        while i < n
            invariant
                i <= n == entries.len(),
                entries@ == old_entries,
                old(self)@ == entries_map(old_entries),
                keys_distinct(old_entries),
                forall|j: int| 0 <= j < i ==> (#[trigger] old_entries[j]).0@ != key@,
            decreases n - i,
        {
            if entries[i].0.same_key(&key) {
                let previous_value = entries[i].1;
                let previous_time = entries[i].2;
                proof {
                    lemma_entries_map_lookup(old_entries);
                    assert(entries_map(old_entries)[old_entries[i as int].0@] == (
                        previous_value,
                        previous_time,
                    ));
                    assert(entries_map(old_entries).contains_key(key@));
                    lemma_entries_map_update(old_entries, i as int, (key, value, now));
                }
                entries.set(i, (key, value, now));
                proof {
                    assert forall|a: int, b: int|
                        0 <= a < b < entries@.len() implies (#[trigger] entries@[a]).0@ != (
                    #[trigger] entries@[b]).0@ by {
                        assert(old_entries[a].0@ == entries@[a].0@);
                        assert(old_entries[b].0@ == entries@[b].0@);
                    }
                }
                self.entries = entries;
                if now <= previous_time || value < previous_value {
                    return DeltaSample::Invalid;
                }
                return DeltaSample::Changed(value - previous_value, now - previous_time);
            }
            i = i + 1;
        }
        proof {
            lemma_entries_map_lookup(old_entries);
            assert(!entries_map(old_entries).contains_key(key@));
        }
        entries.push((key, value, now));
        proof {
            assert(entries@.drop_last() =~= old_entries);
            assert forall|a: int, b: int|
                0 <= a < b < entries@.len() implies (#[trigger] entries@[a]).0@ != (
            #[trigger] entries@[b]).0@ by {
                assert(entries@[a] == old_entries[a]);
                if b < n {
                    assert(entries@[b] == old_entries[b]);
                }
            }
        }
        self.entries = entries;
        DeltaSample::First
    }
}

impl<K: DeltaKey> Default for DeltaTracker<K> {
    fn default() -> (tracker: Self)
        ensures
            tracker@ == Map::<K::V, (u64, u64)>::empty(),
    {
        Self::new()
    }
}

/// Recording one key never changes what a later record of another key reports.
pub proof fn law_keys_are_independent<V>(
    m: Map<V, (u64, u64)>,
    a: V,
    value_a: u64,
    now_a: u64,
    b: V,
    value_b: u64,
    now_b: u64,
)
    requires
        a != b,
    ensures
        delta_sample(previous_record(m.insert(a, (value_a, now_a)), b), value_b, now_b)
            == delta_sample(previous_record(m, b), value_b, now_b),
{
}

/// A record, whatever it reported (a rollback included), is what the next
/// record of the same key is measured against.
pub proof fn law_next_record_measures_from_latest<V>(
    m: Map<V, (u64, u64)>,
    k: V,
    value: u64,
    now: u64,
    next_value: u64,
    next_now: u64,
)
    ensures
        delta_sample(previous_record(m.insert(k, (value, now)), k), next_value, next_now) == if next_now
            <= now || next_value < value {
            DeltaSample::Invalid
        } else {
            DeltaSample::Changed((next_value - value) as u64, (next_now - now) as u64)
        },
{
}

/// A reported change is never negative and always spans elapsed time.
pub proof fn law_changed_is_monotonic(previous: Option<(u64, u64)>, value: u64, now: u64)
    ensures
        delta_sample(previous, value, now) matches DeltaSample::Changed(delta, elapsed) ==> {
            &&& previous matches Some((pv, pt))
            &&& pv <= value && delta == value - pv
            &&& pt < now && elapsed == now - pt
        },
{
}

} // verus!
