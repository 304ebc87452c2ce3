//! sysfs power sources: powercap energy counters (the zone tree walk's
//! decisions) and power-supply readings.

use vstd::prelude::*;
use vstd::multiset::Multiset;
use vstd::string::*;

use crate::text::{parse_trimmed_u64, parse_u64, str_opt_view, string_opt_view, trim, trimmed};

verus! {

#[derive(Debug, Clone, PartialEq)]
pub struct EnergyCounter {
    pub path: String,
    pub name: String,
    pub energy_uj: u64,
}

/// The zone name used when a zone has no readable `name` file.
pub open spec fn default_zone_name() -> Seq<char> {
    seq!['p', 'o', 'w', 'e', 'r', 'c', 'a', 'p']
}

/// The counter a powercap zone directory yields: only when its `energy_uj`
/// file was read and holds a `u64`; named by its trimmed `name` file, or `powercap`.
pub open spec fn spec_energy_counter(
    path: Seq<char>,
    energy_contents: Option<Seq<char>>,
    name_contents: Option<Seq<char>>,
) -> Option<(Seq<char>, Seq<char>, u64)> {
    match energy_contents {
        Some(e) => match parse_u64(trim(e)) {
            Some(energy) => Some(
                (
                    path,
                    trim(
                        match name_contents {
                            Some(n) => n,
                            None => default_zone_name(),
                        },
                    ),
                    energy,
                ),
            ),
            None => None,
        },
        None => None,
    }
}

/// A zone yields a counter exactly when its `energy_uj` file was read and
/// its trimmed text is a `u64`, any `u64`: the counter has the zone's path,
/// that value, and the trimmed `name` file (or `powercap`) as its name.
pub proof fn law_zone_counter_reads_energy(
    path: Seq<char>,
    energy_contents: Option<Seq<char>>,
    name_contents: Option<Seq<char>>,
)
    ensures
        spec_energy_counter(path, energy_contents, name_contents) is Some <==> (
        energy_contents matches Some(e) && parse_u64(trim(e)) is Some),
        energy_contents matches Some(e) ==> (parse_u64(trim(e)) matches Some(v)
            ==> spec_energy_counter(path, energy_contents, name_contents) == Some(
            (
                path,
                trim(
                    match name_contents {
                        Some(n) => n,
                        None => default_zone_name(),
                    },
                ),
                v,
            ),
        )),
{
}

impl View for EnergyCounter {
    type V = (Seq<char>, Seq<char>, u64);

    open spec fn view(&self) -> (Seq<char>, Seq<char>, u64) {
        (self.path@, self.name@, self.energy_uj)
    }
}

/// The counter of the zone directory at `path`, from the contents of its
/// `energy_uj` and `name` files (`None` where a file could not be read).
pub fn energy_counter(path: String, energy_contents: Option<&str>, name_contents: Option<&str>) -> (r:
    Option<EnergyCounter>)
    ensures
        match r {
            Some(c) => spec_energy_counter(path@, str_opt_view(energy_contents), str_opt_view(name_contents))
                == Some(c@),
            None => spec_energy_counter(path@, str_opt_view(energy_contents), str_opt_view(name_contents))
                is None,
        },
        r is Some <==> (energy_contents matches Some(e) && parse_u64(trim(e@)) is Some),
        r matches Some(c) ==> {
            &&& c.path@ == path@
            &&& Some(c.energy_uj) == parse_u64(trim(str_opt_view(energy_contents).unwrap()))
            &&& c.name@ == trim(
                match name_contents {
                    Some(n) => n@,
                    None => default_zone_name(),
                },
            )
        },
{
    let energy = match energy_contents {
        Some(e) => parse_trimmed_u64(e),
        None => None,
    };
    match energy {
        Some(energy_uj) => {
            let name = match name_contents {
                Some(n) => trimmed(n),
                None => {
                    let d = "powercap";
                    proof {
                        reveal_strlit("powercap");
                    }
                    let t = trimmed(d);
                    assert(d@ == default_zone_name());
                    t
                },
            };
            Some(EnergyCounter { path, name, energy_uj })
        },
        None => None,
    }
}

/// One directory entry met while walking a powercap tree.
pub struct ZoneEntry {
    pub path: String,
    /// A directory that is not a symlink.
    pub is_real_dir: bool,
    pub energy_contents: Option<String>,
    pub name_contents: Option<String>,
}

impl View for ZoneEntry {
    type V = (Seq<char>, bool, Option<Seq<char>>, Option<Seq<char>>);

    open spec fn view(&self) -> (Seq<char>, bool, Option<Seq<char>>, Option<Seq<char>>) {
        (
            self.path@,
            self.is_real_dir,
            string_opt_view(self.energy_contents),
            string_opt_view(self.name_contents),
        )
    }
}

/// The counter that visiting entry `e` yields: that of a real directory
/// with a readable energy counter, nothing otherwise.
pub open spec fn entry_counter(e: (Seq<char>, bool, Option<Seq<char>>, Option<Seq<char>>)) -> Seq<
    (Seq<char>, Seq<char>, u64),
> {
    if e.1 {
        match spec_energy_counter(e.0, e.2, e.3) {
            Some(c) => seq![c],
            None => Seq::empty(),
        }
    } else {
        Seq::empty()
    }
}

/// The walk's (pending directories, counters found) after visiting entry
/// `e`: a real directory is queued and yields its counter, if any; anything
/// else leaves the walk as it was.
pub open spec fn visit_step(
    state: (Seq<Seq<char>>, Seq<(Seq<char>, Seq<char>, u64)>),
    e: (Seq<char>, bool, Option<Seq<char>>, Option<Seq<char>>),
) -> (Seq<Seq<char>>, Seq<(Seq<char>, Seq<char>, u64)>) {
    if e.1 {
        (state.0.push(e.0), state.1 + entry_counter(e))
    } else {
        state
    }
}

/// The decisions of a depth-first walk over a powercap tree. The walker pops
/// a directory with `next_dir`, reads its entries and reports each with
/// `visit`; only real directories are descended into, never symlinks, which
/// is what keeps the walk finite on sysfs trees whose `device`/`subsystem`
/// links point back up the tree.
pub struct PowercapWalk {
    pending: Vec<String>,
    counters: Vec<EnergyCounter>,
}

impl PowercapWalk {
    /// Directories still to read, the most recently found last.
    pub closed spec fn pending(&self) -> Seq<Seq<char>> {
        self.pending@.map_values(|p: String| p@)
    }

    /// Counters found so far, in the order they were found.
    pub closed spec fn found(&self) -> Seq<(Seq<char>, Seq<char>, u64)> {
        self.counters@.map_values(|c: EnergyCounter| c@)
    }

    /// A walk from the canonicalized root; `None` (the root could not be
    /// resolved) walks nothing.
    pub fn start(root: Option<String>) -> (walk: Self)
        ensures
            walk.pending() == match root {
                Some(r) => seq![r@],
                None => Seq::<Seq<char>>::empty(),
            },
            walk.found() == Seq::<(Seq<char>, Seq<char>, u64)>::empty(),
    {
        let mut pending: Vec<String> = Vec::new();
        match root {
            Some(r) => pending.push(r),
            None => {},
        }
        let walk = PowercapWalk { pending, counters: Vec::new() };
        assert(walk.pending() =~= match root {
            Some(r) => seq![r@],
            None => Seq::<Seq<char>>::empty(),
        });
        assert(walk.found() =~= Seq::<(Seq<char>, Seq<char>, u64)>::empty());
        walk
    }

    /// The next directory to read: the most recently found one.
    pub fn next_dir(&mut self) -> (dir: Option<String>)
        ensures
            final(self).found() == old(self).found(),
            old(self).pending().len() == 0 ==> dir is None,
            old(self).pending().len() == 0 ==> final(self).pending() == old(self).pending(),
            old(self).pending().len() > 0 ==> (dir matches Some(d) && d@ == old(self).pending().last()),
            old(self).pending().len() > 0 ==> final(self).pending() == old(self).pending().drop_last(),
    {
        let dir = self.pending.pop();
        assert(self.pending() =~= old(self).pending().subrange(0, self.pending@.len() as int));
        dir
    }

    /// Takes note of one entry of the directory being read: a real directory
    /// is queued for reading and, when it holds a readable energy counter,
    /// yields that counter; anything else (files, symlinks) is passed over.
    pub fn visit(&mut self, entry: ZoneEntry)
        ensures
            (final(self).pending(), final(self).found()) == visit_step(
                (old(self).pending(), old(self).found()),
                entry@,
            ),
    {
        if !entry.is_real_dir {
            return;
        }
        let energy_text: Option<&str> = match &entry.energy_contents {
            Some(e) => Some(e.as_str()),
            None => None,
        };
        let name_text: Option<&str> = match &entry.name_contents {
            Some(n) => Some(n.as_str()),
            None => None,
        };
        let counter = energy_counter(entry.path.clone(), energy_text, name_text);
        let ghost old_found = self.found();
        match counter {
            Some(c) => {
                self.counters.push(c);
            },
            None => {},
        }
        self.pending.push(entry.path);
        assert(self.pending() =~= old(self).pending().push(entry.path@));
        assert(self.found() =~= old_found + entry_counter(entry@));
    }

    /// The counters found, in the order they were found.
    pub fn finish(self) -> (counters: Vec<EnergyCounter>)
        ensures
            counters@.map_values(|c: EnergyCounter| c@) == self.found(),
    {
        self.counters
    }
}

/// A powercap tree as a walk meets it: an entry (path, whether it is a real
/// directory, the contents of its `energy_uj` and `name` files) and the
/// entries a read of it lists, in the order listed.
pub struct ZoneTree {
    pub path: Seq<char>,
    pub is_real_dir: bool,
    pub energy: Option<Seq<char>>,
    pub name: Option<Seq<char>>,
    pub children: Seq<ZoneTree>,
}

pub open spec fn tree_entry(t: ZoneTree) -> (Seq<char>, bool, Option<Seq<char>>, Option<Seq<char>>) {
    (t.path, t.is_real_dir, t.energy, t.name)
}

/// The counters of the real directories strictly below `t` that are reached
/// through real directories only: one per such directory with a readable
/// energy counter.
pub open spec fn zone_counters(t: ZoneTree) -> Seq<(Seq<char>, Seq<char>, u64)>
    decreases t,
{
    forest_counters(t.children)
}

/// The counters of the entries `cs` and of what lies below their real directories.
pub open spec fn forest_counters(cs: Seq<ZoneTree>) -> Seq<(Seq<char>, Seq<char>, u64)>
    decreases cs,
{
    if cs.len() == 0 {
        Seq::empty()
    } else {
        let c = cs[0];
        let here = if c.is_real_dir {
            entry_counter(tree_entry(c)) + zone_counters(c)
        } else {
            Seq::empty()
        };
        here + forest_counters(cs.subrange(1, cs.len() as int))
    }
}

/// The walk's state after visiting the entries `es` in order.
pub open spec fn visits(
    state: (Seq<Seq<char>>, Seq<(Seq<char>, Seq<char>, u64)>),
    es: Seq<(Seq<char>, bool, Option<Seq<char>>, Option<Seq<char>>)>,
) -> (Seq<Seq<char>>, Seq<(Seq<char>, Seq<char>, u64)>)
    decreases es.len(),
{
    if es.len() == 0 {
        state
    } else {
        visits(visit_step(state, es[0]), es.drop_first())
    }
}

pub open spec fn tree_entries(cs: Seq<ZoneTree>) -> Seq<
    (Seq<char>, bool, Option<Seq<char>>, Option<Seq<char>>),
> {
    cs.map_values(|c: ZoneTree| tree_entry(c))
}

pub open spec fn tree_paths(ts: Seq<ZoneTree>) -> Seq<Seq<char>> {
    ts.map_values(|t: ZoneTree| t.path)
}

/// The real directories among `cs`, in order.
pub open spec fn real_dirs(cs: Seq<ZoneTree>) -> Seq<ZoneTree>
    decreases cs.len(),
{
    if cs.len() == 0 {
        Seq::empty()
    } else {
        (if cs[0].is_real_dir {
            seq![cs[0]]
        } else {
            Seq::empty()
        }) + real_dirs(cs.drop_first())
    }
}

/// The counters of the entries `cs` themselves.
pub open spec fn entry_counters(cs: Seq<ZoneTree>) -> Seq<(Seq<char>, Seq<char>, u64)>
    decreases cs.len(),
{
    if cs.len() == 0 {
        Seq::empty()
    } else {
        entry_counter(tree_entry(cs[0])) + entry_counters(cs.drop_first())
    }
}

/// The counters still to be found below the pending directories `ts`.
pub open spec fn pending_counters(ts: Seq<ZoneTree>) -> Multiset<(Seq<char>, Seq<char>, u64)>
    decreases ts.len(),
{
    if ts.len() == 0 {
        Multiset::empty()
    } else {
        zone_counters(ts[0]).to_multiset().add(pending_counters(ts.drop_first()))
    }
}

/// What a walk of the tree `root` has in hand: the counters it found and
/// those below its pending directories are, together, exactly the counters
/// below `root`, each as often as it occurs there.
pub open spec fn walk_accounts_for(
    root: ZoneTree,
    pending: Seq<ZoneTree>,
    found: Seq<(Seq<char>, Seq<char>, u64)>,
) -> bool {
    found.to_multiset().add(pending_counters(pending)) == zone_counters(root).to_multiset()
}

proof fn lemma_pending_counters_concat(a: Seq<ZoneTree>, b: Seq<ZoneTree>)
    ensures
        pending_counters(a + b) == pending_counters(a).add(pending_counters(b)),
    decreases a.len(),
{
    broadcast use vstd::multiset::group_multiset_axioms;

    if a.len() == 0 {
        assert(a + b =~= b);
        assert(pending_counters(a).add(pending_counters(b)) =~= pending_counters(b));
    } else {
        assert((a + b)[0] == a[0]);
        assert((a + b).drop_first() =~= a.drop_first() + b);
        lemma_pending_counters_concat(a.drop_first(), b);
        assert(pending_counters(a + b) =~= pending_counters(a).add(pending_counters(b)));
    }
}

/// Visiting the entries of a directory queues its real subdirectories, in
/// order, and yields their counters.
proof fn lemma_visits_children(
    p: Seq<Seq<char>>,
    f: Seq<(Seq<char>, Seq<char>, u64)>,
    cs: Seq<ZoneTree>,
)
    ensures
        visits((p, f), tree_entries(cs)) == (p + tree_paths(real_dirs(cs)), f + entry_counters(cs)),
    decreases cs.len(),
{
    let es = tree_entries(cs);
    if cs.len() == 0 {
        assert(p + tree_paths(real_dirs(cs)) =~= p);
        assert(f + entry_counters(cs) =~= f);
    } else {
        let c = cs[0];
        let rest = cs.drop_first();
        assert(es[0] == tree_entry(c));
        assert(es.drop_first() =~= tree_entries(rest));
        let next = visit_step((p, f), tree_entry(c));
        lemma_visits_children(next.0, next.1, rest);
        if c.is_real_dir {
            assert(real_dirs(cs) == seq![c] + real_dirs(rest));
            assert(tree_paths(seq![c] + real_dirs(rest)) =~= seq![c.path] + tree_paths(real_dirs(rest)));
            assert(p.push(c.path) + tree_paths(real_dirs(rest)) =~= p + tree_paths(real_dirs(cs)));
        } else {
            assert(real_dirs(cs) =~= real_dirs(rest));
            assert(entry_counter(tree_entry(c)) =~= Seq::<(Seq<char>, Seq<char>, u64)>::empty());
        }
        assert(f + entry_counter(tree_entry(c)) + entry_counters(rest) =~= f + entry_counters(cs));
    }
}

/// The counters at and below the entries `cs` are those of the entries
/// themselves and those below their real directories.
proof fn lemma_forest_split(cs: Seq<ZoneTree>)
    ensures
        forest_counters(cs).to_multiset() == entry_counters(cs).to_multiset().add(
            pending_counters(real_dirs(cs)),
        ),
    decreases cs.len(),
{
    broadcast use vstd::multiset::group_multiset_axioms;

    if cs.len() == 0 {
        assert(forest_counters(cs) =~= Seq::<(Seq<char>, Seq<char>, u64)>::empty());
        assert(entry_counters(cs) =~= Seq::<(Seq<char>, Seq<char>, u64)>::empty());
        assert(real_dirs(cs) =~= Seq::<ZoneTree>::empty());
        assert(forest_counters(cs).to_multiset() =~= entry_counters(cs).to_multiset().add(
            pending_counters(real_dirs(cs)),
        ));
    } else {
        let c = cs[0];
        let rest = cs.drop_first();
        assert(cs.subrange(1, cs.len() as int) =~= rest);
        lemma_forest_split(rest);
        let ec = entry_counter(tree_entry(c));
        vstd::seq_lib::lemma_multiset_commutative(ec, entry_counters(rest));
        if c.is_real_dir {
            let here = ec + zone_counters(c);
            vstd::seq_lib::lemma_multiset_commutative(here, forest_counters(rest));
            vstd::seq_lib::lemma_multiset_commutative(ec, zone_counters(c));
            assert(real_dirs(cs) == seq![c] + real_dirs(rest));
            let rd = seq![c] + real_dirs(rest);
            assert(rd[0] == c);
            assert(rd.drop_first() =~= real_dirs(rest));
            assert(forest_counters(cs).to_multiset() =~= entry_counters(cs).to_multiset().add(
                pending_counters(real_dirs(cs)),
            ));
        } else {
            assert(ec =~= Seq::<(Seq<char>, Seq<char>, u64)>::empty());
            assert(real_dirs(cs) =~= real_dirs(rest));
            assert(forest_counters(cs) =~= forest_counters(rest));
            assert(entry_counters(cs) =~= entry_counters(rest));
        }
    }
}

/// A walk of the tree `root` starts out accounting for every counter below
/// it: nothing found yet, `root` pending.
pub proof fn law_walk_start_accounts_for_tree(root: ZoneTree)
    ensures
        walk_accounts_for(root, seq![root], Seq::empty()),
{
    broadcast use vstd::multiset::group_multiset_axioms;
    broadcast use vstd::seq_lib::group_to_multiset_ensures;

    let one = seq![root];
    assert(one[0] == root);
    assert(one.drop_first() =~= Seq::<ZoneTree>::empty());
    assert(pending_counters(one.drop_first()) =~= Multiset::empty());
    assert(pending_counters(one) =~= zone_counters(root).to_multiset());
    assert(Seq::<(Seq<char>, Seq<char>, u64)>::empty().to_multiset() =~= Multiset::empty());
    assert(Seq::<(Seq<char>, Seq<char>, u64)>::empty().to_multiset().add(pending_counters(one))
        =~= zone_counters(root).to_multiset());
}

/// One round of the walk keeps every counter accounted for: `next_dir`
/// takes the last pending directory, and visiting each entry that reading it
/// lists queues its real subdirectories (and nothing else) and finds their
/// counters. The directories pending afterwards are those before, less the
/// one read, plus its real subdirectories in the order listed.
pub proof fn law_walk_round_keeps_counters_accounted(
    root: ZoneTree,
    pending: Seq<ZoneTree>,
    found: Seq<(Seq<char>, Seq<char>, u64)>,
)
    requires
        pending.len() > 0,
        walk_accounts_for(root, pending, found),
    ensures
        ({
            let dir = pending.last();
            let after = visits(
                (tree_paths(pending).drop_last(), found),
                tree_entries(dir.children),
            );
            let pending_after = pending.drop_last() + real_dirs(dir.children);
            &&& after.0 == tree_paths(pending_after)
            &&& walk_accounts_for(root, pending_after, after.1)
        }),
{
    broadcast use vstd::multiset::group_multiset_axioms;

    let dir = pending.last();
    let rest = pending.drop_last();
    let cs = dir.children;
    lemma_visits_children(tree_paths(pending).drop_last(), found, cs);
    assert(tree_paths(pending).drop_last() =~= tree_paths(rest));
    assert(tree_paths(rest) + tree_paths(real_dirs(cs)) =~= tree_paths(rest + real_dirs(cs)));
    assert(pending =~= rest + seq![dir]);
    lemma_pending_counters_concat(rest, seq![dir]);
    lemma_pending_counters_concat(rest, real_dirs(cs));
    let one = seq![dir];
    assert(one[0] == dir);
    assert(one.drop_first() =~= Seq::<ZoneTree>::empty());
    assert(pending_counters(one.drop_first()) =~= Multiset::empty());
    assert(pending_counters(one) =~= zone_counters(dir).to_multiset());
    assert(zone_counters(dir) == forest_counters(cs));
    lemma_forest_split(cs);
    vstd::seq_lib::lemma_multiset_commutative(found, entry_counters(cs));
    let after_found = found + entry_counters(cs);
    assert(after_found.to_multiset().add(pending_counters(rest + real_dirs(cs)))
        =~= found.to_multiset().add(pending_counters(pending)));
}

/// The number of entries in `t`, `t` included.
pub open spec fn tree_size(t: ZoneTree) -> nat
    decreases t,
{
    1 + forest_size(t.children)
}

/// The number of entries in the trees `ts`.
pub open spec fn forest_size(ts: Seq<ZoneTree>) -> nat
    decreases ts,
{
    if ts.len() == 0 {
        0
    } else {
        tree_size(ts[0]) + forest_size(ts.subrange(1, ts.len() as int))
    }
}

proof fn lemma_forest_size_concat(a: Seq<ZoneTree>, b: Seq<ZoneTree>)
    ensures
        forest_size(a + b) == forest_size(a) + forest_size(b),
    decreases a.len(),
{
    if a.len() == 0 {
        assert(a + b =~= b);
    } else {
        assert((a + b)[0] == a[0]);
        assert((a + b).subrange(1, (a + b).len() as int) =~= a.subrange(1, a.len() as int) + b);
        lemma_forest_size_concat(a.subrange(1, a.len() as int), b);
    }
}

proof fn lemma_real_dirs_size(cs: Seq<ZoneTree>)
    ensures
        forest_size(real_dirs(cs)) <= forest_size(cs),
    decreases cs.len(),
{
    if cs.len() > 0 {
        let rest = cs.drop_first();
        assert(cs.subrange(1, cs.len() as int) =~= rest);
        lemma_real_dirs_size(rest);
        let head = if cs[0].is_real_dir {
            seq![cs[0]]
        } else {
            Seq::<ZoneTree>::empty()
        };
        lemma_forest_size_concat(head, real_dirs(rest));
        assert(real_dirs(cs) == head + real_dirs(rest));
        assert(forest_size(cs) == tree_size(cs[0]) + forest_size(rest));
        if cs[0].is_real_dir {
            assert(head[0] == cs[0]);
            assert(head.subrange(1, 1) =~= Seq::<ZoneTree>::empty());
            assert(forest_size(head.subrange(1, 1)) == 0);
            assert(forest_size(head) == tree_size(cs[0]));
        } else {
            assert(forest_size(head) == 0);
        }
    }
}

/// Each round of the walk leaves fewer entries of the tree pending, so a
/// walk of a finite tree ends.
pub proof fn law_walk_round_shrinks_pending(pending: Seq<ZoneTree>)
    requires
        pending.len() > 0,
    ensures
        forest_size(pending.drop_last() + real_dirs(pending.last().children)) < forest_size(
            pending,
        ),
{
    let dir = pending.last();
    let rest = pending.drop_last();
    assert(pending =~= rest + seq![dir]);
    lemma_forest_size_concat(rest, seq![dir]);
    lemma_forest_size_concat(rest, real_dirs(dir.children));
    lemma_real_dirs_size(dir.children);
    let one = seq![dir];
    assert(one[0] == dir);
    assert(one.subrange(1, 1) =~= Seq::<ZoneTree>::empty());
    assert(forest_size(one.subrange(1, 1)) == 0);
    assert(forest_size(one) == tree_size(dir));
}

/// A walk that accounts for every counter below `root` and has nothing left
/// pending has found exactly those counters: each real directory below
/// `root`, reached through real directories, with a readable energy counter,
/// once.
pub proof fn law_walk_end_finds_every_counter_once(
    root: ZoneTree,
    found: Seq<(Seq<char>, Seq<char>, u64)>,
)
    requires
        walk_accounts_for(root, Seq::empty(), found),
    ensures
        found.to_multiset() == zone_counters(root).to_multiset(),
{
    broadcast use vstd::multiset::group_multiset_axioms;

    assert(found.to_multiset().add(pending_counters(Seq::empty())) =~= found.to_multiset());
}

/// The counters a whole walk finds, from `pending` directories and the
/// counters `found` so far: each round reads the last pending directory
/// (`next_dir`) and visits every entry it lists, in order (`visit`), until
/// nothing is pending.
pub open spec fn walk_found(
    pending: Seq<ZoneTree>,
    found: Seq<(Seq<char>, Seq<char>, u64)>,
) -> Seq<(Seq<char>, Seq<char>, u64)>
    decreases forest_size(pending),
{
    if pending.len() == 0 {
        found
    } else {
        let dir = pending.last();
        let after = visits((tree_paths(pending).drop_last(), found), tree_entries(dir.children));
        proof {
            law_walk_round_shrinks_pending(pending);
        }
        walk_found(pending.drop_last() + real_dirs(dir.children), after.1)
    }
}

proof fn lemma_walk_found_accounts(
    root: ZoneTree,
    pending: Seq<ZoneTree>,
    found: Seq<(Seq<char>, Seq<char>, u64)>,
)
    requires
        walk_accounts_for(root, pending, found),
    ensures
        walk_found(pending, found).to_multiset() == zone_counters(root).to_multiset(),
    decreases forest_size(pending),
{
    if pending.len() == 0 {
        law_walk_end_finds_every_counter_once(root, found);
    } else {
        let dir = pending.last();
        let after = visits((tree_paths(pending).drop_last(), found), tree_entries(dir.children));
        law_walk_round_keeps_counters_accounted(root, pending, found);
        law_walk_round_shrinks_pending(pending);
        lemma_walk_found_accounts(root, pending.drop_last() + real_dirs(dir.children), after.1);
    }
}

/// A whole walk of the tree `root`, started from `root` alone with nothing
/// found, finds exactly one counter for each real directory below `root`
/// that is reached through real directories only and has a readable energy
/// counter; symlinked entries are never descended into, and no counter comes
/// twice.
pub proof fn law_walk_finds_every_counter_once(root: ZoneTree)
    ensures
        walk_found(seq![root], Seq::empty()).to_multiset() == zone_counters(root).to_multiset(),
{
    law_walk_start_accounts_for_tree(root);
    lemma_walk_found_accounts(root, seq![root], Seq::empty());
}

/// Where a supply's power reading comes from: `power_now` (microwatts) when
/// readable, otherwise `current_now` (microamps) with `voltage_now`
/// (microvolts) when both are readable.
#[derive(Debug, Clone, Copy, PartialEq, Eq, Structural)]
pub enum PowerReading {
    Direct(u64),
    CurrentAndVoltage(u64, u64),
    Missing,
}

pub fn supply_power_reading(power_now: Option<u64>, current_now: Option<u64>, voltage_now: Option<
    u64,
>) -> (r: PowerReading)
    ensures
        r == match (power_now, current_now, voltage_now) {
            (Some(p), _, _) => PowerReading::Direct(p),
            (None, Some(c), Some(v)) => PowerReading::CurrentAndVoltage(c, v),
            _ => PowerReading::Missing,
        },
{
    match power_now {
        Some(p) => PowerReading::Direct(p),
        None => match (current_now, voltage_now) {
            (Some(c), Some(v)) => PowerReading::CurrentAndVoltage(c, v),
            _ => PowerReading::Missing,
        },
    }
}

pub open spec fn unknown_kind() -> Seq<char> {
    seq!['U', 'n', 'k', 'n', 'o', 'w', 'n']
}

/// A supply's kind: its trimmed `type` file, or `Unknown` when unreadable.
pub fn supply_kind(type_contents: Option<&str>) -> (kind: String)
    ensures
        kind@ == match type_contents {
            Some(t) => trim(t@),
            None => unknown_kind(),
        },
{
    match type_contents {
        Some(t) => trimmed(t),
        None => {
            let u = "Unknown";
            proof {
                reveal_strlit("Unknown");
            }
            String::from_str(u)
        },
    }
}

} // verus!
