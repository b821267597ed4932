//! Turning what the kernel counts into what processes have used.

use std::collections::HashMap;
use std::ops::Add;

use vstd::prelude::*;
use vstd::std_specs::ops::AddSpec;

use crate::cumulate::{
    descends, fresh, get_cumulated, grounded_alike, grounded_means_valued_and_acyclic, has_cycle,
    has_totals, lists, sum_from, total_is_own_plus_children, Forest,
};

verus! {

/// How often the processes are looked at for one measurement.
pub const ROUNDS: u32 = 2;

/// How long to wait between 2 measurements, in milliseconds.
pub const MEASURE_PERIOD: u64 = 100;

/// How much time passes from one measurement to the next, in milliseconds.
pub const UPDATE_INTERVAL: u64 = 1000;

/// What is read about one process.
#[derive(Debug, Clone, Copy)]
pub struct Sample {
    /// The process.
    pub pid: i32,
    /// Its parent.
    pub ppid: i32,
    /// The ticks that the machine had counted when the process was looked at.
    pub ticks: u64,
    /// The ticks that the process has spent in user mode.
    pub utime: u64,
    /// The ticks that the process has spent in kernel mode.
    pub stime: u64,
}

/// What came out of one look at the processes.
#[derive(Debug)]
pub struct Round {
    /// The processes that each process is the parent of.
    pub children: HashMap<i32, Vec<i32>>,
    /// The ticks that each process has used since the previous look at it, and the ticks that the
    /// machine has counted in that time.
    pub spent: HashMap<i32, (u64, u64)>,
}

/// What is known after some processes were looked at.
pub struct Tally {
    /// The machine's ticks and the process's ticks when each process was last looked at.
    pub ticks: Map<i32, (u64, u64)>,
    pub children: Map<i32, Seq<i32>>,
    pub spent: Map<i32, (u64, u64)>,
    /// Whether no counter has overflown or run backwards.
    pub sound: bool,
}

impl Tally {
    /// What is known before any process is looked at in this round.
    pub open spec fn begin(ticks: Map<i32, (u64, u64)>) -> Tally {
        Tally { ticks, children: Map::empty(), spent: Map::empty(), sound: true }
    }

    /// The children of `ppid` that were seen.
    pub open spec fn kids(self, ppid: i32) -> Seq<i32> {
        if self.children.contains_key(ppid) {
            self.children[ppid]
        } else {
            Seq::empty()
        }
    }

    /// Whether the counters in `sample` can follow those that are known.
    pub open spec fn follows(self, sample: Sample) -> bool {
        &&& sample.utime + sample.stime <= u64::MAX
        &&& self.ticks.contains_key(sample.pid) ==> {
            &&& self.ticks[sample.pid].0 <= sample.ticks
            &&& self.ticks[sample.pid].1 <= sample.utime + sample.stime
        }
    }

    /// What is known after one more process was looked at. A process that is seen for the first
    /// time is only remembered.
    pub open spec fn add_sample(self, sample: Sample) -> Tally {
        let used = (sample.utime + sample.stime) as u64;
        if !self.sound || !self.follows(sample) {
            Tally { sound: false, ..self }
        } else if self.ticks.contains_key(sample.pid) {
            let (last_ticks, last_used) = self.ticks[sample.pid];
            Tally {
                ticks: self.ticks.insert(sample.pid, (sample.ticks, used)),
                children: self.children.insert(
                    sample.ppid,
                    self.kids(sample.ppid).push(sample.pid),
                ),
                spent: self.spent.insert(
                    sample.pid,
                    ((used - last_used) as u64, (sample.ticks - last_ticks) as u64),
                ),
                sound: true,
            }
        } else {
            Tally { ticks: self.ticks.insert(sample.pid, (sample.ticks, used)), ..self }
        }
    }
}

/// What is known after a round of looking at processes.
pub open spec fn tally_of(ticks: Map<i32, (u64, u64)>, samples: Seq<Sample>) -> Tally
    decreases samples.len(),
{
    if samples.len() == 0 {
        Tally::begin(ticks)
    } else {
        tally_of(ticks, samples.drop_last()).add_sample(samples.last())
    }
}

/// What lists of children read.
pub open spec fn child_lists(children: Map<i32, Vec<i32>>) -> Map<i32, Seq<i32>> {
    children.map_values(|list: Vec<i32>| list@)
}

impl Round {
    /// The processes with their `loads`, before any total is known.
    pub open spec fn family<V>(self, loads: Map<i32, V>, zero: V) -> Forest<i32, V> {
        Forest { children: self.children@, values: loads, known: Map::empty(), zero }
    }

    /// Whether `pid` and every process below it was measured, and none of them is its own
    /// descendant.
    pub open spec fn rooted(self, pid: i32) -> bool {
        self.family(self.spent@.map_values(|s: (u64, u64)| s.0), 0).grounded(pid)
    }

    /// Whether `loads` is what `load` makes of what each process has spent.
    pub open spec fn loaded<V, F: Fn(u64, u64) -> V>(self, load: F, loads: Map<i32, V>) -> bool {
        &&& loads.dom() == self.spent@.dom()
        &&& forall|pid: i32| #[trigger]
            loads.contains_key(pid) ==> call_ensures(load, self.spent@[pid], loads[pid])
    }

    /// Whether every total of such `loads` can be computed: whether no addition is out of range.
    pub open spec fn in_range<V: Add<V, Output = V>>(self, loads: Map<i32, V>, zero: V) -> bool {
        forall|pid: i32| #[trigger]
            self.spent@.contains_key(pid) && self.rooted(pid) ==> self.family(loads, zero).summable(
                pid,
            )
    }

    /// Whether there is anything to publish.
    pub fn publishable(&self) -> (publishable: bool)
        ensures
            publishable == (self.spent@ != Map::<i32, (u64, u64)>::empty()),
    {
        let empty: bool = self.spent.is_empty();
        proof {
            if empty {
                assert(self.spent@ =~= Map::<i32, (u64, u64)>::empty());
            }
        }
        !empty
    }

    /// The load of each process: what `load` makes of the ticks that it has used and of those that
    /// the machine has counted in that time.
    pub fn loads<V, F>(&self, load: F) -> (loads: HashMap<i32, V>) where F: Fn(u64, u64) -> V
        requires
            forall|pid: i32| #[trigger]
                self.spent@.contains_key(pid) ==> call_requires(load, self.spent@[pid]),
        ensures
            self.loaded(load, loads@),
    {
        let mut loads: HashMap<i32, V> = HashMap::new();
        for pid in it: self.spent.keys()
            invariant
                forall|pid: i32| #[trigger]
                    self.spent@.contains_key(pid) ==> call_requires(load, self.spent@[pid]),
                it.seq().unref().to_set() == self.spent@.dom(),
                forall|pid: i32| #[trigger]
                    loads@.contains_key(pid) ==> self.spent@.contains_key(pid) && call_ensures(
                        load,
                        self.spent@[pid],
                        loads@[pid],
                    ),
                forall|i: int|
                    0 <= i < it.index() ==> loads@.contains_key(*#[trigger] it.seq()[i]),
        {
            proof {
                assert(it.seq().unref()[it.index() as int] == *pid);
                assert(it.seq().unref().to_set().contains(*pid));
            }
            let (used, passed): (u64, u64) = *self.spent.get(pid).unwrap();
            loads.insert(*pid, load(used, passed));
        }
        proof {
            assert forall|pid: i32| #[trigger] self.spent@.contains_key(
                pid,
            ) implies loads@.contains_key(pid) by {
            }
            assert(loads@.dom() =~= self.spent@.dom());
        }
        loads
    }

    /// What to publish: the total of each process, which is its own load, as `load` makes it of what
    /// it has spent, plus the totals of its children.
    ///
    /// There is nothing to publish where no process was measured, nor where some process below a
    /// measured one was not measured or is its own descendant.
    pub fn totals<V, F>(&self, load: F, zero: V) -> (totals: Option<HashMap<i32, V>>) where
        V: Copy + Add<V, Output = V>,
        F: Fn(u64, u64) -> V,

        requires
            V::obeys_add_spec(),
            forall|pid: i32| #[trigger]
                self.spent@.contains_key(pid) ==> call_requires(load, self.spent@[pid]),
            forall|loads: Map<i32, V>| #[trigger]
                self.loaded(load, loads) ==> self.in_range(loads, zero),
        ensures
            totals is None <==> {
                ||| self.spent@ == Map::<i32, (u64, u64)>::empty()
                ||| exists|pid: i32| #[trigger] self.spent@.contains_key(pid) && !self.rooted(pid)
            },
            totals matches Some(t) ==> exists|loads: Map<i32, V>|
                {
                    &&& #[trigger] self.loaded(load, loads)
                    &&& t@ == Map::new(
                        |pid: i32| self.spent@.contains_key(pid),
                        |pid: i32| self.family(loads, zero).total(pid),
                    )
                    &&& forall|pid: i32| #[trigger]
                        t@.contains_key(pid) ==> t@[pid] == loads[pid].add_spec(
                            sum_from(
                                zero,
                                self.family(loads, zero).kids(pid).map_values(|kid: i32| t@[kid]),
                            ),
                        )
                },
    {
        if !self.publishable() {
            return None;
        }
        let loads: HashMap<i32, V> = self.loads(load);
        let ghost family = self.family(loads@, zero);
        let ghost used = self.family(self.spent@.map_values(|s: (u64, u64)| s.0), 0);
        proof {
            assert(family == fresh(self.children, loads, zero));
            assert(used.values.dom() =~= self.spent@.dom());
            assert(used.known.dom() =~= family.known.dom());
            assert forall|pid: i32| family.grounded(pid) == #[trigger] self.rooted(pid) by {
                grounded_alike(family, used, pid);
            }
            assert forall|pid: i32| #[trigger] loads@.contains_key(pid)
                == self.spent@.contains_key(pid) by {
                assert(loads@.dom().contains(pid) == self.spent@.dom().contains(pid));
            }
        }
        if !has_totals(&self.children, &loads, zero) {
            return None;
        }
        assert(forall|pid: i32| #[trigger] self.spent@.contains_key(pid) ==> self.rooted(pid));
        let totals: HashMap<i32, V> = get_cumulated(&self.children, &loads, zero);
        proof {
            assert(totals@ =~= Map::new(
                |pid: i32| self.spent@.contains_key(pid),
                |pid: i32| family.total(pid),
            ));
            assert forall|pid: i32| #[trigger] totals@.contains_key(pid) implies totals@[pid]
                == loads@[pid].add_spec(
                sum_from(zero, family.kids(pid).map_values(|kid: i32| totals@[kid])),
            ) by {
                assert(self.spent@.contains_key(pid));
                total_is_own_plus_children(family, pid);
                let depth = choose|depth: nat| family.summable_within(depth, pid);
                assert forall|i: int| 0 <= i < family.kids(pid).len() implies totals@.contains_key(
                    #[trigger] family.kids(pid)[i],
                ) by {
                    assert(family.summable_within((depth - 1) as nat, family.kids(pid)[i]));
                }
                assert(family.kids(pid).map_values(|kid: i32| totals@[kid])
                    =~= family.kids(pid).map_values(|kid: i32| family.total(kid)));
            }
        }
        Some(totals)
    }
}

/// A measurement under way.
#[derive(Debug)]
pub struct Measurement {
    ticks: HashMap<i32, (u64, u64)>,
    rounds: u32,
}

impl Measurement {
    /// The machine's ticks and the process's ticks when each process was last looked at.
    pub closed spec fn ticks(self) -> Map<i32, (u64, u64)> {
        self.ticks@
    }

    /// How many rounds have been taken.
    pub closed spec fn rounds(self) -> nat {
        self.rounds as nat
    }

    /// A measurement that has not looked at any process.
    pub fn new() -> (measurement: Measurement)
        ensures
            measurement.ticks() == Map::<i32, (u64, u64)>::empty(),
            measurement.rounds() == 0,
    {
        Measurement { ticks: HashMap::new(), rounds: 0 }
    }

    /// Whether all rounds have been taken.
    pub fn is_complete(&self) -> (complete: bool)
        ensures
            complete == (self.rounds() >= ROUNDS),
    {
        self.rounds >= ROUNDS
    }

    /// Takes one round, in which the processes were found as `samples` say. Nothing comes out
    /// where a counter has overflown or run backwards; then what was looked at after that is
    /// not remembered.
    pub fn take_round(&mut self, samples: &Vec<Sample>) -> (round: Option<Round>)
        requires
            old(self).rounds() < ROUNDS,
        ensures
            final(self).rounds() == old(self).rounds() + 1,
            final(self).ticks() == tally_of(old(self).ticks(), samples@).ticks,
            match round {
                Some(r) => {
                    &&& tally_of(old(self).ticks(), samples@).sound
                    &&& child_lists(r.children@) == tally_of(old(self).ticks(), samples@).children
                    &&& r.spent@ == tally_of(old(self).ticks(), samples@).spent
                },
                None => !tally_of(old(self).ticks(), samples@).sound,
            },
    {
        self.rounds = self.rounds + 1;
        let ghost start = old(self).ticks();
        let mut children: HashMap<i32, Vec<i32>> = HashMap::new();
        let mut spent: HashMap<i32, (u64, u64)> = HashMap::new();
        assert(child_lists(children@) =~= Map::<i32, Seq<i32>>::empty());
        assert(samples@.take(0) =~= Seq::<Sample>::empty());
        let mut sound: bool = true;
        let mut i: usize = 0;
        while i < samples.len() && sound
            invariant
                i <= samples.len(),
                self.rounds() == old(self).rounds() + 1,
                sound == tally_of(start, samples@.take(i as int)).sound,
                self.ticks() == tally_of(start, samples@.take(i as int)).ticks,
                child_lists(children@) == tally_of(start, samples@.take(i as int)).children,
                spent@ == tally_of(start, samples@.take(i as int)).spent,
                start == old(self).ticks(),
            decreases samples.len() - i,
        {
            let sample: Sample = samples[i];
            let ghost tally = tally_of(start, samples@.take(i as int));
            assert(samples@.take(i + 1).drop_last() =~= samples@.take(i as int));
            let used: Option<u64> = sample.utime.checked_add(sample.stime);
            let last: Option<(u64, u64)> = match self.ticks.get(&sample.pid) {
                Some(last) => Some(*last),
                None => None,
            };
            match (used, last) {
                (Some(used), None) => {
                    self.ticks.insert(sample.pid, (sample.ticks, used));
                },
                (Some(used), Some((last_ticks, last_used))) if last_ticks <= sample.ticks
                    && last_used <= used => {
                    self.ticks.insert(sample.pid, (sample.ticks, used));
                    let mut list: Vec<i32> = match children.remove(&sample.ppid) {
                        Some(list) => list,
                        None => Vec::new(),
                    };
                    assert(list@ == tally.kids(sample.ppid));
                    list.push(sample.pid);
                    children.insert(sample.ppid, list);
                    spent.insert(sample.pid, (used - last_used, sample.ticks - last_ticks));
                    assert(child_lists(children@) =~= tally.add_sample(sample).children);
                },
                _ => {
                    sound = false;
                },
            }
            i = i + 1;
        }
        if sound {
            assert(samples@.take(i as int) =~= samples@);
            Some(Round { children, spent })
        } else {
            proof {
                lemma_unsound_stays(start, samples@, i as int);
            }
            None
        }
    }
}

proof fn lemma_unsound_stays(start: Map<i32, (u64, u64)>, samples: Seq<Sample>, n: int)
    requires
        0 <= n <= samples.len(),
        !tally_of(start, samples.take(n)).sound,
    ensures
        tally_of(start, samples) == tally_of(start, samples.take(n)),
    decreases samples.len() - n,
{
    if n < samples.len() {
        assert(samples.take(n + 1).drop_last() =~= samples.take(n));
        lemma_unsound_stays(start, samples, n + 1);
    } else {
        assert(samples.take(n) =~= samples);
    }
}

/// The ticks that the machine has counted, as an average over its processors: those spent in user
/// mode, in kernel mode and idle. Nothing comes out where there is no processor or where the
/// counters add up to more than fits.
pub fn get_cur_ticks(user: u64, system: u64, idle: u64, cpus: u64) -> (ticks: Option<u64>)
    ensures
        match ticks {
            Some(t) => cpus > 0 && user + system + idle <= u64::MAX && t == (user + system + idle)
                / (cpus as int),
            None => cpus == 0 || user + system + idle > u64::MAX,
        },
{
    if cpus == 0 {
        return None;
    }
    match user.checked_add(system) {
        Some(busy) => match busy.checked_add(idle) {
            Some(all) => Some(all / cpus),
            None => None,
        },
        None => None,
    }
}

/// Every process that is listed as a child has used some ticks or none, and every process of which
/// that is known is listed as a child of some process: no child is without a value.
pub proof fn children_are_measured(start: Map<i32, (u64, u64)>, samples: Seq<Sample>, pid: i32)
    ensures
        tally_of(start, samples).spent.contains_key(pid) <==> exists|ppid: i32| #[trigger]
            tally_of(start, samples).kids(ppid).contains(pid),
    decreases samples.len(),
{
    if samples.len() > 0 {
        let before = tally_of(start, samples.drop_last());
        let sample = samples.last();
        let after = tally_of(start, samples);
        children_are_measured(start, samples.drop_last(), pid);
        if before.sound && before.follows(sample) && before.ticks.contains_key(sample.pid) {
            let list = before.kids(sample.ppid);
            assert(after.kids(sample.ppid) == list.push(sample.pid));
            assert(list.push(sample.pid)[list.len() as int] == sample.pid);
            assert(after.kids(sample.ppid).contains(sample.pid));
            assert forall|ppid: i32| #[trigger] before.kids(ppid).contains(pid) implies after.kids(
                ppid,
            ).contains(pid) by {
                if ppid == sample.ppid {
                    let i = list.index_of(pid);
                    assert(list.push(sample.pid)[i] == pid);
                }
            }
            if pid != sample.pid {
                assert forall|ppid: i32| #[trigger]
                    after.kids(ppid).contains(pid) implies before.kids(ppid).contains(pid) by {
                    let i = after.kids(ppid).index_of(pid);
                    assert(after.kids(ppid)[i] == pid);
                    if ppid == sample.ppid {
                        assert(list[i] == pid);
                    }
                }
            }
        } else {
            assert forall|ppid: i32|
                #![trigger before.kids(ppid)]
                #![trigger after.kids(ppid)]
                before.kids(ppid) == after.kids(ppid) by {}
        }
    }
}

/// In a round that sees no process twice, every process is listed once at most, as a child of one
/// process at most.
pub proof fn children_are_listed_once(
    start: Map<i32, (u64, u64)>,
    samples: Seq<Sample>,
    p: i32,
    i: int,
    q: i32,
    j: int,
)
    requires
        forall|k: int, l: int|
            0 <= k < l < samples.len() ==> #[trigger] samples[k].pid != #[trigger] samples[l].pid,
        0 <= i < tally_of(start, samples).kids(p).len(),
        0 <= j < tally_of(start, samples).kids(q).len(),
        tally_of(start, samples).kids(p)[i] == tally_of(start, samples).kids(q)[j],
    ensures
        p == q && i == j,
    decreases samples.len(),
{
    if samples.len() > 0 {
        let before = tally_of(start, samples.drop_last());
        let after = tally_of(start, samples);
        let sample = samples.last();
        let old_p = i < before.kids(p).len() && after.kids(p)[i] == before.kids(p)[i];
        let old_q = j < before.kids(q).len() && after.kids(q)[j] == before.kids(q)[j];
        if old_p && old_q {
            children_are_listed_once(start, samples.drop_last(), p, i, q, j);
        } else if old_p || old_q {
            assert(after.kids(p)[i] == sample.pid);
            if old_p {
                lemma_child_was_seen(start, samples.drop_last(), p, i);
            } else {
                lemma_child_was_seen(start, samples.drop_last(), q, j);
            }
            let k = choose|k: int|
                0 <= k < samples.len() - 1 && #[trigger] samples.drop_last()[k].pid == sample.pid;
            assert(samples[k].pid != samples[samples.len() - 1].pid);
        }
    }
}

proof fn lemma_child_was_seen(
    start: Map<i32, (u64, u64)>,
    samples: Seq<Sample>,
    p: i32,
    i: int,
)
    requires
        0 <= i < tally_of(start, samples).kids(p).len(),
    ensures
        exists|k: int|
            0 <= k < samples.len() && #[trigger] samples[k].pid == tally_of(start, samples).kids(
                p,
            )[i],
    decreases samples.len(),
{
    if samples.len() > 0 {
        let before = tally_of(start, samples.drop_last());
        if i < before.kids(p).len() {
            lemma_child_was_seen(start, samples.drop_last(), p, i);
            let k = choose|k: int|
                0 <= k < samples.len() - 1 && #[trigger] samples.drop_last()[k].pid == before.kids(
                    p,
                )[i];
            assert(samples[k].pid == before.kids(p)[i]);
        } else {
            assert(samples[samples.len() - 1].pid == tally_of(start, samples).kids(p)[i]);
        }
    }
}

/// A process counts from the second look at it on: in a round that starts with nothing known and
/// sees no process twice, nothing is found out.
pub proof fn first_look_finds_nothing(samples: Seq<Sample>)
    requires
        forall|i: int, j: int|
            0 <= i < j < samples.len() ==> #[trigger] samples[i].pid != #[trigger] samples[j].pid,
    ensures
        tally_of(Map::empty(), samples).spent == Map::<i32, (u64, u64)>::empty(),
        tally_of(Map::empty(), samples).children == Map::<i32, Seq<i32>>::empty(),
        forall|pid: i32| #[trigger]
            tally_of(Map::empty(), samples).ticks.contains_key(pid) ==> exists|i: int|
                0 <= i < samples.len() && #[trigger] samples[i].pid == pid,
    decreases samples.len(),
{
    if samples.len() > 0 {
        let before = samples.drop_last();
        first_look_finds_nothing(before);
        assert forall|pid: i32| #[trigger]
            tally_of(Map::empty(), samples).ticks.contains_key(pid) implies exists|i: int|
            0 <= i < samples.len() && #[trigger] samples[i].pid == pid by {
            if pid == samples.last().pid {
                assert(samples[samples.len() - 1].pid == pid);
            } else {
                let i = choose|i: int| 0 <= i < before.len() && #[trigger] before[i].pid == pid;
                assert(samples[i].pid == pid);
            }
        }
    }
}

/// What a sound round remembers of a process is what the last sample of it says.
pub proof fn last_sample_is_remembered(
    start: Map<i32, (u64, u64)>,
    samples: Seq<Sample>,
    i: int,
)
    requires
        tally_of(start, samples).sound,
        0 <= i < samples.len(),
        forall|j: int| i < j < samples.len() ==> #[trigger] samples[j].pid != samples[i].pid,
    ensures
        tally_of(start, samples).ticks.contains_key(samples[i].pid),
        tally_of(start, samples).ticks[samples[i].pid] == (
            samples[i].ticks,
            (samples[i].utime + samples[i].stime) as u64,
        ),
    decreases samples.len(),
{
    let before = samples.drop_last();
    if i < samples.len() - 1 {
        assert(samples[samples.len() - 1].pid != samples[i].pid);
        assert(before[i] == samples[i]);
        assert forall|j: int| i < j < before.len() implies #[trigger] before[j].pid
            != before[i].pid by {
            assert(samples[j].pid != samples[i].pid);
        }
        last_sample_is_remembered(start, before, i);
    }
}

/// Whether the process in the sample at `i` is in no other sample.
pub open spec fn seen_once(samples: Seq<Sample>, i: int) -> bool {
    forall|j: int|
        0 <= j < samples.len() && j != i ==> #[trigger] samples[j].pid != samples[i].pid
}

proof fn lemma_unseen(start: Map<i32, (u64, u64)>, samples: Seq<Sample>, pid: i32)
    requires
        forall|j: int| 0 <= j < samples.len() ==> #[trigger] samples[j].pid != pid,
    ensures
        ({
            let tally = tally_of(start, samples);
            &&& tally.ticks.contains_key(pid) == start.contains_key(pid)
            &&& tally.ticks.contains_key(pid) ==> tally.ticks[pid] == start[pid]
            &&& !tally.spent.contains_key(pid)
            &&& forall|p: i32| !(#[trigger] tally.kids(p)).contains(pid)
        }),
    decreases samples.len(),
{
    if samples.len() > 0 {
        let before = samples.drop_last();
        let tally = tally_of(start, samples);
        assert(samples[samples.len() - 1].pid != pid);
        assert forall|j: int| 0 <= j < before.len() implies #[trigger] before[j].pid != pid by {
            assert(samples[j].pid != pid);
        }
        lemma_unseen(start, before, pid);
        assert forall|p: i32| !(#[trigger] tally.kids(p)).contains(pid) by {
            let old_kids = tally_of(start, before).kids(p);
            if tally.kids(p).contains(pid) {
                let k = tally.kids(p).index_of(pid);
                assert(tally.kids(p)[k] == pid);
                assert(k < old_kids.len() && old_kids[k] == pid);
                assert(old_kids.contains(pid));
            }
        }
    } else {
        assert forall|p: i32| !(#[trigger] tally_of(start, samples).kids(p)).contains(pid) by {}
    }
}

proof fn lemma_seen_once(start: Map<i32, (u64, u64)>, samples: Seq<Sample>, i: int)
    requires
        tally_of(start, samples).sound,
        0 <= i < samples.len(),
        seen_once(samples, i),
    ensures
        ({
            let tally = tally_of(start, samples);
            let sample = samples[i];
            let known = start.contains_key(sample.pid);
            &&& sample.utime + sample.stime <= u64::MAX
            &&& tally.ticks.contains_key(sample.pid)
            &&& tally.ticks[sample.pid] == (sample.ticks, (sample.utime + sample.stime) as u64)
            &&& tally.spent.contains_key(sample.pid) == known
            &&& known ==> {
                &&& start[sample.pid].0 <= sample.ticks
                &&& start[sample.pid].1 <= sample.utime + sample.stime
                &&& tally.spent[sample.pid].0 == sample.utime + sample.stime - start[sample.pid].1
                &&& tally.spent[sample.pid].1 == sample.ticks - start[sample.pid].0
            }
            &&& forall|p: i32|
                (#[trigger] tally.kids(p)).contains(sample.pid) <==> known && p == sample.ppid
        }),
    decreases samples.len(),
{
    let before = samples.drop_last();
    let last = samples.last();
    let sample = samples[i];
    let was = tally_of(start, before);
    let tally = tally_of(start, samples);
    if i == samples.len() - 1 {
        assert forall|j: int| 0 <= j < before.len() implies #[trigger] before[j].pid
            != sample.pid by {
            assert(samples[j].pid != samples[i].pid);
        }
        lemma_unseen(start, before, sample.pid);
        assert forall|p: i32| (#[trigger] tally.kids(p)).contains(sample.pid)
            <==> start.contains_key(sample.pid) && p == sample.ppid by {
            assert(!was.kids(p).contains(sample.pid));
            if start.contains_key(sample.pid) && p == sample.ppid {
                assert(tally.kids(p)[was.kids(p).len() as int] == sample.pid);
            }
        }
    } else {
        assert(before[i] == sample);
        assert(samples[samples.len() - 1].pid != samples[i].pid);
        assert forall|j: int| 0 <= j < before.len() && j != i implies #[trigger] before[j].pid
            != before[i].pid by {
            assert(samples[j].pid != samples[i].pid);
        }
        lemma_seen_once(start, before, i);
        assert forall|p: i32| (#[trigger] tally.kids(p)).contains(sample.pid)
            <==> start.contains_key(sample.pid) && p == sample.ppid by {
            let old_kids = was.kids(p);
            let kids = tally.kids(p);
            if old_kids.contains(sample.pid) {
                let k = old_kids.index_of(sample.pid);
                assert(kids[k] == sample.pid);
            }
            if kids.contains(sample.pid) {
                let k = kids.index_of(sample.pid);
                assert(kids[k] == sample.pid);
                assert(k < old_kids.len() && old_kids[k] == sample.pid);
            }
        }
    }
}

/// What a process has used between two rounds that saw it once each is the difference of its
/// counters, and what the machine has counted in that time is the difference of the machine's;
/// neither bounds the other.
pub proof fn usage_is_the_difference(
    start: Map<i32, (u64, u64)>,
    first: Seq<Sample>,
    second: Seq<Sample>,
    i: int,
    j: int,
)
    requires
        tally_of(start, first).sound,
        tally_of(tally_of(start, first).ticks, second).sound,
        0 <= i < first.len(),
        0 <= j < second.len(),
        seen_once(first, i),
        seen_once(second, j),
        first[i].pid == second[j].pid,
    ensures
        ({
            let spent = tally_of(tally_of(start, first).ticks, second).spent;
            let (a, b) = (first[i], second[j]);
            &&& spent.contains_key(b.pid)
            &&& spent[b.pid].0 == (b.utime + b.stime) - (a.utime + a.stime)
            &&& spent[b.pid].1 == b.ticks - a.ticks
        }),
{
    lemma_seen_once(start, first, i);
    lemma_seen_once(tally_of(start, first).ticks, second, j);
}

/// A process that was looked at before and is seen once is a child of the parent that its sample
/// names, and of no other; one that is seen for the first time is nobody's child yet, and nothing is
/// known of what it has used.
pub proof fn process_is_its_parents_child(
    start: Map<i32, (u64, u64)>,
    samples: Seq<Sample>,
    i: int,
    p: i32,
)
    requires
        tally_of(start, samples).sound,
        0 <= i < samples.len(),
        seen_once(samples, i),
    ensures
        tally_of(start, samples).kids(p).contains(samples[i].pid) <==> start.contains_key(
            samples[i].pid,
        ) && p == samples[i].ppid,
        tally_of(start, samples).spent.contains_key(samples[i].pid) <==> start.contains_key(
            samples[i].pid,
        ),
{
    lemma_seen_once(start, samples, i);
    assert(tally_of(start, samples).kids(p).contains(samples[i].pid) <==> start.contains_key(
        samples[i].pid,
    ) && p == samples[i].ppid);
}

/// A process that is not seen has used nothing, is nobody's child, and is remembered as it was.
pub proof fn unseen_process_is_left_alone(
    start: Map<i32, (u64, u64)>,
    samples: Seq<Sample>,
    pid: i32,
    p: i32,
)
    requires
        forall|j: int| 0 <= j < samples.len() ==> #[trigger] samples[j].pid != pid,
    ensures
        !tally_of(start, samples).spent.contains_key(pid),
        !tally_of(start, samples).kids(p).contains(pid),
        tally_of(start, samples).ticks.contains_key(pid) <==> start.contains_key(pid),
        start.contains_key(pid) ==> tally_of(start, samples).ticks[pid] == start[pid],
{
    lemma_unseen(start, samples, pid);
    assert(!tally_of(start, samples).kids(p).contains(pid));
}

/// A round that sees no process twice is sound if and only if each process's counters add up to
/// what fits, and none of them, nor the machine's, is behind what it was when the process was last
/// looked at.
pub proof fn sound_rounds_count_upwards(start: Map<i32, (u64, u64)>, samples: Seq<Sample>)
    requires
        forall|i: int, j: int|
            0 <= i < j < samples.len() ==> #[trigger] samples[i].pid != #[trigger] samples[j].pid,
    ensures
        tally_of(start, samples).sound <==> forall|i: int|
            0 <= i < samples.len() ==> {
                let sample = #[trigger] samples[i];
                &&& sample.utime + sample.stime <= u64::MAX
                &&& start.contains_key(sample.pid) ==> start[sample.pid].0 <= sample.ticks
                    && start[sample.pid].1 <= sample.utime + sample.stime
            },
    decreases samples.len(),
{
    if tally_of(start, samples).sound {
        assert forall|i: int| 0 <= i < samples.len() implies {
            let sample = #[trigger] samples[i];
            &&& sample.utime + sample.stime <= u64::MAX
            &&& start.contains_key(sample.pid) ==> start[sample.pid].0 <= sample.ticks
                && start[sample.pid].1 <= sample.utime + sample.stime
        } by {
            assert(seen_once(samples, i)) by {
                assert forall|j: int| 0 <= j < samples.len() && j != i implies #[trigger] samples[j].pid
                    != samples[i].pid by {
                    if j < i {
                        assert(samples[j].pid != samples[i].pid);
                    } else {
                        assert(samples[i].pid != samples[j].pid);
                    }
                }
            }
            lemma_seen_once(start, samples, i);
        }
    }
    if samples.len() > 0 {
        let before = samples.drop_last();
        assert forall|i: int, j: int| 0 <= i < j < before.len() implies #[trigger] before[i].pid
            != #[trigger] before[j].pid by {
            assert(samples[i].pid != samples[j].pid);
        }
        sound_rounds_count_upwards(start, before);
        assert forall|j: int| 0 <= j < before.len() implies #[trigger] before[j].pid
            != samples.last().pid by {
            assert(samples[j].pid != samples[samples.len() - 1].pid);
        }
        lemma_unseen(start, before, samples.last().pid);
        assert(samples[samples.len() - 1] == samples.last());
        if forall|i: int|
            0 <= i < samples.len() ==> {
                let sample = #[trigger] samples[i];
                &&& sample.utime + sample.stime <= u64::MAX
                &&& start.contains_key(sample.pid) ==> start[sample.pid].0 <= sample.ticks
                    && start[sample.pid].1 <= sample.utime + sample.stime
            } {
            assert forall|i: int| 0 <= i < before.len() implies {
                let sample = #[trigger] before[i];
                &&& sample.utime + sample.stime <= u64::MAX
                &&& start.contains_key(sample.pid) ==> start[sample.pid].0 <= sample.ticks
                    && start[sample.pid].1 <= sample.utime + sample.stime
            } by {
                assert(samples[i] == before[i]);
            }
        }
    }
}

/// Children of one process are listed in the order in which they were seen.
pub proof fn children_keep_their_order(
    start: Map<i32, (u64, u64)>,
    samples: Seq<Sample>,
    i: int,
    j: int,
)
    requires
        tally_of(start, samples).sound,
        0 <= i < j < samples.len(),
        seen_once(samples, i),
        seen_once(samples, j),
        samples[i].ppid == samples[j].ppid,
        start.contains_key(samples[i].pid),
        start.contains_key(samples[j].pid),
    ensures
        ({
            let kids = tally_of(start, samples).kids(samples[i].ppid);
            exists|a: int, b: int|
                0 <= a < b < kids.len() && #[trigger] kids[a] == samples[i].pid
                    && #[trigger] kids[b] == samples[j].pid
        }),
    decreases samples.len(),
{
    let before = samples.drop_last();
    let p = samples[i].ppid;
    let was = tally_of(start, before).kids(p);
    let kids = tally_of(start, samples).kids(p);
    assert(before[i] == samples[i]);
    assert forall|k: int| 0 <= k < before.len() && k != i implies #[trigger] before[k].pid
        != before[i].pid by {
        assert(samples[k].pid != samples[i].pid);
    }
    if j == samples.len() - 1 {
        lemma_seen_once(start, before, i);
        assert(was.contains(samples[i].pid));
        let a = was.index_of(samples[i].pid);
        assert forall|k: int| 0 <= k < before.len() implies #[trigger] before[k].pid
            != samples[j].pid by {
            assert(samples[k].pid != samples[j].pid);
        }
        lemma_unseen(start, before, samples[j].pid);
        assert(kids == was.push(samples[j].pid));
        assert(kids[a] == samples[i].pid && kids[was.len() as int] == samples[j].pid);
    } else {
        assert(before[j] == samples[j]);
        assert forall|k: int| 0 <= k < before.len() && k != j implies #[trigger] before[k].pid
            != before[j].pid by {
            assert(samples[k].pid != samples[j].pid);
        }
        children_keep_their_order(start, before, i, j);
        let (a, b) = choose|a: int, b: int|
            0 <= a < b < was.len() && #[trigger] was[a] == samples[i].pid && #[trigger] was[b]
                == samples[j].pid;
        assert(kids[a] == samples[i].pid && kids[b] == samples[j].pid);
    }
}

/// There are totals to publish for a process if and only if it and all its descendants were measured
/// and none of them is its own descendant.
pub proof fn rooted_means_measured_and_acyclic(round: Round, pid: i32)
    requires
        round.spent@.dom().finite(),
    ensures
        round.rooted(pid) <==> {
            &&& forall|id: i32| #[trigger]
                descends(round.children@, pid, id) ==> round.spent@.contains_key(id)
            &&& !has_cycle(round.children@, pid)
        },
{
    let used = round.family(round.spent@.map_values(|s: (u64, u64)| s.0), 0);
    assert(used.values.dom() =~= round.spent@.dom());
    grounded_means_valued_and_acyclic(used, pid);
    assert forall|id: i32| used.values.contains_key(id) == #[trigger] round.spent@.contains_key(
        id,
    ) by {}
}

/// Each load is made of what its own process has used and of what the machine has counted in that
/// time, and every process that was measured has one.
pub proof fn loads_are_their_processes<V, F: Fn(u64, u64) -> V>(
    round: Round,
    load: F,
    loads: Map<i32, V>,
    pid: i32,
    used: u64,
    passed: u64,
)
    requires
        round.loaded(load, loads),
        round.spent@.contains_key(pid),
        round.spent@[pid] == (used, passed),
    ensures
        loads.contains_key(pid),
        call_ensures(load, (used, passed), loads[pid]),
{
    assert(loads.dom().contains(pid));
}

/// The lists of children that come out of a round are those that were gathered, each under its own
/// parent: who is listed under whom is what the samples say.
pub proof fn round_lists_what_was_seen(
    start: Map<i32, (u64, u64)>,
    samples: Seq<Sample>,
    round: Round,
    i: int,
    p: i32,
)
    requires
        tally_of(start, samples).sound,
        child_lists(round.children@) == tally_of(start, samples).children,
        0 <= i < samples.len(),
        seen_once(samples, i),
    ensures
        lists(round.children@, p, samples[i].pid) <==> start.contains_key(samples[i].pid) && p
            == samples[i].ppid,
        round.children@.contains_key(p) ==> round.children@[p]@ == tally_of(start, samples).kids(p),
{
    process_is_its_parents_child(start, samples, i, p);
    assert(child_lists(round.children@).contains_key(p) <==> round.children@.contains_key(p));
    if round.children@.contains_key(p) {
        assert(child_lists(round.children@)[p] == round.children@[p]@);
    }
}

proof fn lemma_unseen_after(start: Map<i32, (u64, u64)>, samples: Seq<Sample>, n: int, pid: i32)
    requires
        0 <= n <= samples.len(),
        forall|j: int| n <= j < samples.len() ==> #[trigger] samples[j].pid != pid,
    ensures
        ({
            let then = tally_of(start, samples.take(n));
            let now = tally_of(start, samples);
            &&& now.sound ==> then.sound
            &&& now.spent.contains_key(pid) == then.spent.contains_key(pid)
            &&& now.spent.contains_key(pid) ==> now.spent[pid] == then.spent[pid]
        }),
    decreases samples.len() - n,
{
    if n < samples.len() {
        assert(samples.take(n + 1).drop_last() =~= samples.take(n));
        assert(samples.take(n + 1).last() == samples[n]);
        lemma_unseen_after(start, samples, n + 1, pid);
    } else {
        assert(samples.take(n) =~= samples);
    }
}

/// Where a process is seen several times in one round, what it has used is counted from the look at
/// it before the last one.
pub proof fn usage_counts_from_the_look_before(
    start: Map<i32, (u64, u64)>,
    samples: Seq<Sample>,
    i: int,
    j: int,
)
    requires
        tally_of(start, samples).sound,
        0 <= i < j < samples.len(),
        samples[i].pid == samples[j].pid,
        forall|k: int|
            i < k < samples.len() && k != j ==> #[trigger] samples[k].pid != samples[j].pid,
    ensures
        ({
            let spent = tally_of(start, samples).spent;
            let (a, b) = (samples[i], samples[j]);
            &&& spent.contains_key(b.pid)
            &&& spent[b.pid].0 == (b.utime + b.stime) - (a.utime + a.stime)
            &&& spent[b.pid].1 == b.ticks - a.ticks
        }),
{
    let pid = samples[j].pid;
    let before = samples.take(j);
    let with = samples.take(j + 1);
    assert forall|k: int| j + 1 <= k < samples.len() implies #[trigger] samples[k].pid != pid by {}
    lemma_unseen_after(start, samples, j + 1, pid);
    assert(with.drop_last() =~= before);
    assert(with.last() == samples[j]);
    assert(tally_of(start, before).sound);
    assert(before[i] == samples[i]);
    assert forall|k: int| i < k < before.len() implies #[trigger] before[k].pid
        != before[i].pid by {
        assert(samples[k].pid != samples[j].pid);
    }
    last_sample_is_remembered(start, before, i);
    lemma_fits(start, before, i);
}

proof fn lemma_fits(start: Map<i32, (u64, u64)>, samples: Seq<Sample>, i: int)
    requires
        tally_of(start, samples).sound,
        0 <= i < samples.len(),
    ensures
        samples[i].utime + samples[i].stime <= u64::MAX,
    decreases samples.len(),
{
    if i < samples.len() - 1 {
        assert(samples.drop_last()[i] == samples[i]);
        lemma_fits(start, samples.drop_last(), i);
    }
}

} // verus!
