//! Named stopwatches that add up how long each named piece of work took and how often.
use vstd::prelude::*;

use std::time::Instant;

use crate::clock::{MAX_DURATION_NANOS, duration_nanos, instant_elapsed, instant_now};

verus! {

/// The total time measured under one name, and the number of measurements.
#[derive(Clone, Copy, Debug)]
struct Entry {
    total_nanos: u128,
    entries: u32,
}

/// Running stopwatches and the totals recorded so far, by name.
pub struct EcsDebugTimer {
    entries: Vec<(String, Entry)>,
    running_timers: Vec<(String, Instant)>,
}

/// The names in a list of named values.
pub open spec fn names<V>(list: Seq<(String, V)>) -> Seq<Seq<char>> {
    list.map_values(|p: (String, V)| p.0@)
}


/// The value listed under `n` in a list of named values (its first entry under that name).
pub open spec fn named_value<V>(list: Seq<(String, V)>, n: Seq<char>) -> V {
    list[names(list).index_of(n)].1
}

/// Replacing an entry by one of the same name changes no other name's value.
proof fn lemma_named_set<V>(list: Seq<(String, V)>, i: int, x: (String, V), n: Seq<char>)
    requires
        names(list).no_duplicates(),
        0 <= i < list.len(),
        x.0@ == list[i].0@,
        n != x.0@,
        names(list).contains(n),
    ensures
        names(list.update(i, x)).contains(n),
        named_value(list.update(i, x), n) == named_value(list, n),
{
    let new = list.update(i, x);
    assert(names(new) =~= names(list));
    let j = choose|j: int| 0 <= j < names(list).len() && names(list)[j] == n;
    lemma_index_of_unique(names(list), j);
    assert(j != i);
}

/// Appending an entry under a new name changes no other name's value, and lists the new one.
proof fn lemma_named_push<V>(list: Seq<(String, V)>, x: (String, V), n: Seq<char>)
    requires
        names(list).no_duplicates(),
        !names(list).contains(x.0@),
        names(list).contains(n) || n == x.0@,
    ensures
        names(list.push(x)).no_duplicates(),
        names(list.push(x)).contains(n),
        named_value(list.push(x), n) == if n == x.0@ { x.1 } else { named_value(list, n) },
{
    let new = list.push(x);
    assert(names(new) =~= names(list).push(x.0@));
    assert forall|a: int, b: int| 0 <= a < names(new).len() && 0 <= b < names(new).len() && a != b implies names(
        new,
    )[a] != names(new)[b] by {
        if a == list.len() {
            assert(names(list).contains(names(list)[b]));
        } else if b == list.len() {
            assert(names(list).contains(names(list)[a]));
        }
    }
    if n == x.0@ {
        assert(names(new)[list.len() as int] == n);
        lemma_index_of_unique(names(new), list.len() as int);
    } else {
        let j = choose|j: int| 0 <= j < names(list).len() && names(list)[j] == n;
        lemma_index_of_unique(names(list), j);
        assert(names(new)[j] == n);
        lemma_index_of_unique(names(new), j);
    }
}

/// Removing one entry changes no other name's value.
proof fn lemma_named_remove<V>(list: Seq<(String, V)>, i: int, n: Seq<char>)
    requires
        names(list).no_duplicates(),
        0 <= i < list.len(),
        n != list[i].0@,
        names(list).contains(n),
    ensures
        names(list.remove(i)).contains(n),
        named_value(list.remove(i), n) == named_value(list, n),
{
    let new = list.remove(i);
    assert(names(new) =~= names(list).remove(i));
    lemma_remove_to_set(names(list), i);
    let j = choose|j: int| 0 <= j < names(list).len() && names(list)[j] == n;
    lemma_index_of_unique(names(list), j);
    assert(j != i);
    let k = if j < i { j } else { j - 1 };
    assert(names(new)[k] == n);
    lemma_index_of_unique(names(new), k);
}

/// In a list without repeats, an element's position is the one it is found at.
proof fn lemma_index_of_unique<A>(s: Seq<A>, i: int)
    requires
        s.no_duplicates(),
        0 <= i < s.len(),
    ensures
        s.index_of(s[i]) == i,
{
    assert(s.contains(s[i]));
    let k = s.index_of(s[i]);
    assert(s[k] == s[i]);
}

/// Removing an element from a list without repeats removes it from the list's set.
proof fn lemma_remove_to_set<A>(s: Seq<A>, i: int)
    requires
        s.no_duplicates(),
        0 <= i < s.len(),
    ensures
        s.remove(i).no_duplicates(),
        s.remove(i).to_set() == s.to_set().remove(s[i]),
{
    let r = s.remove(i);
    assert forall|a: int, b: int| 0 <= a < r.len() && 0 <= b < r.len() && a != b implies r[a] != r[b] by {
        let a2 = if a < i { a } else { a + 1 };
        let b2 = if b < i { b } else { b + 1 };
        assert(r[a] == s[a2]);
        assert(r[b] == s[b2]);
    }
    assert forall|x: A| r.to_set().contains(x) <==> s.to_set().remove(s[i]).contains(x) by {
        if r.contains(x) {
            let a = choose|a: int| 0 <= a < r.len() && r[a] == x;
            let a2 = if a < i { a } else { a + 1 };
            assert(s[a2] == x);
            assert(a2 != i);
        }
        if s.contains(x) && x != s[i] {
            let a = choose|a: int| 0 <= a < s.len() && s[a] == x;
            if a < i {
                assert(r[a] == x);
            } else {
                assert(a != i);
                assert(r[a - 1] == x);
            }
        }
    }
    assert(r.to_set() =~= s.to_set().remove(s[i]));
}

/// A stopwatch just started is running and can be stopped; starting it recorded nothing.
pub proof fn lemma_started_can_stop(before: EcsDebugTimer, started: EcsDebugTimer, name: Seq<char>)
    requires
        started.running() == before.running().insert(name),
        started.recorded() == before.recorded(),
    ensures
        started.running().contains(name),
        started.totals_of(name) == before.totals_of(name),
{
}

impl EcsDebugTimer {
    /// Names are listed once each, and every recorded name has at least one measurement
    /// of at most `MAX_DURATION_NANOS` each.
    pub closed spec fn wf(&self) -> bool {
        &&& names(self.entries@).no_duplicates()
        &&& names(self.running_timers@).no_duplicates()
        &&& forall|i: int|
            0 <= i < self.entries@.len() ==> {
                let e = #[trigger] self.entries@[i].1;
                &&& e.entries >= 1
                &&& e.total_nanos <= e.entries * MAX_DURATION_NANOS
            }
    }

    /// The names of the stopwatches that are running.
    pub closed spec fn running(&self) -> Set<Seq<char>> {
        names(self.running_timers@).to_set()
    }

    /// The running stopwatches are those that have a start instant.
    pub proof fn lemma_running_started(&self)
        ensures
            self.running() == self.started_at().dom(),
    {
        assert(self.running() =~= self.started_at().dom());
    }

    /// For each recorded name, the total nanoseconds measured and the number of measurements.
    pub closed spec fn recorded(&self) -> Map<Seq<char>, (int, int)> {
        Map::new(
            |n: Seq<char>| names(self.entries@).contains(n),
            |n: Seq<char>|
                {
                    let i = names(self.entries@).index_of(n);
                    (self.entries@[i].1.total_nanos as int, self.entries@[i].1.entries as int)
                },
        )
    }

    /// For each running stopwatch's name, the instant it was started at.
    pub closed spec fn started_at(&self) -> Map<Seq<char>, Instant> {
        Map::new(
            |n: Seq<char>| names(self.running_timers@).contains(n),
            |n: Seq<char>| named_value(self.running_timers@, n),
        )
    }

    /// The totals for `name`, (0, 0) where nothing is recorded under it.
    pub open spec fn totals_of(&self, name: Seq<char>) -> (int, int) {
        if self.recorded().contains_key(name) {
            self.recorded()[name]
        } else {
            (0, 0)
        }
    }

    /// No stopwatch running, nothing recorded.
    pub fn new() -> (r: Self)
        ensures
            r.wf(),
            r.running() == Set::<Seq<char>>::empty(),
            r.recorded() == Map::<Seq<char>, (int, int)>::empty(),
    {
        let r = EcsDebugTimer { entries: Vec::new(), running_timers: Vec::new() };
        proof {
            assert(names(r.running_timers@) =~= Seq::<Seq<char>>::empty());
            assert(names(r.entries@) =~= Seq::<Seq<char>>::empty());
            assert(r.running() =~= Set::<Seq<char>>::empty());
            assert(r.recorded() =~= Map::<Seq<char>, (int, int)>::empty());
        }
        r
    }

    /// The position of `name` in a list of named values, if it is there.
    fn find<V>(list: &Vec<(String, V)>, name: &String) -> (r: Option<usize>)
        ensures
            match r {
                Some(i) => i < list@.len() && list@[i as int].0@ == name@,
                None => !names(list@).contains(name@),
            },
    {
        let mut i: usize = 0;
        while i < list.len()
            invariant
                i <= list@.len(),
                forall|j: int| 0 <= j < i ==> list@[j].0@ != name@,
            decreases list@.len() - i,
        {
            if list[i].0 == *name {
                return Some(i);
            }
            i = i + 1;
        }
        proof {
            if names(list@).contains(name@) {
                let j = choose|j: int| 0 <= j < names(list@).len() && names(list@)[j] == name@;
                assert(list@[j].0@ == name@);
            }
        }
        None
    }

    /// Starts (or restarts) the stopwatch `name` from now; the other stopwatches keep running
    /// from their starts, and nothing recorded changes.
    pub fn start_timer(&mut self, name: String)
        requires
            old(self).wf(),
        ensures
            final(self).wf(),
            final(self).running() == old(self).running().insert(name@),
            final(self).started_at().dom() == old(self).started_at().dom().insert(name@),
            forall|n: Seq<char>|
                n != name@ && #[trigger] old(self).started_at().contains_key(n) ==> final(self).started_at()[n] == old(self).started_at()[n],
            final(self).recorded() == old(self).recorded(),
    {
        let timer = instant_now();
        let ghost old_list = self.running_timers@;
        let ghost old_names = names(self.running_timers@);
        match Self::find(&self.running_timers, &name) {
            Some(i) => {
                self.running_timers.set(i, (name, timer));
                proof {
                    assert(names(self.running_timers@) =~= old_names);
                    assert(old_names[i as int] == name@);
                    assert(self.running() =~= old(self).running().insert(name@));
                    assert forall|n: Seq<char>| n != name@ && #[trigger] old_names.contains(n) implies named_value(
                        self.running_timers@,
                        n,
                    ) == named_value(old_list, n) by {
                        lemma_named_set(old_list, i as int, self.running_timers@[i as int], n);
                    }
                    assert(old_names.contains(old_names[i as int]));
                    assert(self.started_at().dom() =~= old(self).started_at().dom().insert(name@));
                }
            },
            None => {
                self.running_timers.push((name, timer));
                proof {
                    assert(names(self.running_timers@) =~= old_names.push(name@));
                    old_names.lemma_push_to_set_commute(name@);
                    assert(self.running() =~= old(self).running().insert(name@));
                    assert forall|n: Seq<char>| #[trigger] old_names.contains(n) implies named_value(
                        self.running_timers@,
                        n,
                    ) == named_value(old_list, n) by {
                        lemma_named_push(old_list, self.running_timers@.last(), n);
                    }
                    lemma_named_push(old_list, self.running_timers@.last(), name@);
                    assert(self.started_at().dom() =~= old(self).started_at().dom().insert(name@));
                }
            },
        }
    }

    /// Whether the stopwatch `name` is running and another measurement can be counted under it.
    pub fn can_stop(&self, name: &String) -> (r: bool)
        requires
            self.wf(),
        ensures
            r == (self.running().contains(name@) && self.totals_of(name@).1 < u32::MAX),
    {
        let running = match Self::find(&self.running_timers, name) {
            Some(_) => true,
            None => false,
        };
        proof {
            if running {
                let i = choose|i: int| 0 <= i < self.running_timers@.len() && self.running_timers@[i].0@
                    == name@;
                assert(names(self.running_timers@)[i] == name@);
                assert(names(self.running_timers@).to_set().contains(name@));
            }
        }
        if !running {
            return false;
        }
        match Self::find(&self.entries, name) {
            Some(i) => {
                proof {
                    lemma_index_of_unique(names(self.entries@), i as int);
                    assert(names(self.entries@)[i as int] == name@);
                }
                self.entries[i].1.entries < u32::MAX
            },
            None => true,
        }
    }

    /// Stops the running stopwatch `name` and adds the time it measured to `name`'s total,
    /// counting one more measurement; the other stopwatches keep running from their starts.
    pub fn stop_timer(&mut self, name: String)
        requires
            old(self).wf(),
            old(self).running().contains(name@),
            old(self).totals_of(name@).1 < u32::MAX,
        ensures
            final(self).wf(),
            final(self).started_at() == old(self).started_at().remove(name@),
            final(self).recorded() == old(self).recorded().insert(
                name@,
                (final(self).totals_of(name@).0, old(self).totals_of(name@).1 + 1),
            ),
            old(self).totals_of(name@).0 <= final(self).totals_of(name@).0 <= old(self).totals_of(name@).0
                + MAX_DURATION_NANOS,
    {
        let ghost old_list = self.running_timers@;
        let ghost old_run = names(self.running_timers@);
        let index = match Self::find(&self.running_timers, &name) {
            Some(i) => i,
            None => {
                proof {
                    assert(old_run.to_set().contains(name@));
                }
                0
            },
        };
        let (_, timer) = self.running_timers.remove(index);
        proof {
            assert(names(self.running_timers@) =~= old_run.remove(index as int));
            lemma_remove_to_set(old_run, index as int);
            assert forall|n: Seq<char>|
                #[trigger] names(self.running_timers@).contains(n) implies n != name@ by {
                assert(old_run.remove(index as int).to_set().contains(n));
            }
            assert forall|n: Seq<char>| n != name@ && #[trigger] old_run.contains(n) implies names(
                self.running_timers@,
            ).contains(n) && named_value(self.running_timers@, n) == named_value(old_list, n) by {
                lemma_named_remove(old_list, index as int, n);
            }
            assert(self.started_at() =~= old(self).started_at().remove(name@));
        }
        let time = instant_elapsed(&timer);
        let nanos = duration_nanos(&time);
        self.record(name, nanos);
    }

    /// Adds `nanos` nanoseconds to `name`'s total, counting one more measurement under it.
    pub fn record(&mut self, name: String, nanos: u128)
        requires
            old(self).wf(),
            old(self).totals_of(name@).1 < u32::MAX,
            nanos <= MAX_DURATION_NANOS,
        ensures
            final(self).wf(),
            final(self).started_at() == old(self).started_at(),
            final(self).recorded() == old(self).recorded().insert(
                name@,
                (old(self).totals_of(name@).0 + nanos, old(self).totals_of(name@).1 + 1),
            ),
    {
        let ghost old_names = names(self.entries@);
        match Self::find(&self.entries, &name) {
            Some(i) => {
                let entry = self.entries[i].1;
                proof {
                    assert(old_names[i as int] == name@);
                    lemma_index_of_unique(old_names, i as int);
                    assert(entry.total_nanos + nanos <= (entry.entries + 1) * MAX_DURATION_NANOS)
                        by (nonlinear_arith)
                        requires
                            entry.total_nanos <= entry.entries * MAX_DURATION_NANOS,
                            nanos <= MAX_DURATION_NANOS,
                    {}
                    assert((entry.entries + 1) * MAX_DURATION_NANOS <= u32::MAX * MAX_DURATION_NANOS)
                        by (nonlinear_arith)
                        requires
                            entry.entries < u32::MAX,
                    {}
                }
                let updated = Entry {
                    total_nanos: entry.total_nanos + nanos,
                    entries: entry.entries + 1,
                };
                self.entries.set(i, (name, updated));
                proof {
                    assert(names(self.entries@) =~= old_names);
                    assert(self.recorded() =~= old(self).recorded().insert(
                        name@,
                        (old(self).totals_of(name@).0 + nanos, old(self).totals_of(name@).1 + 1),
                    )) by {
                        assert(old(self).totals_of(name@) == (
                            entry.total_nanos as int,
                            entry.entries as int,
                        ));
                        assert forall|n: Seq<char>| names(self.entries@).contains(n) && n != name@ implies self.entries@[names(self.entries@).index_of(n)] == old(self).entries@[old_names.index_of(n)] by {
                            let j = choose|j: int| 0 <= j < old_names.len() && old_names[j] == n;
                            lemma_index_of_unique(old_names, j);
                            assert(j != i);
                        }
                    }
                }
            },
            None => {
                self.entries.push((name, Entry { total_nanos: nanos, entries: 1 }));
                proof {
                    assert(names(self.entries@) =~= old_names.push(name@));
                    assert(old(self).totals_of(name@) == (0int, 0int));
                    assert(names(self.entries@).no_duplicates()) by {
                        assert forall|a: int, b: int| 0 <= a < names(self.entries@).len() && 0 <= b < names(self.entries@).len() && a != b implies names(self.entries@)[a] != names(self.entries@)[b] by {
                            assert(!old_names.contains(name@));
                            if a == old_names.len() as int {
                                assert(names(self.entries@)[b] == old_names[b]);
                                assert(old_names.contains(old_names[b]));
                            } else if b == old_names.len() as int {
                                assert(names(self.entries@)[a] == old_names[a]);
                                assert(old_names.contains(old_names[a]));
                            } else {
                                assert(names(self.entries@)[a] == old_names[a]);
                                assert(names(self.entries@)[b] == old_names[b]);
                            }
                        }
                    }
                    assert forall|n: Seq<char>| #[trigger] old_names.contains(n) implies names(
                        self.entries@,
                    ).index_of(n) == old_names.index_of(n) by {
                        let j = choose|j: int| 0 <= j < old_names.len() && old_names[j] == n;
                        lemma_index_of_unique(old_names, j);
                        lemma_index_of_unique(names(self.entries@), j);
                    }
                    lemma_index_of_unique(names(self.entries@), old_names.len() as int);
                    assert forall|n: Seq<char>| #[trigger] names(self.entries@).contains(n) <==> (old_names.contains(n) || n == name@) by {
                        if names(self.entries@).contains(n) {
                            let j = choose|j: int| 0 <= j < names(self.entries@).len() && names(self.entries@)[j] == n;
                            if j < old_names.len() {
                                assert(old_names[j] == n);
                            }
                        }
                        if old_names.contains(n) {
                            let j = choose|j: int| 0 <= j < old_names.len() && old_names[j] == n;
                            assert(names(self.entries@)[j] == n);
                        }
                        if n == name@ {
                            assert(names(self.entries@)[old_names.len() as int] == n);
                        }
                    }
                    assert forall|n: Seq<char>| #[trigger] old_names.contains(n) implies self.entries@[names(self.entries@).index_of(n)] == old(self).entries@[old_names.index_of(n)] by {
                        let j = choose|j: int| 0 <= j < old_names.len() && old_names[j] == n;
                        lemma_index_of_unique(old_names, j);
                    }
                    assert(self.recorded() =~= old(self).recorded().insert(
                        name@,
                        (old(self).totals_of(name@).0 + nanos, old(self).totals_of(name@).1 + 1),
                    ));
                }
            },
        }
    }

    /// For each recorded name, once, its total divided by its number of measurements, in
    /// nanoseconds.
    pub fn averages(&self) -> (r: Vec<(String, u128)>)
        requires
            self.wf(),
        ensures
            r@.len() == self.recorded().dom().len(),
            names(r@).no_duplicates(),
            names(r@).to_set() == self.recorded().dom(),
            forall|i: int|
                0 <= i < r@.len() ==> {
                    let n = #[trigger] r@[i].0@;
                    &&& self.recorded().contains_key(n)
                    &&& r@[i].1 == self.recorded()[n].0 / self.recorded()[n].1
                },
    {
        let mut out: Vec<(String, u128)> = Vec::new();
        let mut i: usize = 0;
        while i < self.entries.len()
            invariant
                self.wf(),
                i <= self.entries@.len(),
                out@.len() == i,
                forall|j: int| 0 <= j < i ==> #[trigger] out@[j].0@ == self.entries@[j].0@ && out@[j].1
                    == self.entries@[j].1.total_nanos / (self.entries@[j].1.entries as u128),
            decreases self.entries@.len() - i,
        {
            let (name, entry) = (&self.entries[i].0, self.entries[i].1);
            let average = entry.total_nanos / (entry.entries as u128);
            out.push((name.clone(), average));
            i = i + 1;
        }
        proof {
            let ns = names(self.entries@);
            assert forall|j: int| 0 <= j < out@.len() implies {
                let n = #[trigger] out@[j].0@;
                &&& self.recorded().contains_key(n)
                &&& out@[j].1 == self.recorded()[n].0 / self.recorded()[n].1
            } by {
                assert(ns[j] == out@[j].0@);
                assert(ns.index_of(ns[j]) == j) by {
                    ns.index_of_first_ensures(ns[j]);
                }
            }
            assert(self.recorded().dom() =~= ns.to_set());
            assert(names(out@) =~= ns);
            ns.unique_seq_to_set();
            assert forall|j: int| 0 <= j < out@.len() implies #[trigger] self.recorded()[out@[j].0@]
                == (self.entries@[j].1.total_nanos as int, self.entries@[j].1.entries as int) by {
                lemma_index_of_unique(ns, j);
            }
        }
        out
    }
}

} // verus!
