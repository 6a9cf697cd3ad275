//! The instrumentation bus: an ordered, name-deduplicated registry of
//! listeners, and the per-benchmark storage instrumentation plugins use.

pub mod bpu_trasher;
pub mod cache_trasher;
pub mod events;
pub mod perf_counter;

use vstd::prelude::*;
use crate::bench_id::id_eq;
use crate::bench_id::BenchId;

verus! {

/// Data kept per benchmark identity, with one entry per identity.
pub struct PerBenchData<T> {
    entries: Vec<(BenchId, T)>,
}

impl<T> PerBenchData<T> {
    /// The stored entries, in insertion order.
    pub closed spec fn view_entries(&self) -> Seq<(BenchId, T)> {
        self.entries@
    }

    /// No two entries share an identity.
    pub open spec fn wf(&self) -> bool {
        forall|i: int, j: int|
            0 <= i < j < self.view_entries().len() ==> !id_eq(
                #[trigger] self.view_entries()[i].0,
                #[trigger] self.view_entries()[j].0,
            )
    }

    /// An empty store.
    pub fn new() -> (r: PerBenchData<T>)
        ensures
            r.view_entries().len() == 0,
            r.wf(),
    {
        PerBenchData { entries: Vec::new() }
    }

    /// The position of the entry for `bench_id`, if there is one.
    pub fn get_index(&self, bench_id: &BenchId) -> (r: Option<usize>)
        ensures
            r matches Some(i) ==> i < self.view_entries().len() && id_eq(
                self.view_entries()[i as int].0,
                *bench_id,
            ),
            r.is_none() ==> forall|i: int|
                0 <= i < self.view_entries().len() ==> !id_eq(
                (#[trigger] self.view_entries()[i]).0,
                *bench_id,
            ),
    {
        let mut i: usize = 0;
        while i < self.entries.len()
            invariant
                i <= self.entries@.len(),
                forall|k: int|
                    0 <= k < i ==> !id_eq((#[trigger] self.entries@[k]).0, *bench_id),
            decreases self.entries@.len() - i,
        {
            let pair = &self.entries[i];
            if crate::bench_id::bench_id_matches(&pair.0, bench_id) {
                return Some(i);
            }
            i = i + 1;
        }
        None
    }

    /// A reference to the data for a specific identity.
    pub fn get(&self, bench_id: &BenchId) -> (r: Option<&T>)
        ensures
            r matches Some(v) ==> exists|i: int|
                0 <= i < self.view_entries().len() && id_eq(
                    (#[trigger] self.view_entries()[i]).0,
                    *bench_id,
                ) && *v == self.view_entries()[i].1,
            r.is_none() ==> forall|i: int|
                0 <= i < self.view_entries().len() ==> !id_eq(
                (#[trigger] self.view_entries()[i]).0,
                *bench_id,
            ),
    {
        match self.get_index(bench_id) {
            Some(i) => {
                let pair = &self.entries[i];
                Some(&pair.1)
            },
            None => None,
        }
    }

    /// The data at a known position.
    pub fn value_at(&self, i: usize) -> (r: &T)
        requires
            i < self.view_entries().len(),
        ensures
            *r == self.view_entries()[i as int].1,
    {
        let pair = &self.entries[i];
        &pair.1
    }

    /// Replaces the data at a known position, keeping its identity.
    pub fn set_value_at(&mut self, i: usize, value: T)
        requires
            i < old(self).view_entries().len(),
            old(self).wf(),
        ensures
            final(self).view_entries() == old(self).view_entries().update(
                i as int,
                (old(self).view_entries()[i as int].0, value),
            ),
            final(self).wf(),
    {
        let pair = self.entries.remove(i);
        self.entries.insert(i, (pair.0, value));
        proof {
            assert(self.entries@ =~= old(self).entries@.update(
                i as int,
                (old(self).entries@[i as int].0, value),
            ));
            assert forall|a: int, b: int|
                0 <= a < b < self.view_entries().len() implies !id_eq(
                #[trigger] self.view_entries()[a].0,
                #[trigger] self.view_entries()[b].0,
            ) by {
                assert(self.view_entries()[a].0 == old(self).view_entries()[a].0);
                assert(self.view_entries()[b].0 == old(self).view_entries()[b].0);
            }
        }
    }

    /// Swaps the data at a known position for `value`, returning the old
    /// data and keeping the identity.
    pub fn replace_value_at(&mut self, i: usize, value: T) -> (r: T)
        requires
            i < old(self).view_entries().len(),
            old(self).wf(),
        ensures
            r == old(self).view_entries()[i as int].1,
            final(self).view_entries() == old(self).view_entries().update(
                i as int,
                (old(self).view_entries()[i as int].0, value),
            ),
            final(self).wf(),
    {
        let pair = self.entries.remove(i);
        self.entries.insert(i, (pair.0, value));
        proof {
            assert(self.entries@ =~= old(self).entries@.update(
                i as int,
                (old(self).entries@[i as int].0, value),
            ));
            assert forall|a: int, b: int|
                0 <= a < b < self.view_entries().len() implies !id_eq(
                #[trigger] self.view_entries()[a].0,
                #[trigger] self.view_entries()[b].0,
            ) by {
                assert(self.view_entries()[a].0 == old(self).view_entries()[a].0);
                assert(self.view_entries()[b].0 == old(self).view_entries()[b].0);
            }
        }
        pair.1
    }

    /// Stores `data` for `bench_id` unless an entry for it already exists.
    pub fn insert_if_absent(&mut self, bench_id: &BenchId, data: T)
        requires
            old(self).wf(),
        ensures
            final(self).wf(),
            (exists|i: int|
                0 <= i < old(self).view_entries().len() && id_eq(
                    (#[trigger] old(self).view_entries()[i]).0,
                    *bench_id,
                )) ==> final(self).view_entries() == old(self).view_entries(),
            (forall|i: int|
                0 <= i < old(self).view_entries().len() ==> !id_eq(
                (#[trigger] old(self).view_entries()[i]).0,
                *bench_id,
            )) ==> final(self).view_entries().len() == old(self).view_entries().len() + 1 && final(self).view_entries().subrange(0, old(self).view_entries().len() as int) == old(self).view_entries() && id_eq(final(self).view_entries().last().0, *bench_id) && final(self).view_entries().last().1 == data,
    {
        match self.get_index(bench_id) {
            Some(_) => {},
            None => {
                let id = duplicate_id(bench_id);
                self.entries.push((id, data));
                proof {
                    assert(self.entries@.subrange(0, old(self).entries@.len() as int) =~= old(self).entries@);
                }
                proof {
                    assert forall|a: int, b: int|
                        0 <= a < b < self.view_entries().len() implies !id_eq(
                        #[trigger] self.view_entries()[a].0,
                        #[trigger] self.view_entries()[b].0,
                    ) by {
                        if b < self.view_entries().len() - 1 {
                            assert(!id_eq(
                                old(self).view_entries()[a].0,
                                old(self).view_entries()[b].0,
                            ));
                        } else {
                            assert(!id_eq(old(self).view_entries()[a].0, *bench_id));
                            lemma_id_eq_trans(
                                old(self).view_entries()[a].0,
                                self.view_entries()[b].0,
                                *bench_id,
                            );
                        }
                    }
                }
            },
        }
    }
}

/// A fresh identity with the same components.
fn duplicate_id(id: &BenchId) -> (r: BenchId)
    ensures
        id_eq(r, *id),
{
    BenchId {
        runner_name: match &id.runner_name {
            Some(s) => Some(s.clone()),
            None => None,
        },
        group_name: match &id.group_name {
            Some(s) => Some(s.clone()),
            None => None,
        },
        bench_name: id.bench_name.clone(),
    }
}

/// Identity equality carries across a shared right-hand side.
proof fn lemma_id_eq_trans(a: BenchId, b: BenchId, c: BenchId)
    requires
        id_eq(b, c),
        !id_eq(a, c),
    ensures
        !id_eq(a, b),
{
}

} // verus!
