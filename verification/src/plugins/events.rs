//! The listener registry of the instrumentation bus: listeners are
//! identified by name, ordered by priority (stable for equal priorities),
//! and dispatched in order on start-class events and in reverse on
//! stop-class events, so instrumentation nests symmetrically.

use vstd::prelude::*;
use crate::strings::str_eq;

verus! {

/// One registered listener: its lookup name and its priority. A lower
/// priority runs earlier on start-class events.
pub struct ListenerEntry {
    /// The name the listener is looked up, replaced and deduplicated by.
    pub name: String,
    /// The dispatch priority; lower runs first on start-class events.
    pub prio: u32,
}

/// The entries that survive removing every listener named `name`, in their
/// original order.
pub open spec fn without_name(s: Seq<ListenerEntry>, name: Seq<char>) -> Seq<ListenerEntry> {
    s.filter(|e: ListenerEntry| e.name@ != name)
}

/// Removing an entry that carries the name leaves the survivors unchanged.
proof fn lemma_filter_remove_unmatched(s: Seq<ListenerEntry>, name: Seq<char>, i: int)
    requires
        0 <= i < s.len(),
        s[i].name@ == name,
    ensures
        without_name(s.remove(i), name) == without_name(s, name),
{
    broadcast use vstd::seq_lib::group_filter_ensures;

    reveal_with_fuel(Seq::<ListenerEntry>::filter, 2);
    let pred = |e: ListenerEntry| e.name@ != name;
    let left = s.take(i);
    let mid = seq![s[i]];
    let right = s.skip(i + 1);
    assert(s =~= left + (mid + right));
    assert(s.remove(i) =~= left + right);
    Seq::<ListenerEntry>::filter_distributes_over_add(left, mid + right, pred);
    Seq::<ListenerEntry>::filter_distributes_over_add(mid, right, pred);
    Seq::<ListenerEntry>::filter_distributes_over_add(left, right, pred);
    assert(mid.filter(pred) =~= Seq::<ListenerEntry>::empty()) by {
        assert(mid.drop_last() =~= Seq::<ListenerEntry>::empty());
        assert(!pred(mid.last()));
    }
    assert((mid + right).filter(pred) =~= right.filter(pred));
    assert(s.filter(pred) =~= left.filter(pred) + right.filter(pred));
    assert(s.remove(i).filter(pred) =~= left.filter(pred) + right.filter(pred));
}

/// A list with no entry under the name is its own set of survivors.
proof fn lemma_filter_keeps_all(s: Seq<ListenerEntry>, name: Seq<char>)
    requires
        forall|k: int| 0 <= k < s.len() ==> (#[trigger] s[k]).name@ != name,
    ensures
        without_name(s, name) == s,
    decreases s.len(),
{
    reveal_with_fuel(Seq::<ListenerEntry>::filter, 2);
    let pred = |e: ListenerEntry| e.name@ != name;
    if s.len() == 0 {
        assert(s.filter(pred) =~= s);
    } else {
        assert(forall|k: int|
            0 <= k < s.drop_last().len() ==> (#[trigger] s.drop_last()[k]).name@ != name);
        lemma_filter_keeps_all(s.drop_last(), name);
        assert(pred(s.last()));
        assert(without_name(s, name) =~= without_name(s.drop_last(), name).push(s.last()));
        assert(s =~= s.drop_last().push(s.last()));
        assert(without_name(s, name) =~= s);
    }
}

/// The ordered listener registry. The host keeps its listener objects in a
/// list parallel to these entries and applies the index this registry
/// returns for every insertion or removal.
pub struct PluginRegistry {
    entries: Vec<ListenerEntry>,
}

impl PluginRegistry {
    /// The registered entries, in dispatch order.
    pub closed spec fn view_entries(&self) -> Seq<ListenerEntry> {
        self.entries@
    }

    /// Entries are sorted by priority; equal priorities keep insertion
    /// order, which the stable insertion position preserves.
    pub open spec fn wf(&self) -> bool {
        forall|i: int, j: int|
            0 <= i < j < self.view_entries().len() ==> (#[trigger] self.view_entries()[i]).prio
                <= (#[trigger] self.view_entries()[j]).prio
    }

    /// An empty registry.
    pub fn new() -> (r: PluginRegistry)
        ensures
            r.view_entries().len() == 0,
            r.wf(),
    {
        PluginRegistry { entries: Vec::new() }
    }

    /// The number of registered listeners.
    pub fn len(&self) -> (r: usize)
        ensures
            r == self.view_entries().len(),
    {
        self.entries.len()
    }

    /// The position of the first listener with the given name.
    pub fn find(&self, name: &str) -> (r: Option<usize>)
        ensures
            r matches Some(i) ==> i < self.view_entries().len() && self.view_entries()[i as int].name@
                == name@ && forall|k: int|
                0 <= k < i ==> (#[trigger] self.view_entries()[k]).name@ != name@,
            r.is_none() ==> forall|k: int|
                0 <= k < self.view_entries().len() ==> (#[trigger] self.view_entries()[k]).name@
                    != name@,
    {
        let mut i: usize = 0;
        while i < self.entries.len()
            invariant
                i <= self.entries@.len(),
                forall|k: int| 0 <= k < i ==> (#[trigger] self.entries@[k]).name@ != name@,
            decreases self.entries@.len() - i,
        {
            let entry = &self.entries[i];
            if str_eq(entry.name.as_str(), name) {
                return Some(i);
            }
            i = i + 1;
        }
        None
    }

    /// Registers a listener, keeping the registry sorted: the new entry goes
    /// after every entry of equal or lower priority, so equal priorities
    /// keep their insertion order. Returns the insertion position, which the
    /// host applies to its parallel list.
    pub fn add(&mut self, name: String, prio: u32) -> (idx: usize)
        requires
            old(self).wf(),
        ensures
            idx <= old(self).view_entries().len(),
            final(self).view_entries().len() == old(self).view_entries().len() + 1,
            final(self).view_entries()[idx as int].name == name,
            final(self).view_entries()[idx as int].prio == prio,
            forall|k: int|
                0 <= k < idx ==> #[trigger] final(self).view_entries()[k] == old(self).view_entries()[k],
            forall|k: int|
                idx < k < final(self).view_entries().len() ==> #[trigger] final(self).view_entries()[k] == old(self).view_entries()[k - 1],
            forall|k: int|
                0 <= k < idx ==> (#[trigger] old(self).view_entries()[k]).prio <= prio,
            forall|k: int|
                idx <= k < old(self).view_entries().len() ==> prio < (#[trigger] old(self).view_entries()[k]).prio,
            final(self).wf(),
    {
        let mut idx: usize = 0;
        while idx < self.entries.len()
            invariant_except_break
                idx <= self.entries@.len(),
                forall|k: int| 0 <= k < idx ==> (#[trigger] self.entries@[k]).prio <= prio,
            ensures
                idx <= self.entries@.len(),
                forall|k: int| 0 <= k < idx ==> (#[trigger] self.entries@[k]).prio <= prio,
                idx < self.entries@.len() ==> prio < self.entries@[idx as int].prio,
            decreases self.entries@.len() - idx,
        {
            let entry = &self.entries[idx];
            if entry.prio > prio {
                break ;
            }
            idx = idx + 1;
        }
        proof {
            assert forall|k: int|
                idx <= k < self.entries@.len() implies prio < (#[trigger] self.entries@[k]).prio
                by {
                if k > idx {
                    assert(self.entries@[idx as int].prio <= self.entries@[k].prio);
                }
            }
        }
        self.entries.insert(idx, ListenerEntry { name, prio });
        proof {
            assert forall|i: int, j: int|
                0 <= i < j < self.view_entries().len() implies (
            #[trigger] self.view_entries()[i]).prio <= (#[trigger] self.view_entries()[j]).prio
                by {
                if i < idx && j > idx {
                    assert(old(self).view_entries()[i].prio <= prio);
                    assert(prio < old(self).view_entries()[j - 1].prio);
                }
            }
        }
        idx
    }

    /// Registers a listener only if none with that name exists yet; returns
    /// the insertion position, or `None` when the name was already taken.
    pub fn add_if_absent(&mut self, name: String, prio: u32) -> (r: Option<usize>)
        requires
            old(self).wf(),
        ensures
            final(self).wf(),
            r.is_none() ==> final(self).view_entries() == old(self).view_entries() && exists|k: int|
                0 <= k < old(self).view_entries().len() && (#[trigger] old(self).view_entries()[
                k]).name@ == name@,
            r matches Some(idx) ==> final(self).view_entries().len() == old(self).view_entries().len() + 1 && idx <= old(self).view_entries().len() && final(self).view_entries()[idx as int].name@ == name@ && (forall|k: int|
                0 <= k < old(self).view_entries().len() ==> (#[trigger] old(self).view_entries()[
                k]).name@ != name@),
    {
        match self.find(name.as_str()) {
            Some(_) => None,
            None => Some(self.add(name, prio)),
        }
    }

    /// Removes every listener with the given name, keeping the rest in
    /// order: replacement always substitutes, so no listener registered
    /// earlier under the name survives. Returns the removed positions, in
    /// removal order, each relative to the registry as it stood at that
    /// moment; the host applies them one by one to its parallel list.
    pub fn remove_all_by_name(&mut self, name: &str) -> (removed: Vec<usize>)
        requires
            old(self).wf(),
        ensures
            final(self).wf(),
            final(self).view_entries() == without_name(old(self).view_entries(), name@),
            forall|k: int|
                0 <= k < final(self).view_entries().len() ==> (#[trigger] final(self).view_entries()[k]).name@
                    != name@,
            removed@.len() == old(self).view_entries().len() - final(self).view_entries().len(),
    {
        let mut removed: Vec<usize> = Vec::new();
        loop
            invariant
                self.wf(),
                without_name(self.view_entries(), name@) == without_name(
                    old(self).view_entries(),
                    name@,
                ),
                removed@.len() + self.view_entries().len() == old(self).view_entries().len(),
            ensures
                self.wf(),
                self.view_entries() == without_name(old(self).view_entries(), name@),
                forall|k: int|
                    0 <= k < self.view_entries().len() ==> (#[trigger] self.view_entries()[
                    k]).name@ != name@,
                removed@.len() + self.view_entries().len() == old(self).view_entries().len(),
            decreases self.view_entries().len(),
        {
            let found = self.find(name);
            match found {
                Some(idx) => {
                    let ghost before = self.entries@;
                    self.entries.remove(idx);
                    proof {
                        lemma_filter_remove_unmatched(before, name@, idx as int);
                        assert forall|i: int, j: int|
                            0 <= i < j < self.view_entries().len() implies (
                        #[trigger] self.view_entries()[i]).prio <= (
                        #[trigger] self.view_entries()[j]).prio by {
                            let oi = if i < idx {
                                i
                            } else {
                                i + 1
                            };
                            let oj = if j < idx {
                                j
                            } else {
                                j + 1
                            };
                            assert(before[oi].prio <= before[oj].prio);
                        }
                    }
                    removed.push(idx);
                },
                None => {
                    proof {
                        lemma_filter_keeps_all(self.entries@, name@);
                    }
                    break ;
                },
            }
        }
        removed
    }

    /// The order listeners are dispatched in: forward for start-class
    /// events, reversed for stop-class events, so whichever listener
    /// started instrumentation last stops it first.
    pub fn dispatch_order(&self, reverse: bool) -> (r: Vec<usize>)
        ensures
            r@.len() == self.view_entries().len(),
            forall|i: int|
                0 <= i < r@.len() ==> #[trigger] r@[i] == (if reverse {
                    self.view_entries().len() - 1 - i
                } else {
                    i
                }),
    {
        let n = self.entries.len();
        let mut order: Vec<usize> = Vec::new();
        let mut i: usize = 0;
        while i < n
            invariant
                i <= n,
                n == self.view_entries().len(),
                order@.len() == i,
                forall|k: int|
                    0 <= k < i ==> #[trigger] order@[k] == (if reverse {
                        n - 1 - k
                    } else {
                        k
                    }),
            decreases n - i,
        {
            if reverse {
                order.push(n - 1 - i);
            } else {
                order.push(i);
            }
            i = i + 1;
        }
        order
    }
}

} // verus!
