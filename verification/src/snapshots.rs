//! Snapshots of raw bytes in memory.

use crate::octets::{copied, same_text};
use crate::state::{Hydrated, SnapshotModel, SnapshotStore};
use crate::value::SchemaVersion;
use std::convert::Infallible;
use vstd::prelude::*;
use vstd::string::*;

verus! {

/// One id's snapshot.
#[derive(Debug)]
struct Slot<P> {
    id: String,
    schema_version: SchemaVersion,
    position: P,
    state: Vec<u8>,
}

impl<P> Slot<P> {
    spec fn content(&self) -> (SchemaVersion, P, Seq<u8>) {
        (self.schema_version, self.position, self.state@)
    }
}

/// A snapshot store in memory: the last snapshot of each id.
#[derive(Debug)]
pub struct TestSnapshots<P> {
    slots: Vec<Slot<P>>,
}

spec fn holds<P>(slots: Seq<Slot<P>>, id: Seq<char>) -> bool {
    exists|i: int| 0 <= i < slots.len() && (#[trigger] slots[i]).id@ == id
}

spec fn index_of<P>(slots: Seq<Slot<P>>, id: Seq<char>) -> int {
    choose|i: int| 0 <= i < slots.len() && (#[trigger] slots[i]).id@ == id
}

spec fn slot_map<P>(slots: Seq<Slot<P>>) -> Map<Seq<char>, (SchemaVersion, P, Seq<u8>)> {
    Map::new(
        |id: Seq<char>| holds(slots, id),
        |id: Seq<char>| slots[index_of(slots, id)].content(),
    )
}

spec fn distinct<P>(slots: Seq<Slot<P>>) -> bool {
    forall|i: int, j: int|
        0 <= i < j < slots.len() ==> (#[trigger] slots[i]).id@ != (#[trigger] slots[j]).id@
}

proof fn slot_at<P>(slots: Seq<Slot<P>>, i: int)
    requires
        distinct(slots),
        0 <= i < slots.len(),
    ensures
        slot_map(slots).dom().contains(slots[i].id@),
        slot_map(slots)[slots[i].id@] == slots[i].content(),
{
    assert(holds(slots, slots[i].id@));
}

impl<P> SnapshotModel<Vec<u8>, P> for TestSnapshots<P> {
    type Content = Seq<u8>;

    closed spec fn slots(&self) -> Map<Seq<char>, (SchemaVersion, P, Seq<u8>)> {
        slot_map(self.slots@)
    }

    closed spec fn valid(&self) -> bool {
        distinct(self.slots@)
    }

    open spec fn keeps(&self, state: Vec<u8>, content: Seq<u8>) -> bool {
        content == state@
    }

    open spec fn restores(&self, id: Seq<char>, content: Seq<u8>, state: Vec<u8>) -> bool {
        state@ == content
    }
}

impl<P: Copy> TestSnapshots<P> {
    /// A store without snapshots.
    pub fn new() -> (r: TestSnapshots<P>)
        ensures
            r.valid(),
            r.slots() == Map::<Seq<char>, (SchemaVersion, P, Seq<u8>)>::empty(),
    {
        let r: TestSnapshots<P> = TestSnapshots { slots: Vec::new() };
        assert(r.slots() =~= Map::empty());
        r
    }

    /// Where the snapshot of `id` is.
    fn find(&self, id: &str) -> (r: Option<usize>)
        requires
            self.valid(),
        ensures
            match r {
                Some(at) => {
                    &&& at < self.slots@.len()
                    &&& self.slots@[at as int].id@ == id@
                    &&& self.slots().dom().contains(id@)
                    &&& self.slots()[id@] == self.slots@[at as int].content()
                },
                None => !self.slots().dom().contains(id@) && forall|i: int|
                    0 <= i < self.slots@.len() ==> (#[trigger] self.slots@[i]).id@ != id@,
            },
    {
        let mut i: usize = 0;
        while i < self.slots.len()
            invariant
                0 <= i <= self.slots.len(),
                self.valid(),
                forall|j: int| 0 <= j < i ==> (#[trigger] self.slots@[j]).id@ != id@,
            decreases self.slots.len() - i,
        {
            if same_text(self.slots[i].id.as_str(), id) {
                proof {
                    slot_at(self.slots@, i as int);
                }
                return Some(i);
            }
            i = i + 1;
        }
        None
    }
}

impl<P: Copy> SnapshotStore<Vec<u8>, P> for TestSnapshots<P> {
    type Error = Infallible;

    /// Nothing fails.
    open spec fn hydrate_fails(
        &self,
        id: Seq<char>,
        schema_version: SchemaVersion,
        error: Infallible,
    ) -> bool {
        false
    }

    /// Nothing fails.
    open spec fn commit_fails(
        &self,
        id: Seq<char>,
        schema_version: SchemaVersion,
        position: P,
        state: Vec<u8>,
        error: Infallible,
    ) -> bool {
        false
    }

    fn hydrate(&self, id: &str, schema_version: SchemaVersion) -> (r: Result<
        Hydrated<Vec<u8>, P>,
        Infallible,
    >)
        ensures
            r is Ok,
    {
        match self.find(id) {
            None => Ok(Hydrated::Absent),
            Some(at) => {
                let slot: &Slot<P> = &self.slots[at];
                if slot.schema_version == schema_version {
                    Ok(
                        Hydrated::Found {
                            position: slot.position,
                            state: copied(slot.state.as_slice()),
                        },
                    )
                } else {
                    Ok(Hydrated::Stale { stored_schema: slot.schema_version })
                }
            },
        }
    }

    fn commit(
        &mut self,
        id: &str,
        schema_version: SchemaVersion,
        position: P,
        state: &Vec<u8>,
    ) -> (r: Result<(), Infallible>)
        ensures
            r is Ok,
    {
        let ghost before = self.slots@;
        let slot: Slot<P> = Slot {
            id: id.to_owned(),
            schema_version,
            position,
            state: copied(state.as_slice()),
        };
        let ghost content = slot.content();
        match self.find(id) {
            Some(at) => {
                self.slots.set(at, slot);
                proof {
                    let after = self.slots@;
                    replaced(before, after, at as int);
                }
            },
            None => {
                self.slots.push(slot);
                proof {
                    let after = self.slots@;
                    added(before, after);
                }
            },
        }
        assert(self.slots() == old(self).slots().insert(id@, content));
        assert(old(self).keeps(*state, content.2));
        Ok(())
    }
}

proof fn replaced<P>(before: Seq<Slot<P>>, after: Seq<Slot<P>>, at: int)
    requires
        distinct(before),
        0 <= at < before.len(),
        after == before.update(at, after[at]),
        after[at].id@ == before[at].id@,
    ensures
        distinct(after),
        slot_map(after) == slot_map(before).insert(after[at].id@, after[at].content()),
{
    let id = after[at].id@;
    assert forall|i: int| 0 <= i < after.len() implies (#[trigger] after[i]).id@
        == before[i].id@ by {}
    assert(distinct(after)) by {
        assert forall|i: int, j: int| 0 <= i < j < after.len() implies (#[trigger] after[i]).id@
            != (#[trigger] after[j]).id@ by {
            assert(before[i].id@ != before[j].id@);
        }
    }
    assert forall|k: Seq<char>| #[trigger] holds(after, k) <==> holds(before, k) by {
        if holds(before, k) {
            assert(after[index_of(before, k)].id@ == k);
        }
        if holds(after, k) {
            assert(before[index_of(after, k)].id@ == k);
        }
    }
    slot_at(after, at);
    slot_at(before, at);
    let changed = slot_map(before).insert(id, after[at].content());
    assert forall|k: Seq<char>| holds(after, k) implies #[trigger] slot_map(after)[k]
        == changed[k] by {
        let i = index_of(after, k);
        slot_at(after, i);
        slot_at(before, i);
    }
    assert(slot_map(after) =~= changed);
}

proof fn added<P>(before: Seq<Slot<P>>, after: Seq<Slot<P>>)
    requires
        distinct(before),
        after.len() == before.len() + 1,
        after == before.push(after.last()),
        !holds(before, after.last().id@),
    ensures
        distinct(after),
        slot_map(after) == slot_map(before).insert(after.last().id@, after.last().content()),
{
    let n = before.len() as int;
    let id = after.last().id@;
    assert forall|i: int| 0 <= i < n implies (#[trigger] after[i]) == before[i] by {}
    assert(distinct(after)) by {
        assert forall|i: int, j: int| 0 <= i < j < after.len() implies (#[trigger] after[i]).id@
            != (#[trigger] after[j]).id@ by {
            if j == n {
                assert(before[i].id@ != id);
            } else {
                assert(before[i].id@ != before[j].id@);
            }
        }
    }
    assert forall|k: Seq<char>| #[trigger] holds(after, k) <==> holds(before, k) || k == id by {
        if holds(before, k) {
            assert(after[index_of(before, k)].id@ == k);
        }
        if k == id {
            assert(after[n].id@ == k);
        }
        if holds(after, k) && k != id {
            assert(before[index_of(after, k)].id@ == k);
        }
    }
    slot_at(after, n);
    let changed = slot_map(before).insert(id, after.last().content());
    assert forall|k: Seq<char>| holds(after, k) implies #[trigger] slot_map(after)[k]
        == changed[k] by {
        let i = index_of(after, k);
        slot_at(after, i);
        if i < n {
            slot_at(before, i);
        }
    }
    assert(slot_map(after) =~= changed);
}

} // verus!
