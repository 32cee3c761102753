//! External logical outcomes and separately tracked physical accesses.
//!
//! Provider cancellation, abandonment, and timeout cannot release storage still
//! in use. Payloads are exposed only when access is valid, and cleanup is
//! retained until the provider acknowledges release.
use crate::admission::SWSpawnError;
use crate::progress::SWExternalProgress;
use crate::sums::count;
use crate::sums::total;
use crate::sums::total_bounds;
use crate::sums::total_push;
use crate::sums::total_remove;
use crate::sums::total_update;
use vstd::prelude::*;

verus! {

/// How far a physical access has come.
#[derive(Clone, Copy, Debug, PartialEq, Eq, Structural)]
pub enum PhysicalState {
    /// Admitted; no foreign accessor has seen the resource.
    Prepared,
    /// Exposed to a foreign accessor.
    Active,
    /// Exposed, and the release authority was lost.
    Orphaned,
}

/// One physical access.
#[derive(Clone, Copy, Debug, PartialEq, Eq, Structural)]
pub struct PhysicalEntry {
    pub id: u64,
    pub state: PhysicalState,
    pub required: bool,
}

#[verifier::ext_equal]
pub struct RegistryView {
    pub ordinary_capacity: usize,
    pub required_capacity: usize,
    pub next_id: int,
    pub entries: Seq<PhysicalEntry>,
}

/// One for each entry of this kind.
pub open spec fn of_kind(required: bool) -> spec_fn(PhysicalEntry) -> int {
    |e: PhysicalEntry|
        if e.required == required {
            1
        } else {
            0
        }
}

/// One for each entry in this state.
pub open spec fn in_state(state: PhysicalState) -> spec_fn(PhysicalEntry) -> int {
    |e: PhysicalEntry|
        if e.state == state {
            1
        } else {
            0
        }
}

impl RegistryView {
    pub open spec fn capacity(self, required: bool) -> usize {
        if required {
            self.required_capacity
        } else {
            self.ordinary_capacity
        }
    }

    /// Accesses of a kind that hold a place.
    pub open spec fn held(self, required: bool) -> int {
        total(self.entries, of_kind(required))
    }

    pub open spec fn wf(self) -> bool {
        &&& 0 <= self.next_id <= u64::MAX
        &&& forall|i: int, j: int|
            0 <= i < j < self.entries.len() ==> (#[trigger] self.entries[i]).id < (
            #[trigger] self.entries[j]).id
        &&& forall|i: int|
            0 <= i < self.entries.len() ==> (#[trigger] self.entries[i]).id < self.next_id
        &&& self.held(false) <= self.ordinary_capacity
        &&& self.held(true) <= self.required_capacity
    }

    pub open spec fn entry_at(self, i: int, id: u64) -> bool {
        0 <= i < self.entries.len() && self.entries[i].id == id
    }

    pub open spec fn has(self, id: u64) -> bool {
        exists|i: int| #[trigger] self.entry_at(i, id)
    }

    pub open spec fn slot(self, id: u64) -> int {
        choose|i: int| #[trigger] self.entry_at(i, id)
    }

    pub open spec fn get(self, id: u64) -> PhysicalEntry {
        self.entries[self.slot(id)]
    }

    /// Why an access is refused, if it is.
    pub open spec fn reserve_error(self, required: bool) -> Option<SWSpawnError> {
        if self.ordinary_capacity == 0 {
            Some(SWSpawnError::Disabled)
        } else if self.capacity(required) == 0 {
            Some(SWSpawnError::TooLarge)
        } else if self.held(required) >= self.capacity(required) {
            Some(SWSpawnError::Full)
        } else {
            None
        }
    }

    pub open spec fn reserved(self, required: bool) -> RegistryView {
        RegistryView {
            next_id: self.next_id + 1,
            entries: self.entries.push(
                PhysicalEntry {
                    id: self.next_id as u64,
                    state: PhysicalState::Prepared,
                    required,
                },
            ),
            ..self
        }
    }

    pub open spec fn restated(self, id: u64, state: PhysicalState) -> RegistryView {
        RegistryView {
            entries: self.entries.update(self.slot(id), PhysicalEntry { state, ..self.get(id) }),
            ..self
        }
    }

    pub open spec fn without(self, id: u64) -> RegistryView {
        RegistryView { entries: self.entries.remove(self.slot(id)), ..self }
    }
}

proof fn entry_found(v: RegistryView, i: int, id: u64)
    requires
        v.wf(),
        v.entry_at(i, id),
    ensures
        v.has(id),
        v.slot(id) == i,
{
    let k = v.slot(id);
    assert(v.entry_at(k, id));
    if k < i {
        assert(v.entries[k].id < v.entries[i].id);
    } else if i < k {
        assert(v.entries[i].id < v.entries[k].id);
    }
}

/// Physical accesses, bounded by kind.
pub struct PhysicalRegistry {
    ordinary_capacity: usize,
    required_capacity: usize,
    next_id: u64,
    entries: Vec<PhysicalEntry>,
    ordinary: usize,
    required: usize,
}

impl View for PhysicalRegistry {
    type V = RegistryView;

    closed spec fn view(&self) -> RegistryView {
        RegistryView {
            ordinary_capacity: self.ordinary_capacity,
            required_capacity: self.required_capacity,
            next_id: self.next_id as int,
            entries: self.entries@,
        }
    }
}

impl PhysicalRegistry {
    /// The cached counts are exact.
    pub closed spec fn counted(self) -> bool {
        self.ordinary == self@.held(false) && self.required == self@.held(true)
    }

    pub open spec fn wf(self) -> bool {
        self@.wf() && self.counted()
    }

    /// Without an ordinary capacity nothing is admitted, protected or not.
    pub fn new(capacity: Option<usize>, required_capacity: usize) -> (registry: Self)
        ensures
            registry.wf(),
            registry@ == (RegistryView {
                ordinary_capacity: match capacity {
                    Some(capacity) => capacity,
                    None => 0,
                },
                required_capacity: match capacity {
                    Some(_) => required_capacity,
                    None => 0,
                },
                next_id: 0,
                entries: Seq::empty(),
            }),
    {
        let (ordinary_capacity, required_capacity) = match capacity {
            Some(capacity) => (capacity, required_capacity),
            None => (0, 0),
        };
        let registry = PhysicalRegistry {
            ordinary_capacity,
            required_capacity,
            next_id: 0,
            entries: Vec::new(),
            ordinary: 0,
            required: 0,
        };
        assert(registry@.entries =~= Seq::empty());
        registry
    }

    /// Whether one more access can be named.
    pub fn names_accesses(&self) -> (room: bool)
        ensures
            room == (self@.next_id < u64::MAX),
    {
        self.next_id < u64::MAX
    }

    /// Why an access would be refused now, if it would be.
    pub fn check_reserve(&self, required: bool) -> (error: Option<SWSpawnError>)
        requires
            self.wf(),
        ensures
            error == self@.reserve_error(required),
    {
        if self.ordinary_capacity == 0 {
            return Some(SWSpawnError::Disabled);
        }
        let (count, capacity) = if required {
            (self.required, self.required_capacity)
        } else {
            (self.ordinary, self.ordinary_capacity)
        };
        if capacity == 0 {
            return Some(SWSpawnError::TooLarge);
        }
        if count >= capacity {
            return Some(SWSpawnError::Full);
        }
        None
    }

    pub fn reserve(&mut self, required: bool) -> (result: Result<u64, SWSpawnError>)
        requires
            old(self).wf(),
            old(self)@.next_id < u64::MAX,
        ensures
            final(self).wf(),
            match result {
                Ok(id) => {
                    &&& old(self)@.reserve_error(required) is None
                    &&& id == old(self)@.next_id
                    &&& final(self)@ == old(self)@.reserved(required)
                },
                Err(error) => {
                    &&& old(self)@.reserve_error(required) == Some(error)
                    &&& final(self)@ == old(self)@
                },
            },
    {
        match self.check_reserve(required) {
            Some(error) => {
                return Err(error);
            },
            None => {},
        }
        let id: u64 = self.next_id;
        let entry = PhysicalEntry { id, state: PhysicalState::Prepared, required };
        proof {
            total_push(self@.entries, entry, of_kind(true));
            total_push(self@.entries, entry, of_kind(false));
        }
        self.next_id = id + 1;
        self.entries.push(entry);
        if required {
            self.required = self.required + 1;
        } else {
            self.ordinary = self.ordinary + 1;
        }
        Ok(id)
    }

    fn find(&self, id: u64) -> (found: Option<usize>)
        requires
            self@.wf(),
        ensures
            match found {
                Some(i) => self@.entry_at(i as int, id) && self@.has(id) && self@.slot(id) == i,
                None => !self@.has(id),
            },
    {
        let mut index: usize = 0;
        while index < self.entries.len()
            invariant
                self@.wf(),
                index <= self.entries@.len(),
                forall|i: int| 0 <= i < index ==> (#[trigger] self.entries@[i]).id != id,
            decreases self.entries@.len() - index,
        {
            if self.entries[index].id == id {
                proof {
                    assert(self@.entry_at(index as int, id));
                    entry_found(self@, index as int, id);
                }
                return Some(index);
            }
            index += 1;
        }
        proof {
            if self@.has(id) {
                let i = self@.slot(id);
                assert(self@.entry_at(i, id));
                assert(self.entries@[i].id == id);
            }
        }
        None
    }

    fn restate(&mut self, id: u64, state: PhysicalState)
        requires
            old(self).wf(),
            old(self)@.has(id),
        ensures
            final(self).wf(),
            final(self)@ == old(self)@.restated(id, state),
    {
        if let Some(index) = self.find(id) {
            let entry = PhysicalEntry {
                id,
                state,
                required: self.entries[index].required,
            };
            let ghost before = self@;
            proof {
                total_update(self@.entries, index as int, entry, of_kind(true));
                total_update(self@.entries, index as int, entry, of_kind(false));
            }
            self.entries.set(index, entry);
            proof {
                assert forall|i: int, j: int| 0 <= i < j < self@.entries.len() implies (
                #[trigger] self@.entries[i]).id < (#[trigger] self@.entries[j]).id by {
                    assert(before.entries[i].id < before.entries[j].id);
                }
                assert forall|i: int| 0 <= i < self@.entries.len() implies (
                #[trigger] self@.entries[i]).id < self@.next_id by {
                    assert(before.entries[i].id < before.next_id);
                }
            }
        }
    }

    /// Exposes a prepared resource to its foreign accessor, once.
    pub fn activate(&mut self, id: u64)
        requires
            old(self).wf(),
            old(self)@.has(id),
            old(self)@.get(id).state == PhysicalState::Prepared,
        ensures
            final(self).wf(),
            final(self)@ == old(self)@.restated(id, PhysicalState::Active),
    {
        self.restate(id, PhysicalState::Active);
    }

    /// Records that the release authority was lost; the place stays taken.
    pub fn orphan(&mut self, id: u64)
        requires
            old(self).wf(),
            old(self)@.has(id),
        ensures
            final(self).wf(),
            final(self)@ == old(self)@.restated(id, PhysicalState::Orphaned),
    {
        self.restate(id, PhysicalState::Orphaned);
    }

    /// Ends an access after its release.
    pub fn remove(&mut self, id: u64)
        requires
            old(self).wf(),
            old(self)@.has(id),
        ensures
            final(self).wf(),
            final(self)@ == old(self)@.without(id),
    {
        if let Some(index) = self.find(id) {
            let ghost before = self@;
            proof {
                total_remove(self@.entries, index as int, of_kind(true));
                total_remove(self@.entries, index as int, of_kind(false));
                total_bounds(self@.entries.remove(index as int), of_kind(true));
                total_bounds(self@.entries.remove(index as int), of_kind(false));
            }
            let entry = self.entries.remove(index);
            if entry.required {
                self.required = self.required - 1;
            } else {
                self.ordinary = self.ordinary - 1;
            }
            proof {
                assert forall|i: int| 0 <= i < self@.entries.len() implies #[trigger] self@.entries[i]
                    == before.entries[if i < index {
                    i
                } else {
                    i + 1
                }] by {}
            }
        }
    }

    fn count_state(&self, state: PhysicalState) -> (count: usize)
        ensures
            count == total(self@.entries, in_state(state)),
    {
        let mut count: usize = 0;
        let mut index: usize = 0;
        while index < self.entries.len()
            invariant
                index <= self.entries@.len(),
                count <= index,
                count == total(self@.entries.take(index as int), in_state(state)),
            decreases self.entries@.len() - index,
        {
            proof {
                let next = self@.entries.take(index + 1);
                assert(next.drop_last() =~= self@.entries.take(index as int));
                assert(next.last() == self@.entries[index as int]);
            }
            if self.entries[index].state == state {
                count += 1;
            }
            index += 1;
        }
        proof {
            assert(self@.entries.take(index as int) =~= self@.entries);
        }
        count
    }

    /// Physical counts; the logical count is the caller's.
    pub fn progress(&self) -> (progress: SWExternalProgress)
        ensures
            progress.logical == 0,
            progress.prepared == total(self@.entries, in_state(PhysicalState::Prepared)),
            progress.active == total(self@.entries, in_state(PhysicalState::Active)),
            progress.orphaned == total(self@.entries, in_state(PhysicalState::Orphaned)),
    {
        SWExternalProgress {
            logical: 0,
            prepared: self.count_state(PhysicalState::Prepared),
            active: self.count_state(PhysicalState::Active),
            orphaned: self.count_state(PhysicalState::Orphaned),
        }
    }

    pub fn is_empty(&self) -> (empty: bool)
        ensures
            empty == (self@.entries.len() == 0),
    {
        self.entries.len() == 0
    }
}

/// Protected accesses never use ordinary places, and ordinary ones never use
/// protected places; an orphaned access keeps its place.
pub proof fn places_are_separate(v: RegistryView, required: bool, id: u64)
    requires
        v.wf(),
        v.has(id),
    ensures
        v.reserved(required).held(!required) == v.held(!required),
        v.reserved(required).held(required) == v.held(required) + 1,
        v.restated(id, PhysicalState::Orphaned).held(required) == v.held(required),
{
    let entry = PhysicalEntry {
        id: v.next_id as u64,
        state: PhysicalState::Prepared,
        required,
    };
    total_push(v.entries, entry, of_kind(required));
    total_push(v.entries, entry, of_kind(!required));
    let i = v.slot(id);
    assert(v.entry_at(i, id));
    total_update(
        v.entries,
        i,
        PhysicalEntry { state: PhysicalState::Orphaned, ..v.get(id) },
        of_kind(required),
    );
}

/// An entry keeps its identity when its state changes.
pub proof fn restated_entry(v: RegistryView, id: u64, state: PhysicalState)
    requires
        v.wf(),
        v.has(id),
    ensures
        v.restated(id, state).has(id),
        v.restated(id, state).get(id) == (PhysicalEntry { state, ..v.get(id) }),
{
    let w = v.restated(id, state);
    let i = v.slot(id);
    assert(v.entry_at(i, id));
    assert(w.entry_at(i, id));
    let k = w.slot(id);
    assert(w.entry_at(k, id));
    assert(v.entries[k].id == id);
    if k < i {
        assert(v.entries[k].id < v.entries[i].id);
    } else if i < k {
        assert(v.entries[i].id < v.entries[k].id);
    }
}

/// A new entry is prepared.
pub proof fn reserved_entry(v: RegistryView, required: bool)
    requires
        v.wf(),
        v.next_id < u64::MAX,
    ensures
        v.reserved(required).has(v.next_id as u64),
        v.reserved(required).get(v.next_id as u64).state == PhysicalState::Prepared,
        !v.has(v.next_id as u64),
{
    let w = v.reserved(required);
    let id = v.next_id as u64;
    assert(w.entry_at(v.entries.len() as int, id));
    let k = w.slot(id);
    assert(w.entry_at(k, id));
    if k < v.entries.len() {
        assert(v.entries[k].id < v.next_id);
    }
    if v.has(id) {
        assert(v.entry_at(v.slot(id), id));
        assert(v.entries[v.slot(id)].id < v.next_id);
    }
}

} // verus!
