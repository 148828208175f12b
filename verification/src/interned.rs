//! Interning: small identifiers for values, handed out on demand and taken
//! back when the values are no longer used.

use crate::collections::fx_get;
use crate::collections::fx_insert;
use crate::collections::fx_remove;
use crate::durability::Durability;
use crate::intern_id::InternId;
use crate::key::DatabaseKeyIndex;
use crate::local_state::with_top;
use crate::revision::Revision;
use crate::runtime::Runtime;
use crate::runtime::SharedState;
use crate::sweep::DiscardIf;
use crate::sweep::SweepStrategy;
use rustc_hash::FxHashMap;
use std::hash::Hash;
use vstd::prelude::*;
use vstd::std_specs::hash::obeys_key_model;

verus! {

/// Trait implemented for the "key" that results from interning. This is
/// basically meant to be a "newtype"'d `u32`.
pub trait InternKey: Sized {
    /// Create an instance of the intern-key from an `InternId` value.
    fn from_intern_id(v: InternId) -> Self;

    /// Extract the `InternId` with which the intern-key was created.
    fn as_intern_id(&self) -> InternId;
}

impl InternKey for InternId {
    fn from_intern_id(v: InternId) -> (id: InternId)
        ensures
            id == v,
    {
        v
    }

    fn as_intern_id(&self) -> (id: InternId)
        ensures
            id == *self,
    {
        *self
    }
}

/// What is kept of an interned value.
pub struct InternSlot<K> {
    /// Index of this slot in the list of interned values.
    pub index: InternId,
    /// DatabaseKeyIndex for this slot.
    pub database_key_index: DatabaseKeyIndex,
    /// Value that was interned.
    pub value: K,
    /// When was this intern'd? This informs the "changed-at" result.
    pub interned_at: Revision,
    /// When was it accessed? Equal to `None` if this slot has
    /// been garbage collected. A slot that was accessed in the current
    /// revision is never collected.
    pub accessed_at: Option<Revision>,
}

/// One place in the list of interned values.
pub enum InternValue<K> {
    /// The value has not been gc'd.
    Present {
        /// What is kept of the value.
        slot: InternSlot<K>,
    },
    /// The place is free; `next` is the next free place, if any.
    Free {
        /// The next place of the free list.
        next: Option<InternId>,
    },
}

/// What a caller gets to know of an interned value.
#[derive(Clone, Copy, Debug, PartialEq, Eq, Structural)]
pub struct Interned {
    /// The identifier of the value.
    pub index: InternId,
    /// The name of the value as a query instance.
    pub database_key_index: DatabaseKeyIndex,
    /// The revision in which the value was interned.
    pub interned_at: Revision,
}

/// The tables of one interning query.
pub struct InternTables<K> {
    /// Map from the key to the corresponding intern-index.
    map: FxHashMap<K, InternId>,
    /// For each valid intern-index, stores the interned value. When
    /// an interned value is GC'd, the entry is set to
    /// `InternValue::Free` with the next free item.
    values: Vec<InternValue<K>>,
    /// Index of the first free intern-index, if any.
    first_free: Option<InternId>,
    /// The free places in the order of the free list.
    free: Ghost<Seq<InternId>>,
}

/// Storage for interned values: each distinct value gets an identifier, the
/// same one every time while the value is in use.
pub struct InternedStorage<K> {
    group_index: u16,
    query_index: u16,
    tables: InternTables<K>,
}

/// Storage for the looking up of interned things: the way back from an
/// identifier to the value, through the storage that interned it.
pub struct LookupInternedStorage {
}

/// The durability that interned values are read with: an identifier, once
/// assigned, stays as long as the slot lives.
pub open spec fn intern_durability() -> Durability {
    Durability::High
}

/// Whether a clone of a `K` is always the value itself.
pub open spec fn clones_faithfully<K: Clone>() -> bool {
    forall|a: K, b: K| #[trigger] cloned(a, b) ==> a == b
}

impl<K> InternSlot<K> {
    /// Updates the `accessed_at` time to be `revision_now`. Returns true if
    /// the update was successful, or false if the slot has been GC'd in the
    /// interim.
    pub fn try_update_accessed_at(&mut self, revision_now: Revision) -> (updated: bool)
        ensures
            updated == old(self).accessed_at is Some,
            *final(self) == (InternSlot {
                accessed_at: if updated {
                    Some(revision_now)
                } else {
                    None
                },
                ..*old(self)
            }),
    {
        match self.accessed_at {
            Some(_) => {
                self.accessed_at = Some(revision_now);
                true
            },
            None => false,
        }
    }

    /// Whether a sweep may collect the slot: it was last accessed before the
    /// revision `last_changed`.
    pub open spec fn collectable(self, last_changed: Revision) -> bool {
        self.accessed_at is Some && self.accessed_at->0@ < last_changed@
    }

    /// Invoked during sweeping to try and collect this slot. Fails if
    /// the slot has been accessed since the intern durability last
    /// changed, because in that case there may be outstanding
    /// references that are still considered valid.
    pub fn try_collect(&mut self, last_changed: Revision, revision_now: Revision) -> (collected:
        bool)
        requires
            old(self).accessed_at is Some,
        ensures
            collected == old(self).collectable(last_changed),
            *final(self) == (InternSlot {
                accessed_at: if collected {
                    None
                } else {
                    old(self).accessed_at
                },
                ..*old(self)
            }),
    {
        let accessed_at = self.accessed_at.unwrap();
        if accessed_at.as_u64() < last_changed.as_u64() {
            self.accessed_at = None;
            true
        } else {
            false
        }
    }

    /// Whether the interned value may have changed since `revision`: yes if
    /// the slot has been collected, else exactly if the value was interned
    /// after `revision`. The slot counts as accessed in `revision_now`.
    pub fn maybe_changed_since(&mut self, revision: Revision, revision_now: Revision) -> (changed:
        bool)
        ensures
            changed == (old(self).accessed_at is None || old(self).interned_at@ > revision@),
            *final(self) == (InternSlot {
                accessed_at: if old(self).accessed_at is Some {
                    Some(revision_now)
                } else {
                    None
                },
                ..*old(self)
            }),
    {
        if !self.try_update_accessed_at(revision_now) {
            true
        } else {
            self.interned_at.as_u64() > revision.as_u64()
        }
    }
}

impl<K: Eq + Hash + Clone> InternTables<K> {
    /// The identifier of each interned value.
    pub closed spec fn ids(self) -> Map<K, InternId> {
        self.map@
    }

    /// How many places the list of values has, free ones included.
    pub closed spec fn size(self) -> nat {
        self.values@.len()
    }

    /// What is kept under the identifier `id`; `None` where the place is free
    /// or does not exist.
    pub closed spec fn slot(self, id: InternId) -> Option<InternSlot<K>> {
        if id@ < self.values@.len() {
            match self.values@[id@ as int] {
                InternValue::Present { slot } => Some(slot),
                InternValue::Free { .. } => None,
            }
        } else {
            None
        }
    }

    /// The free places, the one that is given out next first.
    pub closed spec fn free_list(self) -> Seq<InternId> {
        self.free@
    }

    /// What holds of the tables at all times: each interned value is kept in
    /// the place that its identifier names, and each place that is taken
    /// belongs to the value kept there; every free place is on the free list,
    /// once, and nothing else is.
    pub closed spec fn wf(self) -> bool {
        &&& obeys_key_model::<K>()
        &&& clones_faithfully::<K>()
        &&& self.values@.len() <= InternId::MAX
        &&& forall|k: K| #[trigger]
            self.map@.contains_key(k) ==> self.map@[k]@ < self.values@.len() && (
            self.values@[self.map@[k]@ as int] matches InternValue::Present { slot } && slot.value
                == k)
        &&& forall|i: int|
            0 <= i < self.values@.len() ==> (#[trigger] self.values@[i]
                matches InternValue::Present { slot } ==> self.map@.contains_key(slot.value)
                && self.map@[slot.value]@ == i && slot.index@ == i && slot.accessed_at is Some)
        &&& self.free@.no_duplicates()
        &&& forall|j: int|
            0 <= j < self.free@.len() ==> (#[trigger] self.free@[j])@ < self.values@.len()
        &&& forall|j: int|
            0 <= j < self.free@.len() ==> #[trigger] self.values@[self.free@[j]@ as int] == (
            InternValue::<K>::Free {
                next: if j + 1 < self.free@.len() {
                    Some(self.free@[j + 1])
                } else {
                    None
                },
            })
        &&& self.first_free == if self.free@.len() > 0 {
            Some(self.free@[0])
        } else {
            None
        }
        &&& forall|i: int|
            0 <= i < self.values@.len() && #[trigger] self.values@[i] is Free ==> exists|j: int|
                0 <= j < self.free@.len() && (#[trigger] self.free@[j])@ == i
    }

    /// Whether the value `k` is held under `id` and was accessed in the
    /// revision `now`: then `id` stays its identifier for as long as the
    /// database is in that revision.
    pub open spec fn pinned(self, k: K, id: InternId, now: Revision) -> bool {
        &&& self.ids().contains_key(k)
        &&& self.ids()[k] == id
        &&& self.slot(id) is Some
        &&& self.slot(id)->0.value == k
        &&& self.slot(id)->0.accessed_at == Some(now)
    }

    /// The consequences of `wf` that callers rely on: going from a value to
    /// its identifier and back, or from an identifier to its value and back,
    /// ends where it began.
    pub proof fn lemma_round_trip(self, k: K, id: InternId)
        requires
            self.wf(),
        ensures
            self.ids().contains_key(k) ==> self.slot(self.ids()[k]) is Some && self.slot(
                self.ids()[k],
            )->0.value == k,
            self.slot(id) is Some ==> self.ids().contains_key(self.slot(id)->0.value)
                && self.ids()[self.slot(id)->0.value] == id && self.slot(id)->0.index == id
                && self.slot(id)->0.accessed_at is Some,
            self.slot(id) is Some ==> !self.free_list().contains(id),
            self.slot(id) is None && id@ < self.size() ==> self.free_list().contains(id),
            self.size() <= InternId::MAX,
    {
        if self.slot(id) is Some && self.free_list().contains(id) {
            let j = choose|j: int| 0 <= j < self.free@.len() && self.free@[j] == id;
            assert(self.values@[self.free@[j]@ as int] is Free);
        }
        if self.slot(id) is None && id@ < self.size() {
            let i = id@ as int;
            assert(self.values@[i] is Free);
            let j = choose|j: int| 0 <= j < self.free@.len() && (#[trigger] self.free@[j])@ == i;
            InternId::lemma_view(self.free@[j], id, 0);
        }
        if self.slot(id) is Some {
            let i = id@ as int;
            assert(self.values@[i] is Present);
            let other = self.map@[self.slot(id)->0.value];
            InternId::lemma_view(other, id, 0);
            InternId::lemma_view(self.slot(id)->0.index, id, 0);
        }
    }

    /// Only identifiers below the size of the list are in use.
    pub proof fn lemma_slot_in_range(self, id: InternId)
        ensures
            self.slot(id) is Some ==> id@ < self.size(),
    {
    }

    /// In well-formed tables a clone of a value is the value.
    pub proof fn lemma_faithful(self, a: K, b: K)
        requires
            self.wf(),
            cloned(a, b),
        ensures
            a == b,
    {
    }

    /// Tables that hold nothing.
    pub fn new() -> (tables: InternTables<K>)
        requires
            obeys_key_model::<K>(),
            clones_faithfully::<K>(),
        ensures
            tables.wf(),
            tables.ids() == Map::<K, InternId>::empty(),
            tables.size() == 0,
            tables.free_list() == Seq::<InternId>::empty(),
    {
        InternTables {
            map: FxHashMap::default(),
            values: Vec::new(),
            first_free: None,
            free: Ghost(Seq::empty()),
        }
    }

    /// Returns the slot at the given index, which must be in use.
    ///
    /// The slot will have its "accessed at" field updated to the current
    /// revision, ensuring that it cannot be GC'd until the current queries
    /// complete.
    pub fn slot_for_index(&mut self, index: InternId, revision_now: Revision) -> (found: Interned)
        requires
            old(self).wf(),
            old(self).slot(index) is Some,
        ensures
            final(self).wf(),
            final(self).ids() == old(self).ids(),
            final(self).size() == old(self).size(),
            final(self).free_list() == old(self).free_list(),
            final(self).slot(index) == Some(
                InternSlot { accessed_at: Some(revision_now), ..old(self).slot(index)->0 },
            ),
            forall|id: InternId| id != index ==> final(self).slot(id) == old(self).slot(id),
            found == (Interned {
                index,
                database_key_index: old(self).slot(index)->0.database_key_index,
                interned_at: old(self).slot(index)->0.interned_at,
            }),
    {
        let i = index.as_usize();
        proof {
            old(self).lemma_round_trip(old(self).slot(index)->0.value, index);
        }
        let mut found = Interned {
            index,
            database_key_index: DatabaseKeyIndex::new(0, 0, 0),
            interned_at: revision_now,
        };
        match &mut self.values[i] {
            InternValue::Present { slot } => {
                slot.try_update_accessed_at(revision_now);
                found =
                Interned {
                    index,
                    database_key_index: slot.database_key_index,
                    interned_at: slot.interned_at,
                };
            },
            InternValue::Free { .. } => {},
        }
        proof {
            assert forall|id: InternId| id != index implies self.slot(id) == old(self).slot(id) by {
                InternId::lemma_view(id, index, 0);
            }
            assert(self.wf()) by {
                assert forall|j: int| 0 <= j < self.free@.len() implies (#[trigger] self.free@[j])@
                    < self.values@.len() by {
                    assert(old(self).values@[old(self).free@[j]@ as int] is Free);
                }
                assert forall|j: int| 0 <= j < self.free@.len() implies #[trigger] self.values@[self.free@[j]@
                    as int]
                    == (InternValue::<K>::Free {
                    next: if j + 1 < self.free@.len() {
                        Some(self.free@[j + 1])
                    } else {
                        None
                    },
                }) by {
                    assert(old(self).values@[old(self).free@[j]@ as int] is Free);
                }
                assert forall|i2: int|
                    0 <= i2 < self.values@.len() && #[trigger] self.values@[i2] is Free implies exists|
                    j: int,
                |
                    0 <= j < self.free@.len() && (#[trigger] self.free@[j])@ == i2 by {
                    assert(old(self).values@[i2] is Free);
                }
                assert forall|k: K| #[trigger]
                    self.map@.contains_key(k) implies self.map@[k]@ < self.values@.len() && (
                self.values@[self.map@[k]@ as int] matches InternValue::Present { slot }
                    && slot.value == k) by {
                    assert(old(self).map@.contains_key(k));
                }
                assert forall|i2: int| 0 <= i2 < self.values@.len() implies (
                #[trigger] self.values@[i2] matches InternValue::Present { slot }
                    ==> self.map@.contains_key(slot.value) && self.map@[slot.value]@ == i2
                    && slot.index@ == i2 && slot.accessed_at is Some) by {
                    assert(old(self).values@[i2] is Present ==> true);
                }
            }
        }
        found
    }

    /// Returns the slot for the given key, if the key has been interned.
    ///
    /// The slot will have its "accessed at" field updated to the current
    /// revision, ensuring that it cannot be GC'd until the current queries
    /// complete.
    pub fn slot_for_key(&mut self, key: &K, revision_now: Revision) -> (found: Option<Interned>)
        requires
            old(self).wf(),
        ensures
            final(self).wf(),
            final(self).ids() == old(self).ids(),
            final(self).size() == old(self).size(),
            final(self).free_list() == old(self).free_list(),
            found is Some == old(self).ids().contains_key(*key),
            found is None ==> forall|id: InternId| final(self).slot(id) == old(self).slot(id),
            found is Some ==> {
                let index = old(self).ids()[*key];
                &&& final(self).slot(index) == Some(
                    InternSlot { accessed_at: Some(revision_now), ..old(self).slot(index)->0 },
                )
                &&& forall|id: InternId| id != index ==> final(self).slot(id) == old(self).slot(id)
                &&& found->0 == (Interned {
                    index,
                    database_key_index: old(self).slot(index)->0.database_key_index,
                    interned_at: old(self).slot(index)->0.interned_at,
                })
            },
    {
        let index = match fx_get(&self.map, key) {
            Some(index) => *index,
            None => {
                return None;
            },
        };
        proof {
            self.lemma_round_trip(*key, index);
        }
        Some(self.slot_for_index(index, revision_now))
    }

    /// What the place `i` holds, if it is in use.
    pub fn present_at(&self, i: usize) -> (found: Option<&InternSlot<K>>)
        requires
            self.wf(),
            i < self.size(),
        ensures
            found is Some == self.slot(InternId::spec_from(i as nat)) is Some,
            found is Some ==> *found->0 == self.slot(InternId::spec_from(i as nat))->0
                && found->0.index == InternId::spec_from(i as nat),
    {
        let id = InternId::from_usize(i);
        proof {
            InternId::lemma_view(id, id, i as nat);
        }
        match &self.values[i] {
            InternValue::Present { slot } => {
                proof {
                    InternId::lemma_view(slot.index, id, 0);
                }
                Some(slot)
            },
            InternValue::Free { .. } => None,
        }
    }

    /// Whether the place `i` holds a value that a sweep may collect.
    pub fn collectable_at(&self, i: usize, last_changed: Revision) -> (yes: bool)
        requires
            self.wf(),
            i < self.size(),
        ensures
            yes == (self.slot(InternId::spec_from(i as nat)) is Some && self.slot(
                InternId::spec_from(i as nat),
            )->0.collectable(last_changed)),
    {
        let id = InternId::from_usize(i);
        proof {
            InternId::lemma_view(id, id, i as nat);
        }
        match &self.values[i] {
            InternValue::Present { slot } => match slot.accessed_at {
                Some(accessed_at) => accessed_at.as_u64() < last_changed.as_u64(),
                None => false,
            },
            InternValue::Free { .. } => false,
        }
    }

    /// Takes back the identifier of the value in the place `i`, which a sweep
    /// may collect: the value is forgotten and the place put at the head of
    /// the free list.
    pub fn collect_at(&mut self, i: usize, last_changed: Revision, revision_now: Revision)
        requires
            old(self).wf(),
            i < old(self).size(),
            old(self).slot(InternId::spec_from(i as nat)) is Some,
            old(self).slot(InternId::spec_from(i as nat))->0.collectable(last_changed),
        ensures
            final(self).wf(),
            final(self).size() == old(self).size(),
            final(self).slot(InternId::spec_from(i as nat)) is None,
            forall|id: InternId|
                id != InternId::spec_from(i as nat) ==> final(self).slot(id) == old(self).slot(id),
            final(self).ids() == old(self).ids().remove(
                old(self).slot(InternId::spec_from(i as nat))->0.value,
            ),
            final(self).free_list() == seq![InternId::spec_from(i as nat)] + old(self).free_list(),
    {
        let ghost before = *self;
        let id = InternId::from_usize(i);
        proof {
            InternId::lemma_view(id, id, i as nat);
        }
        self.values.push(InternValue::Free { next: self.first_free });
        let taken = self.values.swap_remove(i);
        match taken {
            InternValue::Present { slot } => {
                let mut slot = slot;
                let collected = slot.try_collect(last_changed, revision_now);
                assert(collected);
                fx_remove(&mut self.map, &slot.value);
            },
            InternValue::Free { .. } => {},
        }
        self.first_free = Some(id);
        proof {
            self.free@ = seq![id] + before.free@;
            let after = *self;
            let gone = before.values@[i as int]->slot.value;
            assert(before.values@[i as int] is Present);
            assert(before.map@.contains_key(gone) && before.map@[gone]@ == i);
            assert(after.values@ =~= before.values@.update(
                i as int,
                InternValue::Free { next: before.first_free },
            ));
            assert(after.map@ =~= before.map@.remove(gone));
            assert forall|j: int| 0 <= j < before.free@.len() implies before.free@[j]@ != i by {
                assert(before.values@[before.free@[j]@ as int] is Free);
            }
            assert(after.free@.no_duplicates()) by {
                assert forall|a: int, b: int|
                    0 <= a < after.free@.len() && 0 <= b < after.free@.len() && a
                        != b implies after.free@[a] != after.free@[b] by {
                    if a > 0 && b > 0 {
                        assert(before.free@[a - 1] != before.free@[b - 1]);
                    } else if a == 0 {
                        assert(before.free@[b - 1]@ != i);
                    } else {
                        assert(before.free@[a - 1]@ != i);
                    }
                }
            }
            assert forall|j: int| 0 <= j < after.free@.len() implies (#[trigger] after.free@[j])@
                < after.values@.len() by {
                if j > 0 {
                    assert(after.free@[j] == before.free@[j - 1]);
                    assert(before.free@[j - 1]@ != i);
                }
            }
            assert forall|j: int| 0 <= j < after.free@.len() implies #[trigger] after.values@[after.free@[j]@
                as int]
                == (InternValue::<K>::Free {
                next: if j + 1 < after.free@.len() {
                    Some(after.free@[j + 1])
                } else {
                    None
                },
            }) by {
                if j > 0 {
                    assert(after.free@[j] == before.free@[j - 1]);
                    assert(before.free@[j - 1]@ != i);
                }
            }
            assert forall|i2: int|
                0 <= i2 < after.values@.len() && #[trigger] after.values@[i2] is Free implies exists|
                j: int,
            |
                0 <= j < after.free@.len() && (#[trigger] after.free@[j])@ == i2 by {
                if i2 == i {
                    assert(after.free@[0]@ == i2);
                } else {
                    assert(before.values@[i2] is Free);
                    let j0 = choose|j: int|
                        0 <= j < before.free@.len() && (#[trigger] before.free@[j])@ == i2;
                    assert(after.free@[j0 + 1] == before.free@[j0]);
                }
            }
            assert forall|k: K| #[trigger] after.map@.contains_key(k) implies after.map@[k]@
                < after.values@.len() && (after.values@[after.map@[k]@ as int]
                matches InternValue::Present { slot } && slot.value == k) by {
                assert(before.map@.contains_key(k));
                assert(before.values@[before.map@[k]@ as int] is Present);
                assert(before.map@[k]@ != i);
            }
            assert forall|i2: int| 0 <= i2 < after.values@.len() implies (#[trigger] after.values@[i2]
                matches InternValue::Present { slot } ==> after.map@.contains_key(slot.value)
                && after.map@[slot.value]@ == i2 && slot.index@ == i2 && slot.accessed_at is Some) by {
                if i2 != i && before.values@[i2] is Present {
                    assert(before.values@[i2]->slot.value != gone);
                }
            }
            assert forall|id2: InternId| id2 != id implies self.slot(id2) == before.slot(id2) by {
                InternId::lemma_view(id2, id, 0);
            }
        }
    }
}

impl<K: Eq + Hash + Clone> InternedStorage<K> {
    /// The tables of the storage.
    pub closed spec fn tables(self) -> InternTables<K> {
        self.tables
    }

    /// The group and the query that the storage belongs to.
    pub closed spec fn query(self) -> (u16, u16) {
        (self.group_index, self.query_index)
    }

    /// What holds of the storage at all times: its tables are well formed, and
    /// each value is named as a query instance by the storage's group and
    /// query and its own identifier.
    pub closed spec fn wf(self) -> bool {
        &&& self.tables.wf()
        &&& forall|id: InternId| #[trigger]
            self.tables.slot(id) is Some ==> self.tables.slot(id)->0.database_key_index.parts() == (
                self.group_index,
                self.query_index,
                id@ as u32,
            )
    }

    /// What `wf` says of the names.
    pub proof fn lemma_wf(self, id: InternId)
        requires
            self.wf(),
        ensures
            self.tables().wf(),
            self.tables().slot(id) is Some ==> self.tables().slot(id)->0.database_key_index.parts()
                == (self.query().0, self.query().1, id@ as u32),
    {
    }

    /// The storage of the query `query_index` of the group `group_index`,
    /// with nothing interned.
    pub fn new(group_index: u16, query_index: u16) -> (storage: InternedStorage<K>)
        requires
            obeys_key_model::<K>(),
            clones_faithfully::<K>(),
        ensures
            storage.wf(),
            storage.query() == (group_index, query_index),
            storage.tables().ids() == Map::<K, InternId>::empty(),
            storage.tables().size() == 0,
            storage.tables().free_list() == Seq::<InternId>::empty(),
    {
        let storage = InternedStorage { group_index, query_index, tables: InternTables::new() };
        assert forall|id: InternId| storage.tables.slot(id) is None by {}
        storage
    }

    /// Whether a value that has not been interned yet can be given a place:
    /// a place is free, or the list can still grow.
    pub open spec fn spec_has_room(tables: InternTables<K>) -> bool {
        tables.free_list().len() > 0 || tables.size() < InternId::MAX
    }

    /// Whether a value that has not been interned yet can be given a place.
    pub fn has_room(&self) -> (room: bool)
        requires
            self.wf(),
        ensures
            room == Self::spec_has_room(self.tables()),
    {
        self.tables.first_free.is_some() || self.tables.values.len() < InternId::MAX as usize
    }

    /// Whether the identifier `index` names a value that is interned.
    pub fn is_in_use(&self, index: InternId) -> (used: bool)
        requires
            self.wf(),
        ensures
            used == self.tables().slot(index) is Some,
    {
        let i = index.as_usize();
        if i < self.tables.values.len() {
            match &self.tables.values[i] {
                InternValue::Present { .. } => true,
                InternValue::Free { .. } => false,
            }
        } else {
            false
        }
    }

    /// Whether `after` is `before` with the value under `index` accessed in
    /// the revision `now`, and nothing else changed: not the identifiers, not
    /// the other places, not the free list.
    pub open spec fn is_accessed(
        after: InternTables<K>,
        before: InternTables<K>,
        index: InternId,
        now: Revision,
    ) -> bool {
        &&& after.ids() == before.ids()
        &&& after.size() == before.size()
        &&& after.free_list() == before.free_list()
        &&& after.slot(index) == Some(
            InternSlot { accessed_at: Some(now), ..before.slot(index)->0 },
        )
        &&& forall|id: InternId| id != index ==> after.slot(id) == before.slot(id)
    }

    /// Whether `after` is `before` with `key` interned under `index` in the
    /// revision `now`: a value that was interned before keeps its identifier
    /// and counts as accessed in `now`; a new value is put into the next
    /// place, which is taken off the free list or added at the end, as
    /// interned and accessed in `now`. Nothing else changes.
    pub open spec fn is_interned(
        after: InternTables<K>,
        before: InternTables<K>,
        key: K,
        index: InternId,
        now: Revision,
    ) -> bool {
        if before.ids().contains_key(key) {
            index == before.ids()[key] && Self::is_accessed(after, before, index, now)
        } else {
            &&& index == Self::next_place(before)
            &&& after.ids() == before.ids().insert(key, index)
            &&& after.pinned(key, index, now)
            &&& after.slot(index)->0.interned_at == now
            &&& forall|id: InternId| id != index ==> after.slot(id) == before.slot(id)
            &&& after.free_list() == if before.free_list().len() > 0 {
                before.free_list().drop_first()
            } else {
                before.free_list()
            }
            &&& after.size() == if before.free_list().len() > 0 {
                before.size()
            } else {
                before.size() + 1
            }
        }
    }

    /// The place that the next new value is put in: the first free one, or a
    /// new one at the end of the list where none is free.
    pub open spec fn next_place(tables: InternTables<K>) -> InternId {
        if tables.free_list().len() > 0 {
            tables.free_list()[0]
        } else {
            InternId::spec_from(tables.size())
        }
    }

    /// If `key` has already been interned, returns its slot. Otherwise,
    /// creates a new slot, in the first free place or, where none is free, in
    /// a new one.
    ///
    /// In either case, the `accessed_at` field of the slot is updated
    /// to the current revision, ensuring that the slot cannot be GC'd
    /// while the current queries execute.
    pub fn intern_index(&mut self, key: &K, revision_now: Revision) -> (found: Interned)
        requires
            old(self).wf(),
            old(self).tables().ids().contains_key(*key) || Self::spec_has_room(old(self).tables()),
        ensures
            final(self).wf(),
            final(self).query() == old(self).query(),
            Self::is_interned(
                final(self).tables(),
                old(self).tables(),
                *key,
                found.index,
                revision_now,
            ),
            final(self).tables().pinned(*key, found.index, revision_now),
            final(self).tables().ids() == old(self).tables().ids().insert(*key, found.index),
            forall|id: InternId|
                id != found.index ==> final(self).tables().slot(id) == old(self).tables().slot(id),
            forall|k: K, id: InternId|
                old(self).tables().pinned(k, id, revision_now) ==> final(self).tables().pinned(
                    k,
                    id,
                    revision_now,
                ),
            found.database_key_index == final(self).tables().slot(found.index)->0.database_key_index,
            found.database_key_index.parts() == (
                old(self).query().0,
                old(self).query().1,
                found.index@ as u32,
            ),
            found.interned_at == final(self).tables().slot(found.index)->0.interned_at,
            old(self).tables().ids().contains_key(*key) ==> {
                &&& found.index == old(self).tables().ids()[*key]
                &&& final(self).tables().slot(found.index) == Some(
                    InternSlot {
                        accessed_at: Some(revision_now),
                        ..old(self).tables().slot(found.index)->0
                    },
                )
                &&& final(self).tables().size() == old(self).tables().size()
                &&& final(self).tables().free_list() == old(self).tables().free_list()
            },
            !old(self).tables().ids().contains_key(*key) ==> {
                &&& found.index == Self::next_place(old(self).tables())
                &&& found.interned_at == revision_now
                &&& final(self).tables().free_list() == if old(self).tables().free_list().len() > 0 {
                    old(self).tables().free_list().drop_first()
                } else {
                    old(self).tables().free_list()
                }
                &&& final(self).tables().size() == if old(self).tables().free_list().len() > 0 {
                    old(self).tables().size()
                } else {
                    old(self).tables().size() + 1
                }
            },
    {
        match self.intern_check(key, revision_now) {
            Some(found) => {
                assert(self.tables.map@ =~= old(self).tables.map@.insert(*key, found.index));
                return found;
            },
            None => {},
        }
        let owned_key1 = key.clone();
        let owned_key2 = key.clone();
        assert(cloned(*key, owned_key1) && cloned(*key, owned_key2));
        assert(owned_key1 == *key && owned_key2 == *key);
        let ghost before = self.tables;
        let index = match self.tables.first_free {
            None => InternId::from_usize(self.tables.values.len()),
            Some(i) => i,
        };
        proof {
            if before.free@.len() > 0 {
                assert(before.free@[0]@ < before.values@.len());
                assert(before.values@[before.free@[0]@ as int] is Free);
            }
            InternId::lemma_view(index, index, before.values@.len());
        }
        let database_key_index = DatabaseKeyIndex::new(
            self.group_index,
            self.query_index,
            index.as_u32(),
        );
        let slot = InternSlot {
            index,
            database_key_index,
            value: owned_key2,
            interned_at: revision_now,
            accessed_at: Some(revision_now),
        };
        match self.tables.first_free {
            None => {
                self.tables.values.push(InternValue::Present { slot });
            },
            Some(i) => {
                let next_free = match &self.tables.values[i.as_usize()] {
                    InternValue::Free { next } => *next,
                    InternValue::Present { .. } => None,
                };
                self.tables.values.set(i.as_usize(), InternValue::Present { slot });
                self.tables.first_free = next_free;
                proof {
                    self.tables.free@ = before.free@.drop_first();
                }
            },
        }
        fx_insert(&mut self.tables.map, owned_key1, index);
        proof {
            let after = self.tables;
            let at = index@ as int;
            assert(after.values@[at] == (InternValue::Present { slot }));
            assert forall|i: int| 0 <= i < after.values@.len() && i != at implies after.values@[i]
                == before.values@[i] by {}
            assert forall|id: InternId| id != index implies self.tables.slot(id) == before.slot(
                id,
            ) by {
                InternId::lemma_view(id, index, 0);
            }
            assert forall|k: K| #[trigger] after.map@.contains_key(k) implies after.map@[k]@
                < after.values@.len() && (after.values@[after.map@[k]@ as int]
                matches InternValue::Present { slot } && slot.value == k) by {
                if k != *key {
                    assert(before.map@.contains_key(k));
                    assert(before.values@[before.map@[k]@ as int] is Present);
                }
            }
            assert forall|i: int| 0 <= i < after.values@.len() implies (#[trigger] after.values@[i]
                matches InternValue::Present { slot } ==> after.map@.contains_key(slot.value)
                && after.map@[slot.value]@ == i && slot.index@ == i && slot.accessed_at is Some) by {
                if i != at {
                    if before.values@[i] is Present {
                        assert(before.values@[i]->slot.value != *key);
                    }
                }
            }
            assert(after.free@.no_duplicates());
            assert forall|j: int| 0 <= j < after.free@.len() implies (#[trigger] after.free@[j])@
                < after.values@.len() by {
                if before.free@.len() > 0 {
                    assert(after.free@[j] == before.free@[j + 1]);
                    assert(before.free@[j + 1] != before.free@[0]);
                    InternId::lemma_view(before.free@[j + 1], before.free@[0], 0);
                } else {
                    assert(after.free@[j] == before.free@[j]);
                }
            }
            assert forall|j: int| 0 <= j < after.free@.len() implies #[trigger] after.values@[after.free@[j]@
                as int]
                == (InternValue::<K>::Free {
                next: if j + 1 < after.free@.len() {
                    Some(after.free@[j + 1])
                } else {
                    None
                },
            }) by {
                if before.free@.len() > 0 {
                    assert(after.free@[j] == before.free@[j + 1]);
                    assert(before.free@[j + 1] != before.free@[0]);
                    InternId::lemma_view(before.free@[j + 1], before.free@[0], 0);
                } else {
                    assert(after.free@[j] == before.free@[j]);
                }
            }
            assert forall|i: int|
                0 <= i < after.values@.len() && #[trigger] after.values@[i] is Free implies exists|
                j: int,
            |
                0 <= j < after.free@.len() && (#[trigger] after.free@[j])@ == i by {
                assert(before.values@[i] is Free);
                let j0 = choose|j: int| 0 <= j < before.free@.len() && (#[trigger] before.free@[j])@ == i;
                if before.free@.len() > 0 {
                    assert(j0 != 0);
                    assert(after.free@[j0 - 1] == before.free@[j0]);
                }
            }
            assert(after.wf());
            assert forall|id: InternId| #[trigger]
                self.tables.slot(id) is Some implies self.tables.slot(id)->0.database_key_index.parts()
                == (self.group_index, self.query_index, id@ as u32) by {
                if id != index {
                    assert(before.slot(id) is Some);
                } else {
                    InternId::lemma_view(id, index, 0);
                }
            }
            assert forall|k: K, id: InternId|
                old(self).tables().pinned(k, id, revision_now) implies self.tables.pinned(
                k,
                id,
                revision_now,
            ) by {
                if id == index {
                    assert(before.slot(id) is Some);
                }
            }
            assert(self.tables.map@ =~= old(self).tables.map@.insert(*key, index));
        }
        Interned { index, database_key_index, interned_at: revision_now }
    }

    /// The slot of `key` if it has been interned; its `accessed_at` field is
    /// then updated to the current revision.
    pub fn intern_check(&mut self, key: &K, revision_now: Revision) -> (found: Option<Interned>)
        requires
            old(self).wf(),
        ensures
            final(self).wf(),
            final(self).query() == old(self).query(),
            final(self).tables().ids() == old(self).tables().ids(),
            final(self).tables().size() == old(self).tables().size(),
            final(self).tables().free_list() == old(self).tables().free_list(),
            found is Some == old(self).tables().ids().contains_key(*key),
            found is None ==> final(self).tables() == old(self).tables(),
            forall|k: K, id: InternId|
                old(self).tables().pinned(k, id, revision_now) ==> final(self).tables().pinned(
                    k,
                    id,
                    revision_now,
                ),
            found is Some ==> {
                let index = old(self).tables().ids()[*key];
                &&& final(self).tables().pinned(*key, index, revision_now)
                &&& final(self).tables().slot(index) == Some(
                    InternSlot {
                        accessed_at: Some(revision_now),
                        ..old(self).tables().slot(index)->0
                    },
                )
                &&& forall|id: InternId|
                    id != index ==> final(self).tables().slot(id) == old(self).tables().slot(id)
                &&& found->0 == (Interned {
                    index,
                    database_key_index: old(self).tables().slot(index)->0.database_key_index,
                    interned_at: old(self).tables().slot(index)->0.interned_at,
                })
            },
    {
        let ghost before = self.tables;
        let found = match fx_get(&self.tables.map, key) {
            Some(index) => {
                let index = *index;
                proof {
                    self.tables.lemma_round_trip(*key, index);
                }
                Some(self.tables.slot_for_index(index, revision_now))
            },
            None => None,
        };
        proof {
            assert forall|id: InternId| #[trigger]
                self.tables.slot(id) is Some implies self.tables.slot(id)->0.database_key_index.parts()
                == (self.group_index, self.query_index, id@ as u32) by {
                assert(before.slot(id) is Some);
            }
            assert forall|k: K, id: InternId|
                old(self).tables().pinned(k, id, revision_now) implies self.tables.pinned(
                k,
                id,
                revision_now,
            ) by {
                assert(before.slot(id) is Some);
            }
        }
        found
    }

    /// Given an index that is in use, looks up its slot, updating the
    /// `accessed_at` time to the current revision.
    pub fn lookup_value(&mut self, index: InternId, revision_now: Revision) -> (found: Interned)
        requires
            old(self).wf(),
            old(self).tables().slot(index) is Some,
        ensures
            final(self).wf(),
            final(self).query() == old(self).query(),
            final(self).tables().ids() == old(self).tables().ids(),
            final(self).tables().size() == old(self).tables().size(),
            final(self).tables().free_list() == old(self).tables().free_list(),
            Self::is_accessed(final(self).tables(), old(self).tables(), index, revision_now),
            final(self).tables().slot(index) == Some(
                InternSlot { accessed_at: Some(revision_now), ..old(self).tables().slot(index)->0 },
            ),
            final(self).tables().pinned(
                old(self).tables().slot(index)->0.value,
                index,
                revision_now,
            ),
            forall|id: InternId|
                id != index ==> final(self).tables().slot(id) == old(self).tables().slot(id),
            forall|k: K, id: InternId|
                old(self).tables().pinned(k, id, revision_now) ==> final(self).tables().pinned(
                    k,
                    id,
                    revision_now,
                ),
            found == (Interned {
                index,
                database_key_index: old(self).tables().slot(index)->0.database_key_index,
                interned_at: old(self).tables().slot(index)->0.interned_at,
            }),
    {
        let ghost before = self.tables;
        proof {
            before.lemma_round_trip(before.slot(index)->0.value, index);
        }
        let found = self.tables.slot_for_index(index, revision_now);
        proof {
            assert forall|id: InternId| #[trigger]
                self.tables.slot(id) is Some implies self.tables.slot(id)->0.database_key_index.parts()
                == (self.group_index, self.query_index, id@ as u32) by {
                assert(before.slot(id) is Some);
            }
            assert forall|k: K, id: InternId|
                old(self).tables().pinned(k, id, revision_now) implies self.tables.pinned(
                k,
                id,
                revision_now,
            ) by {
                assert(before.slot(id) is Some);
            }
        }
        found
    }

    /// The value that is interned under `index`, which must be in use.
    pub fn value(&self, index: InternId) -> (value: &K)
        requires
            self.wf(),
            self.tables().slot(index) is Some,
        ensures
            *value == self.tables().slot(index)->0.value,
    {
        match &self.tables.values[index.as_usize()] {
            InternValue::Present { slot } => &slot.value,
            InternValue::Free { .. } => vstd::pervasive::unreached(),
        }
    }

    /// The durability that interned values are read with.
    pub fn durability(&self) -> (d: Durability)
        ensures
            d == intern_durability(),
    {
        Durability::HIGH
    }

    /// The identifier of `key` if it has been interned; the value then counts
    /// as accessed in the current revision.
    pub fn peek(&mut self, key: &K, revision_now: Revision) -> (id: Option<InternId>)
        requires
            old(self).wf(),
        ensures
            final(self).wf(),
            final(self).query() == old(self).query(),
            final(self).tables().ids() == old(self).tables().ids(),
            id == if old(self).tables().ids().contains_key(*key) {
                Some(old(self).tables().ids()[*key])
            } else {
                None
            },
            id is None ==> final(self).tables() == old(self).tables(),
            id is Some ==> Self::is_accessed(
                final(self).tables(),
                old(self).tables(),
                id->0,
                revision_now,
            ),
            id is Some ==> final(self).tables().pinned(*key, id->0, revision_now),
            forall|k: K, i: InternId|
                old(self).tables().pinned(k, i, revision_now) ==> final(self).tables().pinned(
                    k,
                    i,
                    revision_now,
                ),
    {
        match self.intern_check(key, revision_now) {
            Some(found) => Some(found.index),
            None => None,
        }
    }

    /// Whether the value interned as `input` may have changed since
    /// `revision`: whether it was interned after it. `input` must name a value
    /// of this storage that is in use; the value counts as accessed in the
    /// current revision.
    pub fn maybe_changed_since(
        &mut self,
        input: DatabaseKeyIndex,
        revision: Revision,
        revision_now: Revision,
    ) -> (changed: bool)
        requires
            old(self).wf(),
            input.parts().0 == old(self).query().0,
            input.parts().1 == old(self).query().1,
            input.parts().2 < InternId::MAX,
            old(self).tables().slot(InternId::spec_from(input.parts().2 as nat)) is Some,
        ensures
            final(self).wf(),
            final(self).query() == old(self).query(),
            final(self).tables().ids() == old(self).tables().ids(),
            changed == (old(self).tables().slot(
                InternId::spec_from(input.parts().2 as nat),
            )->0.interned_at@ > revision@),
            Self::is_accessed(
                final(self).tables(),
                old(self).tables(),
                InternId::spec_from(input.parts().2 as nat),
                revision_now,
            ),
            forall|k: K, id: InternId|
                old(self).tables().pinned(k, id, revision_now) ==> final(self).tables().pinned(
                    k,
                    id,
                    revision_now,
                ),
    {
        let intern_id = InternId::from_u32(input.key_index());
        let found = self.lookup_value(intern_id, revision_now);
        found.interned_at.as_u64() > revision.as_u64()
    }

    /// Interns `key` for the query that `runtime` is running: returns the
    /// identifier of the value, interning it first if need be, and records in
    /// the frame of the running query that it read the value.
    pub fn try_fetch(&mut self, runtime: &mut Runtime, key: &K, revision_now: Revision) -> (id:
        InternId)
        requires
            old(self).wf(),
            old(self).tables().ids().contains_key(*key) || Self::spec_has_room(old(self).tables()),
        ensures
            final(self).wf(),
            final(self).query() == old(self).query(),
            Self::is_interned(final(self).tables(), old(self).tables(), *key, id, revision_now),
            final(self).tables().slot(id)->0.database_key_index.parts() == (
                old(self).query().0,
                old(self).query().1,
                id@ as u32,
            ),
            final(self).tables().pinned(*key, id, revision_now),
            final(self).tables().ids() == old(self).tables().ids().insert(*key, id),
            old(self).tables().ids().contains_key(*key) ==> id == old(self).tables().ids()[*key],
            !old(self).tables().ids().contains_key(*key) ==> id == Self::next_place(
                old(self).tables(),
            ),
            forall|k: K, i: InternId|
                old(self).tables().pinned(k, i, revision_now) ==> final(self).tables().pinned(
                    k,
                    i,
                    revision_now,
                ),
            final(runtime).same_but_stack(*old(runtime)),
            final(runtime).stack() == with_top(
                old(runtime).stack(),
                old(runtime).stack().last().after_read(
                    final(self).tables().slot(id)->0.database_key_index,
                    intern_durability(),
                    final(self).tables().slot(id)->0.interned_at,
                ),
            ),
    {
        let found = self.intern_index(key, revision_now);
        runtime.report_query_read(found.database_key_index, Durability::HIGH, found.interned_at);
        found.index
    }

    /// Completely clears the storage.
    pub fn purge(&mut self)
        requires
            old(self).wf(),
        ensures
            final(self).wf(),
            final(self).query() == old(self).query(),
            final(self).tables().ids() == Map::<K, InternId>::empty(),
            final(self).tables().size() == 0,
            final(self).tables().free_list() == Seq::<InternId>::empty(),
    {
        self.tables = InternTables::new();
        assert forall|id: InternId| self.tables.slot(id) is None by {}
    }
}

impl<K: Eq + Hash + Clone> InternedStorage<K> {
    /// Whether a sweep with `strategy` takes back the identifier `id`: the
    /// strategy discards at all, and the value held under `id` was last
    /// accessed before the revision `last_changed`.
    pub open spec fn is_swept(
        tables: InternTables<K>,
        id: InternId,
        last_changed: Revision,
        strategy: SweepStrategy,
    ) -> bool {
        &&& strategy.discard_if != DiscardIf::Never
        &&& tables.slot(id) is Some
        &&& tables.slot(id)->0.collectable(last_changed)
    }

    /// The places among the first `upto` that a sweep takes back, the highest
    /// first.
    pub open spec fn swept_places(
        tables: InternTables<K>,
        upto: nat,
        last_changed: Revision,
        strategy: SweepStrategy,
    ) -> Seq<InternId>
        decreases upto,
    {
        if upto == 0 {
            Seq::empty()
        } else {
            let rest = Self::swept_places(tables, (upto - 1) as nat, last_changed, strategy);
            if Self::is_swept(tables, InternId::spec_from((upto - 1) as nat), last_changed, strategy) {
                seq![InternId::spec_from((upto - 1) as nat)] + rest
            } else {
                rest
            }
        }
    }

    /// Takes back the identifiers of the values that have not been accessed
    /// since a value of the interning durability last changed, unless the
    /// strategy discards nothing. The places that come free are put on the
    /// free list. A value that was accessed in the current revision always
    /// stays, whatever the strategy.
    pub fn sweep(&mut self, shared: &SharedState, strategy: SweepStrategy)
        requires
            old(self).wf(),
            shared.wf(),
        ensures
            final(self).wf(),
            final(self).query() == old(self).query(),
            final(self).tables().size() == old(self).tables().size(),
            final(self).tables().free_list() == Self::swept_places(
                old(self).tables(),
                old(self).tables().size(),
                shared.last_changed(intern_durability()),
                strategy,
            ) + old(self).tables().free_list(),
            forall|id: InternId| #[trigger]
                final(self).tables().slot(id) == if Self::is_swept(
                    old(self).tables(),
                    id,
                    shared.last_changed(intern_durability()),
                    strategy,
                ) {
                    None
                } else {
                    old(self).tables().slot(id)
                },
            forall|k: K| #[trigger]
                final(self).tables().ids().contains_key(k) == (old(self).tables().ids().contains_key(
                    k,
                ) && !Self::is_swept(
                    old(self).tables(),
                    old(self).tables().ids()[k],
                    shared.last_changed(intern_durability()),
                    strategy,
                )),
            forall|k: K| #[trigger]
                final(self).tables().ids().contains_key(k) ==>
                    final(self).tables().ids()[k] == old(self).tables().ids()[k],
            forall|k: K, id: InternId|
                old(self).tables().pinned(k, id, shared.current()) ==> final(self).tables().pinned(
                    k,
                    id,
                    shared.current(),
                ),
    {
        let last_changed = shared.last_changed_revision(Durability::HIGH);
        let revision_now = shared.current_revision();
        proof {
            shared.lemma_wf();
        }
        let n = self.tables.values.len();
        let discards = match strategy.discard_if {
            DiscardIf::Never => false,
            _ => true,
        };
        let ghost first = self.tables;
        let mut i: usize = 0;
        proof {
            assert(Self::swept_places(first, 0, last_changed, strategy) + first.free_list()
                =~= first.free_list());
            if !discards {
                Self::lemma_nothing_swept(first, n as nat, last_changed, strategy);
                assert(Self::swept_places(first, n as nat, last_changed, strategy)
                    + first.free_list() =~= first.free_list());
            }
        }
        while discards && i < n
            invariant
                i <= n,
                n == self.tables.size(),
                n == first.size(),
                n <= InternId::MAX,
                first == old(self).tables,
                discards == (strategy.discard_if != DiscardIf::Never),
                !discards ==> i == 0,
                self.tables.wf(),
                first.wf(),
                self.group_index == old(self).group_index,
                self.query_index == old(self).query_index,
                self.tables.free_list() == Self::swept_places(
                    first,
                    i as nat,
                    last_changed,
                    strategy,
                ) + first.free_list(),
                forall|id: InternId| #[trigger]
                    self.tables.slot(id) == if id@ < i && Self::is_swept(
                        first,
                        id,
                        last_changed,
                        strategy,
                    ) {
                        None
                    } else {
                        first.slot(id)
                    },
                forall|k: K| #[trigger]
                    self.tables.ids().contains_key(k) == (first.ids().contains_key(k) && !(
                    first.ids()[k]@ < i && Self::is_swept(
                        first,
                        first.ids()[k],
                        last_changed,
                        strategy,
                    ))),
                forall|k: K| #[trigger]
                    self.tables.ids().contains_key(k) ==> self.tables.ids()[k] == first.ids()[k],
            decreases n - i,
        {
            let ghost id_i = InternId::spec_from(i as nat);
            let ghost before = self.tables;
            proof {
                InternId::lemma_view(id_i, id_i, i as nat);
                assert(before.slot(id_i) == first.slot(id_i));
            }
            if self.tables.collectable_at(i, last_changed) {
                self.tables.collect_at(i, last_changed, revision_now);
                proof {
                    assert(self.tables.free_list() =~= Self::swept_places(
                        first,
                        (i + 1) as nat,
                        last_changed,
                        strategy,
                    ) + first.free_list());
                    let gone = first.slot(id_i)->0.value;
                    first.lemma_round_trip(gone, id_i);
                    Self::lemma_sweep_step(
                        first,
                        before,
                        self.tables,
                        i as nat,
                        last_changed,
                        strategy,
                    );
                }
            } else {
                proof {
                    Self::lemma_sweep_skip(first, before, i as nat, last_changed, strategy);
                }
            }
            i = i + 1;
        }
        proof {
            if !discards {
                Self::lemma_nothing_swept(first, n as nat, last_changed, strategy);
                assert(Self::swept_places(first, n as nat, last_changed, strategy)
                    + first.free_list() =~= first.free_list());
            }
            assert forall|id: InternId| #[trigger]
                self.tables.slot(id) == if Self::is_swept(first, id, last_changed, strategy) {
                    None
                } else {
                    first.slot(id)
                } by {
                if !discards {
                } else if id@ >= n {
                    assert(first.slot(id) is None);
                }
            }
            assert forall|k: K| #[trigger]
                self.tables.ids().contains_key(k) == (first.ids().contains_key(k) && !Self::is_swept(
                    first,
                    first.ids()[k],
                    last_changed,
                    strategy,
                )) by {
                if first.ids().contains_key(k) {
                    first.lemma_round_trip(k, first.ids()[k]);
                    assert(first.slot(first.ids()[k]) is Some);
                }
            }
            assert forall|id: InternId| #[trigger]
                self.tables.slot(id) is Some implies self.tables.slot(id)->0.database_key_index.parts()
                == (self.group_index, self.query_index, id@ as u32) by {
                assert(first.slot(id) is Some);
            }
            assert forall|k: K, id: InternId|
                first.pinned(k, id, shared.current()) implies self.tables.pinned(
                k,
                id,
                shared.current(),
            ) by {
                assert(!Self::is_swept(first, id, last_changed, strategy));
                assert(self.tables.slot(id) == first.slot(id));
                assert(self.tables.ids().contains_key(k));
            }
        }
    }

    /// A sweep that never discards takes back no place.
    proof fn lemma_nothing_swept(
        tables: InternTables<K>,
        upto: nat,
        last_changed: Revision,
        strategy: SweepStrategy,
    )
        requires
            strategy.discard_if == DiscardIf::Never,
        ensures
            Self::swept_places(tables, upto, last_changed, strategy) == Seq::<InternId>::empty(),
        decreases upto,
    {
        if upto > 0 {
            Self::lemma_nothing_swept(tables, (upto - 1) as nat, last_changed, strategy);
        }
    }

    /// What one step of a sweep that collects the place `i` keeps true.
    proof fn lemma_sweep_step(
        first: InternTables<K>,
        before: InternTables<K>,
        after: InternTables<K>,
        i: nat,
        last_changed: Revision,
        strategy: SweepStrategy,
    )
        requires
            first.wf(),
            i < first.size(),
            i < InternId::MAX,
            strategy.discard_if != DiscardIf::Never,
            first.slot(InternId::spec_from(i)) is Some,
            first.slot(InternId::spec_from(i))->0.collectable(last_changed),
            before.slot(InternId::spec_from(i)) == first.slot(InternId::spec_from(i)),
            forall|id: InternId| #[trigger]
                before.slot(id) == if id@ < i && Self::is_swept(first, id, last_changed, strategy) {
                    None
                } else {
                    first.slot(id)
                },
            forall|k: K| #[trigger]
                before.ids().contains_key(k) == (first.ids().contains_key(k) && !(first.ids()[k]@ < i
                    && Self::is_swept(first, first.ids()[k], last_changed, strategy))),
            forall|k: K| #[trigger] before.ids().contains_key(k) ==> before.ids()[k] == first.ids()[k],
            after.slot(InternId::spec_from(i)) is None,
            forall|id: InternId|
                id != InternId::spec_from(i) ==> after.slot(id) == before.slot(id),
            after.ids() == before.ids().remove(before.slot(InternId::spec_from(i))->0.value),
        ensures
            forall|id: InternId| #[trigger]
                after.slot(id) == if id@ < i + 1 && Self::is_swept(
                    first,
                    id,
                    last_changed,
                    strategy,
                ) {
                    None
                } else {
                    first.slot(id)
                },
            forall|k: K| #[trigger]
                after.ids().contains_key(k) == (first.ids().contains_key(k) && !(first.ids()[k]@ < i
                    + 1 && Self::is_swept(first, first.ids()[k], last_changed, strategy))),
            forall|k: K| #[trigger] after.ids().contains_key(k) ==> after.ids()[k] == first.ids()[k],
    {
        let id_i = InternId::spec_from(i);
        let gone = first.slot(id_i)->0.value;
        InternId::lemma_view(id_i, id_i, i);
        first.lemma_round_trip(gone, id_i);
        assert forall|id: InternId| #[trigger]
            after.slot(id) == if id@ < i + 1 && Self::is_swept(first, id, last_changed, strategy) {
                None
            } else {
                first.slot(id)
            } by {
            InternId::lemma_view(id, id_i, 0);
            if id != id_i {
                assert(after.slot(id) == before.slot(id));
            }
        }
        assert forall|k: K| #[trigger]
            after.ids().contains_key(k) == (first.ids().contains_key(k) && !(first.ids()[k]@ < i + 1
                && Self::is_swept(first, first.ids()[k], last_changed, strategy))) by {
            assert(before.ids().contains_key(k) == (first.ids().contains_key(k) && !(
            first.ids()[k]@ < i && Self::is_swept(first, first.ids()[k], last_changed, strategy))));
            if first.ids().contains_key(k) {
                first.lemma_round_trip(k, first.ids()[k]);
                InternId::lemma_view(first.ids()[k], id_i, 0);
            }
        }
        assert forall|k: K| #[trigger] after.ids().contains_key(k) implies after.ids()[k]
            == first.ids()[k] by {
            assert(before.ids().contains_key(k));
        }
    }

    /// What one step of a sweep that leaves the place `i` alone keeps true.
    proof fn lemma_sweep_skip(
        first: InternTables<K>,
        before: InternTables<K>,
        i: nat,
        last_changed: Revision,
        strategy: SweepStrategy,
    )
        requires
            first.wf(),
            i < first.size(),
            i < InternId::MAX,
            strategy.discard_if != DiscardIf::Never,
            !(first.slot(InternId::spec_from(i)) is Some && first.slot(
                InternId::spec_from(i),
            )->0.collectable(last_changed)),
            forall|id: InternId| #[trigger]
                before.slot(id) == if id@ < i && Self::is_swept(first, id, last_changed, strategy) {
                    None
                } else {
                    first.slot(id)
                },
            forall|k: K| #[trigger]
                before.ids().contains_key(k) == (first.ids().contains_key(k) && !(first.ids()[k]@ < i
                    && Self::is_swept(first, first.ids()[k], last_changed, strategy))),
        ensures
            forall|id: InternId| #[trigger]
                before.slot(id) == if id@ < i + 1 && Self::is_swept(
                    first,
                    id,
                    last_changed,
                    strategy,
                ) {
                    None
                } else {
                    first.slot(id)
                },
            forall|k: K| #[trigger]
                before.ids().contains_key(k) == (first.ids().contains_key(k) && !(first.ids()[k]@ < i
                    + 1 && Self::is_swept(first, first.ids()[k], last_changed, strategy))),
    {
        let id_i = InternId::spec_from(i);
        InternId::lemma_view(id_i, id_i, i);
        assert forall|id: InternId| #[trigger]
            before.slot(id) == if id@ < i + 1 && Self::is_swept(first, id, last_changed, strategy) {
                None
            } else {
                first.slot(id)
            } by {
            InternId::lemma_view(id, id_i, 0);
        }
        assert forall|k: K| #[trigger]
            before.ids().contains_key(k) == (first.ids().contains_key(k) && !(first.ids()[k]@ < i + 1
                && Self::is_swept(first, first.ids()[k], last_changed, strategy))) by {
            assert(before.ids().contains_key(k) == (first.ids().contains_key(k) && !(
            first.ids()[k]@ < i && Self::is_swept(first, first.ids()[k], last_changed, strategy))));
            if first.ids().contains_key(k) {
                InternId::lemma_view(first.ids()[k], id_i, 0);
            }
        }
    }

    /// A value that was accessed in the current revision is never taken back
    /// by a sweep: as long as the database stays in that revision, the value
    /// keeps its identifier.
    pub proof fn lemma_pinned_is_never_swept(
        tables: InternTables<K>,
        k: K,
        id: InternId,
        shared: SharedState,
        strategy: SweepStrategy,
    )
        requires
            shared.wf(),
            tables.pinned(k, id, shared.current()),
        ensures
            !Self::is_swept(tables, id, shared.last_changed(intern_durability()), strategy),
    {
        shared.lemma_wf();
    }

    /// The values that are interned, each with its identifier, in the order of
    /// the identifiers.
    pub fn entries(&self) -> (entries: Vec<(K, InternId)>)
        requires
            self.wf(),
        ensures
            forall|j: int|
                0 <= j < entries@.len() ==> self.tables().ids().contains_key(
                    (#[trigger] entries@[j]).0,
                ) && self.tables().ids()[entries@[j].0] == entries@[j].1,
            forall|k: K|
                self.tables().ids().contains_key(k) ==> exists|j: int|
                    0 <= j < entries@.len() && #[trigger] entries@[j] == (k, self.tables().ids()[k]),
            forall|a: int, b: int|
                0 <= a < b < entries@.len() ==> (#[trigger] entries@[a]).1@ < (
                #[trigger] entries@[b]).1@,
    {
        let mut entries: Vec<(K, InternId)> = Vec::new();
        let n = self.tables.values.len();
        let mut i: usize = 0;
        while i < n
            invariant
                i <= n,
                n == self.tables.size(),
                n <= InternId::MAX,
                self.tables.wf(),
                forall|j: int|
                    0 <= j < entries@.len() ==> self.tables.slot((#[trigger] entries@[j]).1) is Some
                        && self.tables.slot(entries@[j].1)->0.value == entries@[j].0,
                forall|j: int| 0 <= j < entries@.len() ==> (#[trigger] entries@[j]).1@ < i,
                forall|a: int, b: int|
                    0 <= a < b < entries@.len() ==> (#[trigger] entries@[a]).1@ < (
                    #[trigger] entries@[b]).1@,
                forall|id: InternId|
                    id@ < i && #[trigger] self.tables.slot(id) is Some ==> exists|j: int|
                        0 <= j < entries@.len() && #[trigger] entries@[j] == (
                            self.tables.slot(id)->0.value,
                            id,
                        ),
            decreases n - i,
        {
            let ghost before = entries@;
            let ghost id_i = InternId::spec_from(i as nat);
            proof {
                InternId::lemma_view(id_i, id_i, i as nat);
            }
            match self.tables.present_at(i) {
                Some(slot) => {
                    let owned = slot.value.clone();
                    proof {
                        self.tables.lemma_faithful(slot.value, owned);
                    }
                    entries.push((owned, slot.index));
                    proof {
                        assert forall|id2: InternId|
                            id2@ < i + 1 && #[trigger] self.tables.slot(id2) is Some implies exists|
                            j: int,
                        |
                            0 <= j < entries@.len() && #[trigger] entries@[j] == (
                                self.tables.slot(id2)->0.value,
                                id2,
                            ) by {
                            InternId::lemma_view(id2, id_i, 0);
                            if id2@ < i {
                                let j0 = choose|j: int|
                                    0 <= j < before.len() && #[trigger] before[j] == (
                                        self.tables.slot(id2)->0.value,
                                        id2,
                                    );
                                assert(entries@[j0] == before[j0]);
                            } else {
                                assert(entries@[before.len() as int] == (
                                    self.tables.slot(id2)->0.value,
                                    id2,
                                ));
                            }
                        }
                    }
                },
                None => {
                    proof {
                        assert forall|id2: InternId|
                            id2@ < i + 1 && #[trigger] self.tables.slot(id2) is Some implies exists|
                            j: int,
                        |
                            0 <= j < entries@.len() && #[trigger] entries@[j] == (
                                self.tables.slot(id2)->0.value,
                                id2,
                            ) by {
                            InternId::lemma_view(id2, id_i, 0);
                        }
                    }
                },
            }
            i = i + 1;
        }
        proof {
            assert forall|j: int| 0 <= j < entries@.len() implies self.tables().ids().contains_key(
                (#[trigger] entries@[j]).0,
            ) && self.tables().ids()[entries@[j].0] == entries@[j].1 by {
                self.tables.lemma_round_trip(entries@[j].0, entries@[j].1);
            }
            assert forall|k: K| self.tables().ids().contains_key(k) implies exists|j: int|
                0 <= j < entries@.len() && #[trigger] entries@[j] == (k, self.tables().ids()[k]) by {
                let id = self.tables.ids()[k];
                self.tables.lemma_round_trip(k, id);
                self.tables.lemma_slot_in_range(id);
            }
        }
        entries
    }
}

impl LookupInternedStorage {
    /// The way back for the values of one interning storage.
    pub fn new() -> LookupInternedStorage {
        LookupInternedStorage {  }
    }

    /// The durability that interned values are read with.
    pub fn durability(&self) -> (d: Durability)
        ensures
            d == intern_durability(),
    {
        Durability::HIGH
    }

    /// The value that `storage` interned under `index`, which must be in use;
    /// the value counts as accessed in the current revision.
    pub fn peek<K: Eq + Hash + Clone>(
        &self,
        storage: &mut InternedStorage<K>,
        index: InternId,
        revision_now: Revision,
    ) -> (value: Option<K>)
        requires
            old(storage).wf(),
            old(storage).tables().slot(index) is Some,
        ensures
            final(storage).wf(),
            final(storage).query() == old(storage).query(),
            final(storage).tables().ids() == old(storage).tables().ids(),
            InternedStorage::<K>::is_accessed(
                final(storage).tables(),
                old(storage).tables(),
                index,
                revision_now,
            ),
            value == Some(old(storage).tables().slot(index)->0.value),
            final(storage).tables().pinned(value->0, index, revision_now),
            forall|k: K, id: InternId|
                old(storage).tables().pinned(k, id, revision_now) ==>
                    final(storage).tables().pinned(k, id, revision_now),
    {
        storage.lookup_value(index, revision_now);
        let value = storage.value(index).clone();
        proof {
            storage.lemma_wf(index);
            storage.tables().lemma_faithful(storage.tables().slot(index)->0.value, value);
        }
        Some(value)
    }

    /// Looks up, for the query that `runtime` is running, the value that
    /// `storage` interned under `index`, which must be in use, and records in
    /// the frame of the running query that it read the value.
    pub fn try_fetch<K: Eq + Hash + Clone>(
        &self,
        storage: &mut InternedStorage<K>,
        runtime: &mut Runtime,
        index: InternId,
        revision_now: Revision,
    ) -> (value: K)
        requires
            old(storage).wf(),
            old(storage).tables().slot(index) is Some,
        ensures
            final(storage).wf(),
            final(storage).query() == old(storage).query(),
            final(storage).tables().ids() == old(storage).tables().ids(),
            InternedStorage::<K>::is_accessed(
                final(storage).tables(),
                old(storage).tables(),
                index,
                revision_now,
            ),
            value == old(storage).tables().slot(index)->0.value,
            final(storage).tables().pinned(value, index, revision_now),
            final(storage).tables().ids()[value] == index,
            forall|k: K, id: InternId|
                old(storage).tables().pinned(k, id, revision_now) ==>
                    final(storage).tables().pinned(k, id, revision_now),
            final(runtime).same_but_stack(*old(runtime)),
            final(runtime).stack() == with_top(
                old(runtime).stack(),
                old(runtime).stack().last().after_read(
                    old(storage).tables().slot(index)->0.database_key_index,
                    intern_durability(),
                    old(storage).tables().slot(index)->0.interned_at,
                ),
            ),
    {
        let found = storage.lookup_value(index, revision_now);
        let value = storage.value(index).clone();
        proof {
            storage.lemma_wf(index);
            storage.tables().lemma_faithful(storage.tables().slot(index)->0.value, value);
        }
        runtime.report_query_read(found.database_key_index, Durability::HIGH, found.interned_at);
        value
    }

    /// The identifiers that `storage` has given out, each with its value, in
    /// the order of the identifiers.
    pub fn entries<K: Eq + Hash + Clone>(&self, storage: &InternedStorage<K>) -> (entries: Vec<
        (InternId, K),
    >)
        requires
            storage.wf(),
        ensures
            forall|j: int|
                0 <= j < entries@.len() ==> storage.tables().slot((#[trigger] entries@[j]).0)
                    is Some && storage.tables().slot(entries@[j].0)->0.value == entries@[j].1,
            forall|k: K|
                storage.tables().ids().contains_key(k) ==> exists|j: int|
                    0 <= j < entries@.len() && #[trigger] entries@[j] == (
                        storage.tables().ids()[k],
                        k,
                    ),
            forall|a: int, b: int|
                0 <= a < b < entries@.len() ==> (#[trigger] entries@[a]).0@ < (
                #[trigger] entries@[b]).0@,
    {
        let pairs = storage.entries();
        let mut entries: Vec<(InternId, K)> = Vec::new();
        let mut i: usize = 0;
        while i < pairs.len()
            invariant
                i <= pairs.len(),
                entries@.len() == i,
                storage.wf(),
                forall|j: int|
                    0 <= j < i ==> (#[trigger] entries@[j]).0 == pairs@[j].1 && entries@[j].1
                        == pairs@[j].0,
            decreases pairs.len() - i,
        {
            let value = pairs[i].0.clone();
            proof {
                storage.lemma_wf(pairs@[i as int].1);
                storage.tables().lemma_faithful(pairs@[i as int].0, value);
            }
            entries.push((pairs[i].1, value));
            i = i + 1;
        }
        proof {
            assert forall|j: int| 0 <= j < entries@.len() implies storage.tables().slot(
                (#[trigger] entries@[j]).0,
            ) is Some && storage.tables().slot(entries@[j].0)->0.value == entries@[j].1 by {
                let pair = pairs@[j];
                assert(storage.tables().ids().contains_key(pair.0));
                storage.lemma_wf(pair.1);
                storage.tables().lemma_round_trip(pair.0, pair.1);
            }
            assert forall|k: K| storage.tables().ids().contains_key(k) implies exists|j: int|
                0 <= j < entries@.len() && #[trigger] entries@[j] == (
                    storage.tables().ids()[k],
                    k,
                ) by {
                let j0 = choose|j: int|
                    0 <= j < pairs@.len() && #[trigger] pairs@[j] == (k, storage.tables().ids()[k]);
                assert(entries@[j0].0 == pairs@[j0].1);
            }
        }
        entries
    }

    /// Whether the value that `storage` interned as `input` may have changed
    /// since `revision`; see `InternedStorage::maybe_changed_since`.
    pub fn maybe_changed_since<K: Eq + Hash + Clone>(
        &self,
        storage: &mut InternedStorage<K>,
        input: DatabaseKeyIndex,
        revision: Revision,
        revision_now: Revision,
    ) -> (changed: bool)
        requires
            old(storage).wf(),
            input.parts().0 == old(storage).query().0,
            input.parts().1 == old(storage).query().1,
            input.parts().2 < InternId::MAX,
            old(storage).tables().slot(InternId::spec_from(input.parts().2 as nat)) is Some,
        ensures
            final(storage).wf(),
            final(storage).query() == old(storage).query(),
            final(storage).tables().ids() == old(storage).tables().ids(),
            InternedStorage::<K>::is_accessed(
                final(storage).tables(),
                old(storage).tables(),
                InternId::spec_from(input.parts().2 as nat),
                revision_now,
            ),
            changed == (old(storage).tables().slot(
                InternId::spec_from(input.parts().2 as nat),
            )->0.interned_at@ > revision@),
            forall|k: K, id: InternId|
                old(storage).tables().pinned(k, id, revision_now) ==>
                    final(storage).tables().pinned(k, id, revision_now),
    {
        storage.maybe_changed_since(input, revision, revision_now)
    }

    /// A sweep of the lookup side discards nothing: the values belong to the
    /// storage that interned them.
    pub fn sweep(&self, shared: &SharedState, strategy: SweepStrategy) {
    }

    /// There is nothing to purge on the lookup side.
    pub fn purge(&self) {
    }
}

} // verus!
