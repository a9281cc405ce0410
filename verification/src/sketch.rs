//! The constraint table of a sketch. Constraints live in a slot map and
//! are named by its keys; removing an entity removes every constraint that
//! references it, and a constraint is only added once.

use slotmap::{DefaultKey, Key, KeyData, SlotMap};
use vstd::prelude::*;

use std::collections::HashMap;

use crate::constraint::Constraint;
use crate::dispatch::admissible;
use crate::ids::{ConstraintId, SketchEntityId};
use crate::schema::{
    constraint_from_file, constraint_to_file, insert_file_id, inverts, lemma_constraint_round_trip,
    repeats_earlier, ConstraintFile, ConstraintFileRecord, FileId, ProjectIoError, RefKind,
};

verus! {

/// A slot map of constraints, `SlotMap<DefaultKey, Constraint>`, held
/// behind this opaque struct; what it holds is `constraint_slots`.
#[verifier::external_body]
pub struct ConstraintSlots {
    map: SlotMap<DefaultKey, Constraint>,
}

/// The entries of a slot map of constraints, each under the 64-bit form of
/// its key (`KeyData::as_ffi`): the version in the high half, the slot
/// index in the low half.
pub uninterp spec fn constraint_slots(m: ConstraintSlots) -> Map<u64, Constraint>;

/// The key a 64-bit handle stands for when read back with
/// `KeyData::from_ffi`: the same slot index, and the version made odd.
/// Keys of stored entries always have an odd version.
pub open spec fn slot_key(k: u64) -> u64 {
    k | 0x1_0000_0000u64
}

/// An empty slot map, from `SlotMap::new`.
#[verifier::external_body]
fn slots_new() -> (slots: ConstraintSlots)
    ensures
        constraint_slots(slots).is_empty(),
        constraint_slots(slots).dom().finite(),
{
    ConstraintSlots { map: SlotMap::new() }
}

/// Stores `c` through `SlotMap::insert` and gives its key in 64-bit form.
/// The key is new to the map and has an odd version. `insert` panics only
/// when the map has no free slot left among 2^32 - 1; a map from which no
/// entry was detached (this library never detaches) is in that state only
/// with u32::MAX - 1 entries, which the requirement rules out.
#[verifier::external_body]
fn slots_insert(slots: &mut ConstraintSlots, c: Constraint) -> (key: u64)
    requires
        constraint_slots(*old(slots)).len() < u32::MAX - 1,
    ensures
        !constraint_slots(*old(slots)).contains_key(key),
        slot_key(key) == key,
        constraint_slots(*final(slots)) == constraint_slots(*old(slots)).insert(key, c),
{
    slots.map.insert(c).data().as_ffi()
}

/// Removes the entry of `key` through `SlotMap::remove`, reading the key
/// back with `KeyData::from_ffi`: the entry stored under `slot_key(key)`
/// leaves the map and is returned, or nothing happens when there is none.
#[verifier::external_body]
fn slots_remove(slots: &mut ConstraintSlots, key: u64) -> (r: Option<Constraint>)
    ensures
        constraint_slots(*old(slots)).contains_key(slot_key(key)) ==> r == Some(
            constraint_slots(*old(slots))[slot_key(key)],
        ),
        !constraint_slots(*old(slots)).contains_key(slot_key(key)) ==> r is None,
        constraint_slots(*final(slots)) == constraint_slots(*old(slots)).remove(slot_key(key)),
{
    slots.map.remove(KeyData::from_ffi(key).into())
}

/// Whether `c` does not reference `entity`.
fn unrelated(c: &Constraint, entity: SketchEntityId) -> (r: bool)
    ensures
        r == !c.references(entity),
{
    !c.mentions(entity)
}

/// Keeps, through `SlotMap::retain`, exactly the entries whose constraint
/// does not reference `entity`.
#[verifier::external_body]
fn slots_retain_unrelated(slots: &mut ConstraintSlots, entity: SketchEntityId)
    ensures
        forall|k: u64|
            #[trigger] constraint_slots(*final(slots)).contains_key(k) <==> constraint_slots(
                *old(slots),
            ).contains_key(k) && !constraint_slots(*old(slots))[k].references(entity),
        forall|k: u64|
            #[trigger] constraint_slots(*final(slots)).contains_key(k) ==> constraint_slots(
                *final(slots),
            )[k] == constraint_slots(*old(slots))[k],
{
    slots.map.retain(|_, c| unrelated(c, entity))
}

/// The entries, through `SlotMap::iter`, as (64-bit key, constraint)
/// pairs in slot order: each entry exactly once.
#[verifier::external_body]
fn slots_entries(slots: &ConstraintSlots) -> (r: Vec<(u64, Constraint)>)
    ensures
        r@.len() == constraint_slots(*slots).len(),
        forall|i: int, j: int| 0 <= i < j < r@.len() ==> #[trigger] r@[i].0 != #[trigger] r@[j].0,
        forall|i: int|
            0 <= i < r@.len() ==> constraint_slots(*slots).contains_key(#[trigger] r@[i].0)
                && constraint_slots(*slots)[r@[i].0] == r@[i].1,
        forall|k: u64|
            #[trigger] constraint_slots(*slots).contains_key(k) ==> exists|i: int|
                0 <= i < r@.len() && #[trigger] r@[i].0 == k,
{
    slots.map.iter().map(|(key, c)| (key.data().as_ffi(), *c)).collect()
}

/// The constraints of one sketch, each under the handle it was given when
/// added.
pub struct SketchConstraints {
    slots: ConstraintSlots,
}

impl View for SketchConstraints {
    type V = Map<u64, Constraint>;

    closed spec fn view(&self) -> Map<u64, Constraint> {
        constraint_slots(self.slots)
    }
}

impl SketchConstraints {
    #[verifier::type_invariant]
    spec fn inv(self) -> bool {
        &&& constraint_slots(self.slots).dom().finite()
        &&& forall|k: u64| #[trigger] constraint_slots(self.slots).contains_key(k) ==> slot_key(k) == k
    }

    /// A table without constraints.
    pub fn new() -> (t: Self)
        ensures
            t@ == Map::<u64, Constraint>::empty(),
    {
        let t = SketchConstraints { slots: slots_new() };
        proof {
            assert(t@ =~= Map::<u64, Constraint>::empty());
        }
        t
    }

    /// The number of constraints.
    pub fn len(&self) -> (n: usize)
        ensures
            n == self@.len(),
    {
        proof {
            use_type_invariant(self);
        }
        let entries = slots_entries(&self.slots);
        entries.len()
    }

    /// Adds `c` under a new handle.
    pub fn add_constraint(&mut self, c: Constraint) -> (id: ConstraintId)
        requires
            old(self)@.len() < u32::MAX - 1,
        ensures
            !old(self)@.contains_key(id.0),
            slot_key(id.0) == id.0,
            final(self)@ == old(self)@.insert(id.0, c),
    {
        proof {
            use_type_invariant(&*self);
        }
        let mut slots = slots_new();
        std::mem::swap(&mut slots, &mut self.slots);
        let key = slots_insert(&mut slots, c);
        std::mem::swap(&mut slots, &mut self.slots);
        ConstraintId(key)
    }

    /// Removes the constraint under handle `id`, returning it; nothing
    /// happens when there is none. The handle is read back as a slot-map
    /// key, so it names the entry under `slot_key(id.0)`; handles given out
    /// by `add_constraint` read back as themselves.
    pub fn remove_constraint(&mut self, id: ConstraintId) -> (r: Option<Constraint>)
        ensures
            old(self)@.contains_key(slot_key(id.0)) ==> r == Some(old(self)@[slot_key(id.0)])
                && final(self)@ == old(self)@.remove(slot_key(id.0)),
            !old(self)@.contains_key(slot_key(id.0)) ==> r is None && final(self)@ == old(self)@,
    {
        proof {
            use_type_invariant(&*self);
        }
        let mut slots = slots_new();
        std::mem::swap(&mut slots, &mut self.slots);
        let r = slots_remove(&mut slots, id.0);
        std::mem::swap(&mut slots, &mut self.slots);
        proof {
            if !old(self)@.contains_key(slot_key(id.0)) {
                assert(self@ =~= old(self)@);
            }
        }
        r
    }

    /// Removes every constraint that references `entity`, as removing the
    /// entity from its sketch does.
    pub fn remove_entity_constraints(&mut self, entity: SketchEntityId)
        ensures
            forall|k: u64|
                #[trigger] final(self)@.contains_key(k) <==> old(self)@.contains_key(k)
                    && !old(self)@[k].references(entity),
            forall|k: u64| #[trigger] final(self)@.contains_key(k) ==> final(self)@[k] == old(self)@[k],
    {
        proof {
            use_type_invariant(&*self);
        }
        let mut slots = slots_new();
        std::mem::swap(&mut slots, &mut self.slots);
        let ghost before = constraint_slots(slots);
        slots_retain_unrelated(&mut slots, entity);
        proof {
            assert(constraint_slots(slots).dom().subset_of(before.dom()));
            vstd::set_lib::lemma_set_subset_finite(before.dom(), constraint_slots(slots).dom());
        }
        std::mem::swap(&mut slots, &mut self.slots);
    }

    /// The constraints with their handles, each once, in slot order.
    pub fn iter_constraints(&self) -> (r: Vec<(ConstraintId, Constraint)>)
        ensures
            r@.len() == self@.len(),
            forall|i: int, j: int| 0 <= i < j < r@.len() ==> #[trigger] r@[i].0 != #[trigger] r@[j].0,
            forall|i: int|
                0 <= i < r@.len() ==> self@.contains_key((#[trigger] r@[i]).0 .0) && self@[r@[i].0 .0]
                    == r@[i].1,
            forall|k: u64|
                #[trigger] self@.contains_key(k) ==> exists|i: int|
                    0 <= i < r@.len() && #[trigger] r@[i].0 == ConstraintId(k),
    {
        let entries = slots_entries(&self.slots);
        let mut r: Vec<(ConstraintId, Constraint)> = Vec::new();
        let mut i: usize = 0;
        while i < entries.len()
            invariant
                i <= entries@.len(),
                r@.len() == i,
                forall|j: int| 0 <= j < i ==> #[trigger] r@[j] == (ConstraintId(entries@[j].0), entries@[j].1),
            decreases entries@.len() - i,
        {
            let (key, c) = entries[i];
            r.push((ConstraintId(key), c));
            i = i + 1;
        }
        proof {
            assert forall|a: int, b: int| 0 <= a < b < r@.len() implies #[trigger] r@[a].0 != #[trigger] r@[b].0 by {
                assert(r@[a] == (ConstraintId(entries@[a].0), entries@[a].1));
                assert(r@[b] == (ConstraintId(entries@[b].0), entries@[b].1));
                assert(entries@[a].0 != entries@[b].0);
            }
            assert forall|j: int| 0 <= j < r@.len() implies self@.contains_key((#[trigger] r@[j]).0 .0)
                && self@[r@[j].0 .0] == r@[j].1 by {
                assert(r@[j] == (ConstraintId(entries@[j].0), entries@[j].1));
                assert(constraint_slots(self.slots).contains_key(entries@[j].0));
            }
            assert forall|k: u64| #[trigger] self@.contains_key(k) implies exists|j: int|
                0 <= j < r@.len() && #[trigger] r@[j].0 == ConstraintId(k) by {
                assert(constraint_slots(self.slots).contains_key(k));
                let j = choose|j: int| 0 <= j < entries@.len() && #[trigger] entries@[j].0 == k;
                assert(r@[j] == (ConstraintId(entries@[j].0), entries@[j].1));
            }
        }
        r
    }

    /// Whether the table already holds `c`.
    pub fn holds(&self, c: &Constraint) -> (r: bool)
        ensures
            r == exists|k: u64| #[trigger] self@.contains_key(k) && self@[k] == *c,
    {
        let entries = slots_entries(&self.slots);
        let mut i: usize = 0;
        while i < entries.len()
            invariant
                i <= entries@.len(),
                forall|j: int|
                    0 <= j < entries@.len() ==> constraint_slots(self.slots).contains_key(
                        #[trigger] entries@[j].0,
                    ) && constraint_slots(self.slots)[entries@[j].0] == entries@[j].1,
                forall|j: int| 0 <= j < i ==> (#[trigger] entries@[j]).1 != *c,
            decreases entries@.len() - i,
        {
            if entries[i].1 == *c {
                proof {
                    assert(constraint_slots(self.slots).contains_key(entries@[i as int].0));
                }
                return true;
            }
            i = i + 1;
        }
        proof {
            assert forall|k: u64| #[trigger] self@.contains_key(k) implies self@[k] != *c by {
                let j = choose|j: int| 0 <= j < entries@.len() && #[trigger] entries@[j].0 == k;
                assert(entries@[j].1 == constraint_slots(self.slots)[k]);
            }
        }
        false
    }

    /// Adds `c` when every entity it references is among `entities` and the
    /// table does not hold it yet, as the dispatcher does for a requested
    /// constraint; gives the new handle, or `None` when `c` was not added.
    pub fn add_if_admissible(&mut self, entities: &[SketchEntityId], c: Constraint) -> (r: Option<
        ConstraintId,
    >)
        requires
            old(self)@.len() < u32::MAX - 1,
        ensures
            ({
                let present = exists|k: u64| #[trigger] old(self)@.contains_key(k) && old(self)@[k] == c;
                let refs_ok = forall|i: int|
                    0 <= i < c.spec_referenced_entities().len() ==> entities@.contains(
                        #[trigger] c.spec_referenced_entities()[i],
                    );
                &&& (refs_ok && !present) ==> (r matches Some(id) && !old(self)@.contains_key(id.0)
                    && final(self)@ == old(self)@.insert(id.0, c))
                &&& !(refs_ok && !present) ==> r is None && final(self)@ == old(self)@
            }),
    {
        if self.holds(&c) {
            return None;
        }
        if !crate::dispatch::constraint_admissible(entities, &[], &c) {
            return None;
        }
        proof {
            assert(admissible(entities@, Seq::<Constraint>::empty(), c));
        }
        Some(self.add_constraint(c))
    }
}


/// The ids of the constraints among `constraints` that reference `entity`,
/// in order.
pub open spec fn referencing(constraints: Seq<(ConstraintId, Constraint)>, entity: SketchEntityId) -> Seq<
    ConstraintId,
>
    decreases constraints.len(),
{
    if constraints.len() == 0 {
        Seq::empty()
    } else {
        let rest = referencing(constraints.drop_last(), entity);
        if constraints.last().1.references(entity) {
            rest.push(constraints.last().0)
        } else {
            rest
        }
    }
}

/// A constraint id is listed exactly when its constraint references the
/// entity.
pub proof fn lemma_referencing_members(
    constraints: Seq<(ConstraintId, Constraint)>,
    entity: SketchEntityId,
    id: ConstraintId,
)
    requires
        forall|i: int, j: int|
            0 <= i < j < constraints.len() ==> #[trigger] constraints[i].0 != #[trigger] constraints[j].0,
    ensures
        referencing(constraints, entity).contains(id) <==> exists|i: int|
            0 <= i < constraints.len() && #[trigger] constraints[i].0 == id && constraints[i].1.references(
                entity,
            ),
    decreases constraints.len(),
{
    if constraints.len() > 0 {
        let rest = constraints.drop_last();
        assert forall|i: int, j: int| 0 <= i < j < rest.len() implies #[trigger] rest[i].0
            != #[trigger] rest[j].0 by {
            assert(rest[i] == constraints[i] && rest[j] == constraints[j]);
        }
        lemma_referencing_members(rest, entity, id);
        let r = referencing(rest, entity);
        let last = constraints.last();
        if referencing(constraints, entity).contains(id) {
            if r.contains(id) {
                let i = choose|i: int| 0 <= i < rest.len() && #[trigger] rest[i].0 == id && rest[i].1.references(entity);
                assert(constraints[i] == rest[i]);
            } else {
                let k = choose|k: int| 0 <= k < referencing(constraints, entity).len() && referencing(constraints, entity)[k] == id;
                assert(last.1.references(entity));
                assert(k == r.len());
                assert(constraints[constraints.len() - 1].0 == id);
            }
        }
        if exists|i: int| 0 <= i < constraints.len() && #[trigger] constraints[i].0 == id && constraints[i].1.references(entity) {
            let i = choose|i: int| 0 <= i < constraints.len() && #[trigger] constraints[i].0 == id && constraints[i].1.references(entity);
            if i < constraints.len() - 1 {
                assert(rest[i] == constraints[i]);
                assert(r.contains(id));
                let k = choose|k: int| 0 <= k < r.len() && r[k] == id;
                if last.1.references(entity) {
                    assert(r.push(last.0)[k] == id);
                }
            } else {
                assert(referencing(constraints, entity) == r.push(id));
                assert(r.push(id)[r.len() as int] == id);
            }
        }
    }
}

/// The constraints to remove together with `entity`: those that reference
/// it, in order.
pub fn cascade_removals(constraints: &[(ConstraintId, Constraint)], entity: SketchEntityId) -> (r: Vec<
    ConstraintId,
>)
    ensures
        r@ == referencing(constraints@, entity),
{
    let mut r: Vec<ConstraintId> = Vec::new();
    let mut i: usize = 0;
    while i < constraints.len()
        invariant
            i <= constraints@.len(),
            r@ == referencing(constraints@.take(i as int), entity),
        decreases constraints@.len() - i,
    {
        proof {
            assert(constraints@.take(i + 1).drop_last() =~= constraints@.take(i as int));
        }
        let (id, c) = constraints[i];
        if c.mentions(entity) {
            r.push(id);
        }
        i = i + 1;
    }
    proof {
        assert(constraints@.take(constraints@.len() as int) =~= constraints@);
    }
    r
}

/// The file ids of `records`, in order.
pub open spec fn record_ids(records: Seq<ConstraintFileRecord>) -> Seq<FileId> {
    records.map_values(|r: ConstraintFileRecord| r.id)
}

/// Writes a sketch's constraints, listed in table order, as file records:
/// record `i` gets file id `i + 1` and names its entities by file id. Fails
/// on the first constraint that has no file form.
pub fn constraint_records(entries: &[(ConstraintId, Constraint)], entity_ids: &HashMap<u64, FileId>) -> (r:
    Result<Vec<ConstraintFileRecord>, ProjectIoError>)
    ensures
        r is Ok <==> forall|i: int|
            0 <= i < entries@.len() ==> (#[trigger] constraint_to_file(entries@[i].1, entity_ids@)) is Ok,
        r matches Ok(rs) ==> rs@.len() == entries@.len() && forall|i: int|
            0 <= i < entries@.len() ==> #[trigger] rs@[i] == (ConstraintFileRecord {
                id: (i + 1) as u64,
                constraint: constraint_to_file(entries@[i].1, entity_ids@)->Ok_0,
            }),
        r matches Err(e) ==> exists|j: int|
            0 <= j < entries@.len() && (forall|k: int|
                0 <= k < j ==> (#[trigger] constraint_to_file(entries@[k].1, entity_ids@)) is Ok)
                && constraint_to_file(entries@[j].1, entity_ids@) == Err::<ConstraintFile, ProjectIoError>(e),
{
    let mut records: Vec<ConstraintFileRecord> = Vec::new();
    let mut i: usize = 0;
    while i < entries.len()
        invariant
            i <= entries@.len(),
            records@.len() == i,
            forall|k: int|
                0 <= k < i ==> (#[trigger] constraint_to_file(entries@[k].1, entity_ids@)) is Ok,
            forall|k: int|
                0 <= k < i ==> #[trigger] records@[k] == (ConstraintFileRecord {
                    id: (k + 1) as u64,
                    constraint: constraint_to_file(entries@[k].1, entity_ids@)->Ok_0,
                }),
        decreases entries@.len() - i,
    {
        let (_, c) = entries[i];
        let file = match ConstraintFile::from_constraint(&c, entity_ids) {
            Ok(file) => file,
            Err(e) => {
                return Err(e);
            },
        };
        records.push(ConstraintFileRecord { id: (i as u64) + 1, constraint: file });
        i = i + 1;
    }
    Ok(records)
}

impl SketchConstraints {
    /// This table's constraints as file records, in table order.
    pub fn to_records(&self, entity_ids: &HashMap<u64, FileId>) -> (r: Result<Vec<ConstraintFileRecord>, ProjectIoError>)
        ensures
            r matches Ok(rs) ==> rs@.len() == self@.len() && forall|i: int|
                0 <= i < rs@.len() ==> #[trigger] rs@[i].id == i + 1 && exists|k: u64|
                    self@.contains_key(k) && constraint_to_file(self@[k], entity_ids@) == Ok::<
                        ConstraintFile,
                        ProjectIoError,
                    >(rs@[i].constraint),
            r is Ok <==> forall|k: u64| #[trigger] self@.contains_key(k) ==> constraint_to_file(
                self@[k],
                entity_ids@,
            ) is Ok,
            r matches Err(e) ==> exists|k: u64|
                self@.contains_key(k) && constraint_to_file(self@[k], entity_ids@) == Err::<
                    ConstraintFile,
                    ProjectIoError,
                >(e),
    {
        let entries = self.iter_constraints();
        let r = constraint_records(entries.as_slice(), entity_ids);
        proof {
            match &r {
                Ok(rs) => {
                    assert forall|i: int| 0 <= i < rs@.len() implies #[trigger] rs@[i].id == i + 1
                        && exists|k: u64|
                        self@.contains_key(k) && constraint_to_file(self@[k], entity_ids@) == Ok::<
                            ConstraintFile,
                            ProjectIoError,
                        >(rs@[i].constraint) by {
                        assert(rs@[i] == (ConstraintFileRecord {
                            id: (i + 1) as u64,
                            constraint: constraint_to_file(entries@[i].1, entity_ids@)->Ok_0,
                        }));
                        assert(constraint_to_file(entries@[i].1, entity_ids@) is Ok);
                        assert(self@.contains_key(entries@[i].0 .0));
                    }
                    assert forall|k: u64| #[trigger] self@.contains_key(k) implies constraint_to_file(
                        self@[k],
                        entity_ids@,
                    ) is Ok by {
                        let i = choose|i: int| 0 <= i < entries@.len() && #[trigger] entries@[i].0 == ConstraintId(k);
                        assert(constraint_to_file(entries@[i].1, entity_ids@) is Ok);
                        assert(self@[entries@[i].0 .0] == entries@[i].1);
                    }
                },
                Err(e) => {
                    let j = choose|j: int|
                        0 <= j < entries@.len() && (forall|k: int|
                            0 <= k < j ==> (#[trigger] constraint_to_file(entries@[k].1, entity_ids@)) is Ok)
                            && constraint_to_file(entries@[j].1, entity_ids@) == Err::<ConstraintFile, ProjectIoError>(*e);
                    assert(self@.contains_key(entries@[j].0 .0));
                    assert(self@[entries@[j].0 .0] == entries@[j].1);
                },
            }
        }
        r
    }

    /// Reads a sketch's constraint records, in file order, into a new
    /// table, giving also the table from each record's file id to the
    /// handle of its constraint. Fails on the first record whose constraint
    /// names an entity that `entity_ids` does not know, or whose file id an
    /// earlier record already took.
    pub fn from_records(records: &[ConstraintFileRecord], entity_ids: &HashMap<FileId, u64>) -> (r: Result<
        (SketchConstraints, HashMap<FileId, u64>),
        ProjectIoError,
    >)
        requires
            records@.len() < u32::MAX - 1,
        ensures
            r is Ok <==> (forall|j: int|
                0 <= j < records@.len() ==> (#[trigger] constraint_from_file(records@[j].constraint, entity_ids@)) is Ok)
                && record_ids(records@).no_duplicates(),
            r matches Ok(made) ==> {
                let (t, ids) = made;
                &&& t@.len() == records@.len()
                &&& ids@.dom() == record_ids(records@).to_set()
                &&& forall|i: int|
                    0 <= i < records@.len() ==> t@.contains_key(#[trigger] ids@[records@[i].id]) && t@[ids@[records@[i].id]]
                        == constraint_from_file(records@[i].constraint, entity_ids@)->Ok_0
                &&& forall|k: u64| #[trigger] t@.contains_key(k) ==> exists|i: int|
                    0 <= i < records@.len() && ids@[records@[i].id] == k
            },
            r matches Err(e) ==> exists|j: int|
                #![trigger records@[j]]
                0 <= j < records@.len() && (forall|k: int|
                    0 <= k < j ==> (#[trigger] constraint_from_file(records@[k].constraint, entity_ids@)) is Ok
                        && !repeats_earlier(record_ids(records@), k)) && (constraint_from_file(
                    records@[j].constraint,
                    entity_ids@,
                ) == Err::<Constraint, ProjectIoError>(e) || (constraint_from_file(records@[j].constraint, entity_ids@) is Ok
                    && repeats_earlier(record_ids(records@), j) && e == (ProjectIoError::DuplicateId {
                    kind: RefKind::Constraint,
                    id: records@[j].id,
                }))),
    {
        let ghost rids = record_ids(records@);
        let mut table = SketchConstraints::new();
        let mut ids: HashMap<FileId, u64> = HashMap::new();
        let mut i: usize = 0;
        while i < records.len()
            invariant
                rids == record_ids(records@),
                records@.len() < u32::MAX - 1,
                i <= records@.len(),
                table@.len() == i,
                table@.dom().finite(),
                rids.take(i as int).no_duplicates(),
                ids@.dom() == rids.take(i as int).to_set(),
                forall|k: int|
                    0 <= k < i ==> (#[trigger] constraint_from_file(records@[k].constraint, entity_ids@)) is Ok
                        && !repeats_earlier(rids, k),
                forall|k: int|
                    0 <= k < i ==> table@.contains_key(#[trigger] ids@[records@[k].id]) && table@[ids@[records@[k].id]]
                        == constraint_from_file(records@[k].constraint, entity_ids@)->Ok_0,
                forall|key: u64| #[trigger] table@.contains_key(key) ==> exists|k: int|
                    0 <= k < i && ids@[records@[k].id] == key,
            decreases records@.len() - i,
        {
            let record = records[i];
            let c = match record.constraint.into_constraint(entity_ids) {
                Ok(c) => c,
                Err(e) => {
                    proof {
                        assert(record == records@[i as int]);
                        assert(constraint_from_file(records@[i as int].constraint, entity_ids@) == Err::<
                            Constraint,
                            ProjectIoError,
                        >(e));
                        assert(forall|k: int|
                            0 <= k < i ==> (#[trigger] constraint_from_file(records@[k].constraint, entity_ids@)) is Ok
                                && !repeats_earlier(record_ids(records@), k));
                    }
                    return Err(e);
                },
            };
            let ghost before_table = table@;
            let ghost before_ids = ids@;
            let ghost prefix = rids.take(i as int);
            proof {
                assert(rids[i as int] == record.id);
                assert(rids.take(i + 1) =~= prefix.push(record.id));
                prefix.lemma_push_to_set_commute(record.id);
            }
            let handle = table.add_constraint(c);
            if insert_file_id(&mut ids, record.id, handle.0, RefKind::Constraint).is_err() {
                proof {
                    assert(prefix.to_set().contains(record.id));
                    assert(prefix.contains(record.id));
                    let k = choose|k: int| 0 <= k < prefix.len() && prefix[k] == record.id;
                    assert(rids[k] == rids[i as int]);
                    assert(repeats_earlier(rids, i as int));
                }
                return Err(ProjectIoError::DuplicateId { kind: RefKind::Constraint, id: record.id });
            }
            proof {
                assert(!prefix.contains(record.id)) by {
                    if prefix.contains(record.id) {
                        let k = choose|k: int| 0 <= k < prefix.len() && prefix[k] == record.id;
                        assert(prefix.to_set().contains(record.id));
                    }
                }
                assert(!repeats_earlier(rids, i as int)) by {
                    if repeats_earlier(rids, i as int) {
                        let k = choose|k: int| 0 <= k < i && rids[k] == rids[i as int];
                        assert(prefix[k] == record.id);
                    }
                }
                let next = rids.take(i + 1);
                assert forall|a: int, b: int|
                    0 <= a < next.len() && 0 <= b < next.len() && a != b implies #[trigger] next[a]
                    != #[trigger] next[b] by {
                    if b == i {
                        assert(prefix[a] == next[a]);
                    } else if a == i {
                        assert(prefix[b] == next[b]);
                    } else {
                        assert(prefix[a] == next[a] && prefix[b] == next[b]);
                    }
                }
                assert forall|k: int| 0 <= k < i + 1 implies table@.contains_key(#[trigger] ids@[records@[k].id])
                    && table@[ids@[records@[k].id]] == constraint_from_file(records@[k].constraint, entity_ids@)->Ok_0 by {
                    if k < i {
                        assert(rids[k] == records@[k].id);
                        assert(prefix[k] == records@[k].id);
                        assert(records@[k].id != record.id);
                        assert(before_table.contains_key(before_ids[records@[k].id]));
                        assert(before_ids[records@[k].id] != handle.0);
                    }
                }
                assert forall|key: u64| #[trigger] table@.contains_key(key) implies exists|k: int|
                    0 <= k < i + 1 && ids@[records@[k].id] == key by {
                    if key != handle.0 {
                        assert(before_table.contains_key(key));
                        let k = choose|k: int| 0 <= k < i && before_ids[records@[k].id] == key;
                        assert(rids[k] == records@[k].id);
                        assert(prefix[k] == records@[k].id);
                        assert(records@[k].id != record.id);
                    } else {
                        assert(ids@[records@[i as int].id] == key);
                    }
                }
            }
            i = i + 1;
        }
        proof {
            assert(rids.take(records@.len() as int) =~= rids);
        }
        Ok((table, ids))
    }
}

/// Constraint records written by `constraint_records` read back, through
/// an entity table that inverts the one they were written with, as the
/// constraints they were written from: every record converts back to its
/// constraint and no two records share a file id, so `from_records`
/// accepts them and stores each constraint under its record's id.
pub proof fn lemma_records_round_trip(
    entries: Seq<(ConstraintId, Constraint)>,
    fwd: Map<u64, FileId>,
    bwd: Map<FileId, u64>,
    records: Seq<ConstraintFileRecord>,
)
    requires
        inverts(fwd, bwd),
        records.len() == entries.len(),
        entries.len() < u64::MAX,
        forall|i: int| 0 <= i < entries.len() ==> (#[trigger] constraint_to_file(entries[i].1, fwd)) is Ok,
        forall|i: int|
            0 <= i < entries.len() ==> #[trigger] records[i] == (ConstraintFileRecord {
                id: (i + 1) as u64,
                constraint: constraint_to_file(entries[i].1, fwd)->Ok_0,
            }),
    ensures
        forall|i: int|
            0 <= i < records.len() ==> #[trigger] constraint_from_file(records[i].constraint, bwd)
                == Ok::<Constraint, ProjectIoError>(entries[i].1),
        record_ids(records).no_duplicates(),
{
    assert forall|i: int| 0 <= i < records.len() implies #[trigger] constraint_from_file(
        records[i].constraint,
        bwd,
    ) == Ok::<Constraint, ProjectIoError>(entries[i].1) by {
        assert(constraint_to_file(entries[i].1, fwd) is Ok);
        lemma_constraint_round_trip(entries[i].1, fwd, bwd);
    }
    let ids = record_ids(records);
    assert forall|a: int, b: int| 0 <= a < ids.len() && 0 <= b < ids.len() && a != b implies #[trigger] ids[a]
        != #[trigger] ids[b] by {
        assert(records[a].id == (a + 1) as u64);
        assert(records[b].id == (b + 1) as u64);
    }
}

} // verus!
