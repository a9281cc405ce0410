//! What applying a command does to the selection, and when a constraint
//! may join a sketch. Each step takes, as flags, which of the named
//! sketches, entities and bodies exist; the dispatcher (`dispatcher`)
//! reads them from the project and composes these steps.

use vstd::prelude::*;

use crate::command::SelectionEditMode;
use crate::constraint::Constraint;
use crate::ids::{BodyId, SketchEntityId, SketchId};
use crate::selection::{
    edited, lemma_toggle_is_symmetric_difference, toggled, Selection, SelectionItem,
};

verus! {

/// The selection item of an entity of a sketch.
pub open spec fn entity_item(sketch: SketchId, entity: SketchEntityId) -> SelectionItem {
    SelectionItem::SketchEntity { sketch, entity }
}

/// Whether `item` belongs to `sketch`: the sketch itself or one of its
/// entities.
pub open spec fn of_sketch(item: SelectionItem, sketch: SketchId) -> bool {
    match item {
        SelectionItem::Sketch(s) => s == sketch,
        SelectionItem::SketchEntity { sketch: s, .. } => s == sketch,
        SelectionItem::Body(_) => false,
    }
}

/// The items of the listed entities of `sketch` that exist, in order.
pub open spec fn existing_entity_items(
    sketch: SketchId,
    entities: Seq<SketchEntityId>,
    present: Seq<bool>,
) -> Seq<SelectionItem>
    decreases entities.len(),
{
    if entities.len() == 0 {
        Seq::empty()
    } else {
        let rest = existing_entity_items(sketch, entities.drop_last(), present.take(entities.len() - 1));
        if present[entities.len() - 1] {
            rest.push(entity_item(sketch, entities.last()))
        } else {
            rest
        }
    }
}

/// The items of the listed bodies that exist, in order.
pub open spec fn existing_body_items(bodies: Seq<BodyId>, present: Seq<bool>) -> Seq<SelectionItem>
    decreases bodies.len(),
{
    if bodies.len() == 0 {
        Seq::empty()
    } else {
        let rest = existing_body_items(bodies.drop_last(), present.take(bodies.len() - 1));
        if present[bodies.len() - 1] {
            rest.push(SelectionItem::Body(bodies.last()))
        } else {
            rest
        }
    }
}

/// Selecting a single entity: the selection becomes that entity when it
/// exists, and empty when it does not.
pub fn select_single(selection: &mut Selection, sketch: SketchId, entity: SketchEntityId, exists: bool)
    ensures
        exists ==> final(selection)@ == Set::<SelectionItem>::empty().insert(entity_item(sketch, entity)),
        !exists ==> final(selection)@ == Set::<SelectionItem>::empty(),
{
    selection.clear();
    if exists {
        selection.insert(SelectionItem::SketchEntity { sketch, entity });
    }
}

/// Selecting a single body: the selection becomes that body when it
/// exists, and empty when it does not. A successful extrude or revolve
/// selects the body it made in the same way.
pub fn select_body(selection: &mut Selection, body: BodyId, exists: bool)
    ensures
        exists ==> final(selection)@ == Set::<SelectionItem>::empty().insert(SelectionItem::Body(body)),
        !exists ==> final(selection)@ == Set::<SelectionItem>::empty(),
{
    selection.clear();
    if exists {
        selection.insert(SelectionItem::Body(body));
    }
}

/// Toggling an entity: it flips in or out of the selection when it exists;
/// an entity that does not exist is only ever deselected.
pub fn toggle_entity(selection: &mut Selection, sketch: SketchId, entity: SketchEntityId, exists: bool)
    ensures
        exists ==> final(selection)@ == toggled(old(selection)@, entity_item(sketch, entity)),
        !exists ==> final(selection)@ == old(selection)@.remove(entity_item(sketch, entity)),
{
    let item = SelectionItem::SketchEntity { sketch, entity };
    if !exists {
        selection.remove(&item);
    } else if !selection.remove(&item) {
        selection.insert(item);
    }
}

/// Editing the selection with entities of one sketch: when the sketch does
/// not exist the selection is cleared; otherwise the entities that exist
/// edit it in `mode`.
pub fn select_entities(
    selection: &mut Selection,
    sketch: SketchId,
    sketch_exists: bool,
    entities: &[SketchEntityId],
    present: &[bool],
    mode: SelectionEditMode,
)
    requires
        present@.len() == entities@.len(),
    ensures
        !sketch_exists ==> final(selection)@ == Set::<SelectionItem>::empty(),
        sketch_exists ==> final(selection)@ == edited(
            old(selection)@,
            existing_entity_items(sketch, entities@, present@),
            mode,
        ),
{
    if !sketch_exists {
        selection.clear();
        return;
    }
    let mut items: Vec<SelectionItem> = Vec::new();
    let mut i: usize = 0;
    while i < entities.len()
        invariant
            present@.len() == entities@.len(),
            i <= entities@.len(),
            items@ == existing_entity_items(sketch, entities@.take(i as int), present@.take(i as int)),
        decreases entities@.len() - i,
    {
        proof {
            let next = entities@.take(i + 1);
            assert(next.drop_last() =~= entities@.take(i as int));
            assert(present@.take(i + 1).take(i as int) =~= present@.take(i as int));
            assert(next.last() == entities@[i as int]);
            assert(present@.take(i + 1)[i as int] == present@[i as int]);
        }
        if present[i] {
            items.push(SelectionItem::SketchEntity { sketch, entity: entities[i] });
        }
        i = i + 1;
    }
    proof {
        assert(entities@.take(entities@.len() as int) =~= entities@);
        assert(present@.take(entities@.len() as int) =~= present@);
    }
    selection.apply_edit(items.as_slice(), mode);
}

/// Editing the selection with bodies: the bodies that exist edit it in
/// `mode`.
pub fn select_bodies(
    selection: &mut Selection,
    bodies: &[BodyId],
    present: &[bool],
    mode: SelectionEditMode,
)
    requires
        present@.len() == bodies@.len(),
    ensures
        final(selection)@ == edited(old(selection)@, existing_body_items(bodies@, present@), mode),
{
    let mut items: Vec<SelectionItem> = Vec::new();
    let mut i: usize = 0;
    while i < bodies.len()
        invariant
            present@.len() == bodies@.len(),
            i <= bodies@.len(),
            items@ == existing_body_items(bodies@.take(i as int), present@.take(i as int)),
        decreases bodies@.len() - i,
    {
        proof {
            let next = bodies@.take(i + 1);
            assert(next.drop_last() =~= bodies@.take(i as int));
            assert(present@.take(i + 1).take(i as int) =~= present@.take(i as int));
            assert(next.last() == bodies@[i as int]);
            assert(present@.take(i + 1)[i as int] == present@[i as int]);
        }
        if present[i] {
            items.push(SelectionItem::Body(bodies[i]));
        }
        i = i + 1;
    }
    proof {
        assert(bodies@.take(bodies@.len() as int) =~= bodies@);
        assert(present@.take(bodies@.len() as int) =~= present@);
    }
    selection.apply_edit(items.as_slice(), mode);
}

/// Whether `item` survives the deletion of `sketch`.
fn outside_sketch(item: &SelectionItem, sketch: SketchId) -> (r: bool)
    ensures
        r == !of_sketch(*item, sketch),
{
    match item {
        SelectionItem::Sketch(s) => *s != sketch,
        SelectionItem::SketchEntity { sketch: s, .. } => *s != sketch,
        SelectionItem::Body(_) => true,
    }
}

/// Deleting a sketch deselects the sketch and all of its entities; other
/// items stay selected.
pub fn forget_sketch(selection: &mut Selection, sketch: SketchId)
    ensures
        final(selection)@ == old(selection)@.filter(|item: SelectionItem| !of_sketch(item, sketch)),
{
    selection.retain(|item: &SelectionItem| -> (r: bool)
        ensures
            r == !of_sketch(*item, sketch),
        { outside_sketch(item, sketch) });
    proof {
        assert(final(selection)@ =~= old(selection)@.filter(
            |item: SelectionItem| !of_sketch(item, sketch),
        ));
    }
}

/// Deleting an entity deselects it.
pub fn forget_entity(selection: &mut Selection, sketch: SketchId, entity: SketchEntityId)
    ensures
        final(selection)@ == old(selection)@.remove(entity_item(sketch, entity)),
{
    selection.remove(&SelectionItem::SketchEntity { sketch, entity });
}

/// What "delete selection" deletes: the selected entities, with their
/// sketches, and the selected bodies.
pub fn deletion_targets(selection: &Selection) -> (r: (Vec<(SketchId, SketchEntityId)>, Vec<BodyId>))
    ensures
        forall|sketch: SketchId, entity: SketchEntityId|
            r.0@.contains((sketch, entity)) <==> selection@.contains(entity_item(sketch, entity)),
        forall|body: BodyId| r.1@.contains(body) <==> selection@.contains(SelectionItem::Body(body)),
{
    let items = selection.iter();
    let mut entities: Vec<(SketchId, SketchEntityId)> = Vec::new();
    let mut bodies: Vec<BodyId> = Vec::new();
    let mut i: usize = 0;
    while i < items.len()
        invariant
            i <= items@.len(),
            items@.to_set() == selection@,
            forall|sketch: SketchId, entity: SketchEntityId|
                entities@.contains((sketch, entity)) <==> items@.take(i as int).contains(
                    entity_item(sketch, entity),
                ),
            forall|body: BodyId| bodies@.contains(body) <==> items@.take(i as int).contains(SelectionItem::Body(body)),
        decreases items@.len() - i,
    {
        let ghost prefix = items@.take(i as int);
        let ghost next = items@.take(i + 1);
        proof {
            assert(next =~= prefix.push(items@[i as int]));
        }
        let ghost old_entities = entities@;
        let ghost old_bodies = bodies@;
        match items[i] {
            SelectionItem::SketchEntity { sketch, entity } => {
                entities.push((sketch, entity));
            },
            SelectionItem::Body(body) => {
                bodies.push(body);
            },
            SelectionItem::Sketch(_) => {},
        }
        proof {
            assert forall|sketch: SketchId, entity: SketchEntityId|
                entities@.contains((sketch, entity)) <==> next.contains(entity_item(sketch, entity)) by {
                if next.contains(entity_item(sketch, entity)) {
                    let k = choose|k: int| 0 <= k < next.len() && next[k] == entity_item(sketch, entity);
                    if k < i {
                        assert(prefix[k] == next[k]);
                    } else {
                        assert(entities@.last() == (sketch, entity));
                    }
                }
                if prefix.contains(entity_item(sketch, entity)) {
                    let k = choose|k: int| 0 <= k < prefix.len() && prefix[k] == entity_item(sketch, entity);
                    assert(next[k] == prefix[k]);
                }
                if entities@.contains((sketch, entity)) && !old_entities.contains((sketch, entity)) {
                    assert(next[i as int] == entity_item(sketch, entity));
                }
                if old_entities.contains((sketch, entity)) {
                    let k = choose|k: int| 0 <= k < old_entities.len() && old_entities[k] == (sketch, entity);
                    assert(entities@[k] == (sketch, entity));
                }
                if entities@.contains((sketch, entity)) {
                    let k = choose|k: int| 0 <= k < entities@.len() && entities@[k] == (sketch, entity);
                    if k < old_entities.len() {
                        assert(old_entities[k] == (sketch, entity));
                    }
                }
            }
            assert forall|body: BodyId| bodies@.contains(body) <==> next.contains(SelectionItem::Body(body)) by {
                if next.contains(SelectionItem::Body(body)) {
                    let k = choose|k: int| 0 <= k < next.len() && next[k] == SelectionItem::Body(body);
                    if k < i {
                        assert(prefix[k] == next[k]);
                    } else {
                        assert(bodies@.last() == body);
                    }
                }
                if prefix.contains(SelectionItem::Body(body)) {
                    let k = choose|k: int| 0 <= k < prefix.len() && prefix[k] == SelectionItem::Body(body);
                    assert(next[k] == prefix[k]);
                }
                if bodies@.contains(body) && !old_bodies.contains(body) {
                    assert(next[i as int] == SelectionItem::Body(body));
                }
                if old_bodies.contains(body) {
                    let k = choose|k: int| 0 <= k < old_bodies.len() && old_bodies[k] == body;
                    assert(bodies@[k] == body);
                }
                if bodies@.contains(body) {
                    let k = choose|k: int| 0 <= k < bodies@.len() && bodies@[k] == body;
                    if k < old_bodies.len() {
                        assert(old_bodies[k] == body);
                    }
                }
            }
        }
        i = i + 1;
    }
    proof {
        assert(items@.take(items@.len() as int) =~= items@);
        assert forall|sketch: SketchId, entity: SketchEntityId|
            items@.contains(entity_item(sketch, entity)) <==> selection@.contains(entity_item(sketch, entity)) by {
            assert(items@.to_set().contains(entity_item(sketch, entity)) == items@.contains(
                entity_item(sketch, entity),
            ));
        }
        assert forall|body: BodyId|
            items@.contains(SelectionItem::Body(body)) <==> selection@.contains(SelectionItem::Body(body)) by {
            assert(items@.to_set().contains(SelectionItem::Body(body)) == items@.contains(
                SelectionItem::Body(body),
            ));
        }
    }
    (entities, bodies)
}

/// Whether `item` survives "delete selection".
fn is_sketch_item(item: &SelectionItem) -> (r: bool)
    ensures
        r == (*item is Sketch),
{
    match item {
        SelectionItem::Sketch(_) => true,
        _ => false,
    }
}

/// After "delete selection" only selected sketches stay selected: every
/// deleted entity and body leaves the selection.
pub fn forget_deleted(selection: &mut Selection)
    ensures
        final(selection)@ == old(selection)@.filter(|item: SelectionItem| item is Sketch),
{
    selection.retain(|item: &SelectionItem| -> (r: bool)
        ensures
            r == (*item is Sketch),
        { is_sketch_item(item) });
    proof {
        assert(final(selection)@ =~= old(selection)@.filter(|item: SelectionItem| item is Sketch));
    }
}

/// The selection after a line fillet: when either filleted line was
/// selected, the lines it removed leave the selection and the lines and
/// arc it inserted join it; otherwise the selection is unchanged.
pub open spec fn after_fillet(
    s: Set<SelectionItem>,
    sketch: SketchId,
    line_a: SketchEntityId,
    line_b: SketchEntityId,
    removed: Seq<SketchEntityId>,
    inserted: Seq<SketchEntityId>,
) -> Set<SelectionItem> {
    if s.contains(entity_item(sketch, line_a)) || s.contains(entity_item(sketch, line_b)) {
        s.difference(removed.map_values(|e: SketchEntityId| entity_item(sketch, e)).to_set()).union(
            inserted.map_values(|e: SketchEntityId| entity_item(sketch, e)).to_set(),
        )
    } else {
        s
    }
}

/// Carries the selection across a line fillet of `line_a` and `line_b`
/// that removed the entities `removed` and inserted `inserted`.
pub fn carry_fillet_selection(
    selection: &mut Selection,
    sketch: SketchId,
    line_a: SketchEntityId,
    line_b: SketchEntityId,
    removed: &[SketchEntityId],
    inserted: &[SketchEntityId],
)
    ensures
        final(selection)@ == after_fillet(old(selection)@, sketch, line_a, line_b, removed@, inserted@),
{
    let selected_a = selection.contains(&SelectionItem::SketchEntity { sketch, entity: line_a });
    let selected_b = selection.contains(&SelectionItem::SketchEntity { sketch, entity: line_b });
    if !(selected_a || selected_b) {
        return;
    }
    let mut gone: Vec<SelectionItem> = Vec::new();
    let mut i: usize = 0;
    while i < removed.len()
        invariant
            i <= removed@.len(),
            gone@ == removed@.take(i as int).map_values(|e: SketchEntityId| entity_item(sketch, e)),
        decreases removed@.len() - i,
    {
        gone.push(SelectionItem::SketchEntity { sketch, entity: removed[i] });
        i = i + 1;
        proof {
            assert(gone@ =~= removed@.take(i as int).map_values(|e: SketchEntityId| entity_item(sketch, e)));
        }
    }
    let mut added: Vec<SelectionItem> = Vec::new();
    let mut j: usize = 0;
    while j < inserted.len()
        invariant
            j <= inserted@.len(),
            added@ == inserted@.take(j as int).map_values(|e: SketchEntityId| entity_item(sketch, e)),
        decreases inserted@.len() - j,
    {
        added.push(SelectionItem::SketchEntity { sketch, entity: inserted[j] });
        j = j + 1;
        proof {
            assert(added@ =~= inserted@.take(j as int).map_values(|e: SketchEntityId| entity_item(sketch, e)));
        }
    }
    proof {
        assert(removed@.take(removed@.len() as int) =~= removed@);
        assert(inserted@.take(inserted@.len() as int) =~= inserted@);
    }
    selection.apply_edit(gone.as_slice(), SelectionEditMode::Remove);
    selection.apply_edit(added.as_slice(), SelectionEditMode::Add);
}

/// A constraint may join a sketch when every entity it references exists
/// in the sketch and the sketch does not already hold the same constraint.
pub open spec fn admissible(entities: Seq<SketchEntityId>, existing: Seq<Constraint>, c: Constraint) -> bool {
    &&& forall|i: int|
        0 <= i < c.spec_referenced_entities().len() ==> entities.contains(
            #[trigger] c.spec_referenced_entities()[i],
        )
    &&& !existing.contains(c)
}

fn holds_entity(entities: &[SketchEntityId], id: SketchEntityId) -> (r: bool)
    ensures
        r == entities@.contains(id),
{
    let mut i: usize = 0;
    while i < entities.len()
        invariant
            i <= entities@.len(),
            forall|k: int| 0 <= k < i ==> entities@[k] != id,
        decreases entities@.len() - i,
    {
        if entities[i] == id {
            return true;
        }
        i = i + 1;
    }
    false
}

/// Whether `c` may be added to a sketch whose entities are `entities` and
/// whose constraints are `existing`.
pub fn constraint_admissible(entities: &[SketchEntityId], existing: &[Constraint], c: &Constraint) -> (r: bool)
    ensures
        r == admissible(entities@, existing@, *c),
{
    let refs = c.referenced_entities();
    let mut i: usize = 0;
    while i < refs.len()
        invariant
            refs@ == c.spec_referenced_entities(),
            i <= refs@.len(),
            forall|k: int| 0 <= k < i ==> entities@.contains(#[trigger] refs@[k]),
        decreases refs@.len() - i,
    {
        if !holds_entity(entities, refs[i]) {
            return false;
        }
        i = i + 1;
    }
    let mut j: usize = 0;
    while j < existing.len()
        invariant
            j <= existing@.len(),
            forall|k: int| 0 <= k < j ==> existing@[k] != *c,
        decreases existing@.len() - j,
    {
        if existing[j] == *c {
            proof {
                assert(existing@.contains(*c));
            }
            return false;
        }
        j = j + 1;
    }
    true
}

/// An item is among the items of the entities that exist exactly when its
/// entity is listed and exists, and from a list without repeats the items
/// hold no repeats.
pub proof fn lemma_existing_entity_items(
    sketch: SketchId,
    entities: Seq<SketchEntityId>,
    present: Seq<bool>,
)
    requires
        present.len() == entities.len(),
    ensures
        entities.no_duplicates() ==> existing_entity_items(sketch, entities, present).no_duplicates(),
        forall|e: SketchEntityId|
            #[trigger] existing_entity_items(sketch, entities, present).contains(entity_item(sketch, e))
                <==> exists|k: int| 0 <= k < entities.len() && entities[k] == e && present[k],
    decreases entities.len(),
{
    if entities.len() > 0 {
        let n = entities.len() - 1;
        let d = entities.drop_last();
        let p = present.take(n as int);
        if entities.no_duplicates() {
            assert forall|a: int, b: int| 0 <= a < d.len() && 0 <= b < d.len() && a != b implies d[a]
                != d[b] by {
                assert(d[a] == entities[a] && d[b] == entities[b]);
            }
        }
        lemma_existing_entity_items(sketch, d, p);
        let rest = existing_entity_items(sketch, d, p);
        let last = entities.last();
        assert forall|e: SketchEntityId|
            #[trigger] existing_entity_items(sketch, entities, present).contains(entity_item(sketch, e))
                <==> exists|k: int| 0 <= k < entities.len() && entities[k] == e && present[k] by {
            if existing_entity_items(sketch, entities, present).contains(entity_item(sketch, e)) {
                if rest.contains(entity_item(sketch, e)) {
                    let k = choose|k: int| 0 <= k < d.len() && d[k] == e && p[k];
                    assert(entities[k] == e && present[k]);
                } else {
                    let all = existing_entity_items(sketch, entities, present);
                    let j = choose|j: int| 0 <= j < all.len() && all[j] == entity_item(sketch, e);
                    assert(present[n as int]);
                    assert(all[j] == rest.push(entity_item(sketch, last))[j]);
                    assert(j == rest.len());
                    assert(e == last);
                    assert(entities[n as int] == e);
                }
            }
            if exists|k: int| 0 <= k < entities.len() && entities[k] == e && present[k] {
                let k = choose|k: int| 0 <= k < entities.len() && entities[k] == e && present[k];
                if k < n {
                    assert(d[k] == e && p[k]);
                    assert(rest.contains(entity_item(sketch, e)));
                    let j = choose|j: int| 0 <= j < rest.len() && rest[j] == entity_item(sketch, e);
                    if present[n as int] {
                        assert(rest.push(entity_item(sketch, last))[j] == entity_item(sketch, e));
                    }
                } else {
                    let all = rest.push(entity_item(sketch, last));
                    assert(all[rest.len() as int] == entity_item(sketch, e));
                }
            }
        }
        if present[n as int] && entities.no_duplicates() {
            assert(!rest.contains(entity_item(sketch, last))) by {
                if rest.contains(entity_item(sketch, last)) {
                    let k = choose|k: int| 0 <= k < d.len() && d[k] == last && p[k];
                    assert(entities[k] == entities[n as int]);
                }
            }
            let all = rest.push(entity_item(sketch, last));
            assert forall|a: int, b: int| 0 <= a < all.len() && 0 <= b < all.len() && a != b implies all[a]
                != all[b] by {
                if a == rest.len() {
                    assert(rest.contains(all[b]) || all[a] != all[b]);
                } else if b == rest.len() {
                    assert(rest.contains(all[a]) || all[a] != all[b]);
                }
            }
        }
    }
}

/// Toggling entities of an existing sketch, listed without repeats, flips
/// exactly the items of the listed entities that exist.
pub proof fn lemma_select_entities_toggle(
    s: Set<SelectionItem>,
    sketch: SketchId,
    entities: Seq<SketchEntityId>,
    present: Seq<bool>,
)
    requires
        present.len() == entities.len(),
        entities.no_duplicates(),
    ensures
        edited(s, existing_entity_items(sketch, entities, present), SelectionEditMode::Toggle) == s.difference(
            existing_entity_items(sketch, entities, present).to_set(),
        ).union(existing_entity_items(sketch, entities, present).to_set().difference(s)),
{
    lemma_existing_entity_items(sketch, entities, present);
    lemma_toggle_is_symmetric_difference(s, existing_entity_items(sketch, entities, present));
}

} // verus!
