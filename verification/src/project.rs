//! The project as the command dispatcher sees it: the workplanes, every
//! sketch with its entities (by id and shape), dimensions and constraint
//! table, the bodies and features, the active sketch, and the source of
//! fresh ids. Coordinates live with the application, which keeps them
//! under the same ids.

use vstd::prelude::*;

use crate::body::{next_revision, Body, BodyView};
use crate::constraint::Constraint;
use crate::feature::{
    bodies_linked_to, key_spans, linked_body, FeatureKind, FeatureLink, FeatureLinkView,
};
use crate::ids::{BodyId, ConstraintId, FeatureId, SketchEntityId, SketchId};
use crate::naming::{serial_name, SerialCounters};
use crate::sketch::SketchConstraints;
use crate::solver::EntityKind;
use crate::topology::ProfileKey;

verus! {

/// A sketch: its id and name, the slot of its workplane, its entities in
/// the order they were added, its dimensions and its constraints.
pub struct SketchModel {
    pub id: SketchId,
    pub name: String,
    pub workplane: u64,
    pub entities: Vec<(SketchEntityId, EntityKind)>,
    pub dimensions: Vec<u64>,
    pub constraints: SketchConstraints,
}

/// What a sketch means.
pub ghost struct SketchView {
    pub id: SketchId,
    pub name: Seq<char>,
    pub workplane: u64,
    pub entities: Seq<(SketchEntityId, EntityKind)>,
    pub dimensions: Seq<u64>,
    pub constraints: Map<u64, Constraint>,
}

impl View for SketchModel {
    type V = SketchView;

    open spec fn view(&self) -> SketchView {
        SketchView {
            id: self.id,
            name: self.name@,
            workplane: self.workplane,
            entities: self.entities@,
            dimensions: self.dimensions@,
            constraints: self.constraints@,
        }
    }
}

/// A project: its name, its workplanes by slot, its sketches, bodies and
/// features in the order they were made, the active sketch, the next
/// fresh id and the serials of the next body and feature names.
pub struct ProjectModel {
    pub name: String,
    pub workplanes: Vec<u64>,
    pub sketches: Vec<SketchModel>,
    pub bodies: Vec<(BodyId, Body)>,
    pub features: Vec<(FeatureId, FeatureLink)>,
    pub active_sketch: Option<SketchId>,
    pub next_id: u64,
    pub names: SerialCounters,
}

/// What a project means.
pub ghost struct ProjectView {
    pub name: Seq<char>,
    pub workplanes: Seq<u64>,
    pub sketches: Seq<SketchView>,
    pub bodies: Seq<(BodyId, BodyView)>,
    pub features: Seq<(FeatureId, FeatureLinkView)>,
    pub active_sketch: Option<SketchId>,
    pub next_id: u64,
    pub names: SerialCounters,
}

impl View for ProjectModel {
    type V = ProjectView;

    open spec fn view(&self) -> ProjectView {
        ProjectView {
            name: self.name@,
            workplanes: self.workplanes@,
            sketches: self.sketches@.map_values(|s: SketchModel| s@),
            bodies: self.bodies@.map_values(|b: (BodyId, Body)| (b.0, b.1@)),
            features: self.features@.map_values(|f: (FeatureId, FeatureLink)| (f.0, f.1@)),
            active_sketch: self.active_sketch,
            next_id: self.next_id,
            names: self.names,
        }
    }
}

/// Whether `s` has an entity with id `e`.
pub open spec fn has_entity(s: SketchView, e: SketchEntityId) -> bool {
    exists|k: int| 0 <= k < s.entities.len() && (#[trigger] s.entities[k]).0 == e
}

/// The entity ids of `s`, in order.
pub open spec fn entity_ids(s: SketchView) -> Seq<SketchEntityId> {
    s.entities.map_values(|e: (SketchEntityId, EntityKind)| e.0)
}

/// Whether the project has a sketch with id `id`.
pub open spec fn has_sketch(p: ProjectView, id: SketchId) -> bool {
    exists|i: int| 0 <= i < p.sketches.len() && (#[trigger] p.sketches[i]).id == id
}

/// The position of sketch `id` in the project (meaningful when it has it).
pub open spec fn sketch_pos(p: ProjectView, id: SketchId) -> int {
    choose|i: int| 0 <= i < p.sketches.len() && (#[trigger] p.sketches[i]).id == id
}

/// Sketch `id` of the project (meaningful when it has it).
pub open spec fn sketch_of(p: ProjectView, id: SketchId) -> SketchView {
    p.sketches[sketch_pos(p, id)]
}

/// Whether the project has a body with id `id`.
pub open spec fn has_body(p: ProjectView, id: BodyId) -> bool {
    exists|i: int| 0 <= i < p.bodies.len() && (#[trigger] p.bodies[i]).0 == id
}

/// Whether a sketch's entities carry distinct ids below `bound`.
pub open spec fn sketch_wf(s: SketchView, bound: u64) -> bool {
    &&& s.id.0 < bound
    &&& forall|a: int, b: int|
        0 <= a < s.entities.len() && 0 <= b < s.entities.len() && a != b ==> (#[trigger] s.entities[a]).0
            != (#[trigger] s.entities[b]).0
    &&& forall|k: int| 0 <= k < s.entities.len() ==> (#[trigger] s.entities[k]).0.0 < bound
    &&& forall|k: int| 0 <= k < s.dimensions.len() ==> #[trigger] s.dimensions[k] < bound
}

/// Whether a project is well formed: workplane slots are distinct,
/// sketches, bodies and features carry distinct ids, each sketch's entities too, and every id is below the
/// next fresh id.
pub open spec fn project_wf(p: ProjectView) -> bool {
    &&& p.workplanes.no_duplicates()
    &&& forall|a: int, b: int|
        0 <= a < p.sketches.len() && 0 <= b < p.sketches.len() && a != b ==> (#[trigger] p.sketches[a]).id
            != (#[trigger] p.sketches[b]).id
    &&& forall|i: int| 0 <= i < p.sketches.len() ==> sketch_wf(#[trigger] p.sketches[i], p.next_id)
    &&& forall|a: int, b: int|
        0 <= a < p.bodies.len() && 0 <= b < p.bodies.len() && a != b ==> (#[trigger] p.bodies[a]).0
            != (#[trigger] p.bodies[b]).0
    &&& forall|i: int| 0 <= i < p.bodies.len() ==> (#[trigger] p.bodies[i]).0.0 < p.next_id
    &&& forall|a: int, b: int|
        0 <= a < p.features.len() && 0 <= b < p.features.len() && a != b ==> (#[trigger] p.features[a]).0
            != (#[trigger] p.features[b]).0
    &&& forall|i: int| 0 <= i < p.features.len() ==> (#[trigger] p.features[i]).0.0 < p.next_id
}

/// A wf project finds each sketch at the one position that has its id.
pub proof fn lemma_sketch_pos(p: ProjectView, i: int)
    requires
        project_wf(p),
        0 <= i < p.sketches.len(),
    ensures
        has_sketch(p, p.sketches[i].id),
        sketch_pos(p, p.sketches[i].id) == i,
        sketch_of(p, p.sketches[i].id) == p.sketches[i],
{
    let id = p.sketches[i].id;
    assert(p.sketches[i].id == id);
    let j = sketch_pos(p, id);
    if j != i {
        assert(p.sketches[j].id != p.sketches[i].id);
    }
}

impl SketchModel {
    /// A new sketch with no entities, dimensions or constraints.
    pub fn new(id: SketchId, name: String, workplane: u64) -> (s: Self)
        ensures
            s@ == (SketchView {
                id,
                name: name@,
                workplane,
                entities: Seq::empty(),
                dimensions: Seq::empty(),
                constraints: Map::empty(),
            }),
    {
        SketchModel {
            id,
            name,
            workplane,
            entities: Vec::new(),
            dimensions: Vec::new(),
            constraints: SketchConstraints::new(),
        }
    }

    /// Where entity `e` stands among the sketch's entities.
    pub fn entity_position(&self, e: SketchEntityId) -> (r: Option<usize>)
        ensures
            r matches Some(k) ==> k < self@.entities.len() && self@.entities[k as int].0 == e,
            r is None <==> !has_entity(self@, e),
    {
        let mut k: usize = 0;
        while k < self.entities.len()
            invariant
                k <= self.entities@.len(),
                forall|j: int| 0 <= j < k ==> (#[trigger] self.entities@[j]).0 != e,
            decreases self.entities@.len() - k,
        {
            if self.entities[k].0 == e {
                proof {
                    assert((self@.entities[k as int]).0 == e);
                }
                return Some(k);
            }
            k = k + 1;
        }
        None
    }

    /// The ids of the sketch's entities, in order.
    pub fn entity_id_list(&self) -> (r: Vec<SketchEntityId>)
        ensures
            r@ == entity_ids(self@),
    {
        let mut r: Vec<SketchEntityId> = Vec::new();
        let mut k: usize = 0;
        while k < self.entities.len()
            invariant
                k <= self.entities@.len(),
                r@ == entity_ids(self@).take(k as int),
            decreases self.entities@.len() - k,
        {
            r.push(self.entities[k].0);
            proof {
                assert(entity_ids(self@).take(k + 1) =~= entity_ids(self@).take(k as int).push(
                    self.entities@[k as int].0,
                ));
            }
            k = k + 1;
        }
        proof {
            assert(entity_ids(self@).take(k as int) =~= entity_ids(self@));
        }
        r
    }
}


/// The entities of a sketch other than `e`, in order.
pub open spec fn drop_entity(
    es: Seq<(SketchEntityId, EntityKind)>,
    e: SketchEntityId,
) -> Seq<(SketchEntityId, EntityKind)>
    decreases es.len(),
{
    if es.len() == 0 {
        es
    } else {
        let rest = drop_entity(es.drop_last(), e);
        if es.last().0 == e {
            rest
        } else {
            rest.push(es.last())
        }
    }
}

/// The constraints of a table that do not reference `e`.
pub open spec fn constraints_without(m: Map<u64, Constraint>, e: SketchEntityId) -> Map<u64, Constraint> {
    m.restrict(m.dom().filter(|k: u64| !m[k].references(e)))
}

/// A sketch after its entity `e` is deleted: the entity is gone, and so is
/// every constraint that references it. A sketch without `e` is unchanged.
pub open spec fn without_entity(s: SketchView, e: SketchEntityId) -> SketchView {
    if has_entity(s, e) {
        SketchView {
            entities: drop_entity(s.entities, e),
            constraints: constraints_without(s.constraints, e),
            ..s
        }
    } else {
        s
    }
}

/// Dropping an entity keeps the other entries, in order, and nothing else.
pub proof fn lemma_drop_entity(es: Seq<(SketchEntityId, EntityKind)>, e: SketchEntityId)
    ensures
        forall|x: (SketchEntityId, EntityKind)| #[trigger] drop_entity(es, e).contains(x) <==> es.contains(x)
            && x.0 != e,
        (forall|a: int, b: int|
            0 <= a < es.len() && 0 <= b < es.len() && a != b ==> (#[trigger] es[a]).0 != (#[trigger] es[b]).0)
            ==> (forall|a: int, b: int|
            0 <= a < drop_entity(es, e).len() && 0 <= b < drop_entity(es, e).len() && a != b
                ==> (#[trigger] drop_entity(es, e)[a]).0 != (#[trigger] drop_entity(es, e)[b]).0),
    decreases es.len(),
{
    if es.len() > 0 {
        let d = es.drop_last();
        lemma_drop_entity(d, e);
        let rest = drop_entity(d, e);
        assert forall|x: (SketchEntityId, EntityKind)| #[trigger] drop_entity(es, e).contains(x) <==> es.contains(x)
            && x.0 != e by {
            if es.contains(x) && x.0 != e {
                let k = choose|k: int| 0 <= k < es.len() && es[k] == x;
                if k < es.len() - 1 {
                    assert(d[k] == x);
                    assert(d.contains(x));
                    assert(rest.contains(x));
                    if es.last().0 != e {
                        let j = choose|j: int| 0 <= j < rest.len() && rest[j] == x;
                        assert(rest.push(es.last())[j] == x);
                    }
                } else {
                    assert(rest.push(es.last())[rest.len() as int] == x);
                }
            }
            if drop_entity(es, e).contains(x) {
                if rest.contains(x) {
                    let k = choose|k: int| 0 <= k < d.len() && d[k] == x;
                    assert(es[k] == x);
                } else {
                    let r = drop_entity(es, e);
                    let j = choose|j: int| 0 <= j < r.len() && r[j] == x;
                    assert(es.last().0 != e);
                    if j < rest.len() {
                        assert(r[j] == rest[j]);
                        assert(rest.contains(x));
                    }
                    assert(x == es.last());
                    assert(es[es.len() - 1] == x);
                }
            }
        }
        if forall|a: int, b: int|
            0 <= a < es.len() && 0 <= b < es.len() && a != b ==> (#[trigger] es[a]).0 != (#[trigger] es[b]).0 {
            assert forall|a: int, b: int|
                0 <= a < d.len() && 0 <= b < d.len() && a != b implies (#[trigger] d[a]).0 != (#[trigger] d[b]).0 by {
                assert(d[a] == es[a] && d[b] == es[b]);
            }
            if es.last().0 != e {
                let r = rest.push(es.last());
                assert forall|a: int, b: int|
                    0 <= a < r.len() && 0 <= b < r.len() && a != b implies (#[trigger] r[a]).0 != (#[trigger] r[b]).0 by {
                    if a == rest.len() || b == rest.len() {
                        let o = if a == rest.len() { b } else { a };
                        assert(rest.contains(r[o]));
                        assert(d.contains(r[o]));
                        let k = choose|k: int| 0 <= k < d.len() && d[k] == r[o];
                        assert(es[k] == r[o]);
                        assert(es[es.len() - 1] == es.last());
                    }
                }
            }
        }
    }
}

impl SketchModel {
    /// Adds entity `id` of shape `kind` after the others.
    pub fn add_entity(&mut self, id: SketchEntityId, kind: EntityKind)
        ensures
            final(self)@ == (SketchView { entities: old(self)@.entities.push((id, kind)), ..old(self)@ }),
    {
        self.entities.push((id, kind));
    }

    /// Adds dimension `id` after the others.
    pub fn add_dimension(&mut self, id: u64)
        ensures
            final(self)@ == (SketchView { dimensions: old(self)@.dimensions.push(id), ..old(self)@ }),
    {
        self.dimensions.push(id);
    }

    /// Deletes entity `e` and every constraint that references it; true
    /// when the sketch had the entity.
    pub fn remove_entity(&mut self, e: SketchEntityId) -> (r: bool)
        ensures
            r == has_entity(old(self)@, e),
            final(self)@ == without_entity(old(self)@, e),
    {
        if self.entity_position(e).is_none() {
            return false;
        }
        let ghost old_es = self.entities@;
        let mut kept: Vec<(SketchEntityId, EntityKind)> = Vec::new();
        let mut k: usize = 0;
        while k < self.entities.len()
            invariant
                self.entities@ == old_es,
                k <= old_es.len(),
                kept@ == drop_entity(old_es.take(k as int), e),
            decreases old_es.len() - k,
        {
            proof {
                assert(old_es.take(k + 1).drop_last() =~= old_es.take(k as int));
                assert(old_es.take(k + 1).last() == old_es[k as int]);
            }
            if self.entities[k].0 != e {
                kept.push(self.entities[k]);
            }
            k = k + 1;
        }
        proof {
            assert(old_es.take(k as int) =~= old_es);
        }
        let ghost old_cs = self.constraints@;
        self.entities = kept;
        self.constraints.remove_entity_constraints(e);
        proof {
            assert(self.constraints@ =~= constraints_without(old_cs, e));
        }
        true
    }
}

/// The project with sketch `i` replaced by `s`.
pub open spec fn with_sketch(p: ProjectView, i: int, s: SketchView) -> ProjectView {
    ProjectView { sketches: p.sketches.update(i, s), ..p }
}

/// Replacing a sketch by one with the same id that is well formed keeps
/// the project well formed.
pub proof fn lemma_with_sketch_wf(p: ProjectView, i: int, s: SketchView)
    requires
        project_wf(p),
        0 <= i < p.sketches.len(),
        s.id == p.sketches[i].id,
        sketch_wf(s, p.next_id),
    ensures
        project_wf(with_sketch(p, i, s)),
        has_sketch(with_sketch(p, i, s), s.id),
        sketch_of(with_sketch(p, i, s), s.id) == s,
        forall|id: SketchId| #[trigger] has_sketch(with_sketch(p, i, s), id) <==> has_sketch(p, id),
{
    let q = with_sketch(p, i, s);
    assert forall|a: int, b: int|
        0 <= a < q.sketches.len() && 0 <= b < q.sketches.len() && a != b implies (#[trigger] q.sketches[a]).id
            != (#[trigger] q.sketches[b]).id by {
        assert(p.sketches[a].id != p.sketches[b].id);
    }
    assert forall|k: int| 0 <= k < q.sketches.len() implies sketch_wf(#[trigger] q.sketches[k], q.next_id) by {
        if k != i {
            assert(q.sketches[k] == p.sketches[k]);
        }
    }
    lemma_sketch_pos(q, i);
    assert forall|id: SketchId| #[trigger] has_sketch(q, id) <==> has_sketch(p, id) by {
        if has_sketch(p, id) {
            let j = choose|j: int| 0 <= j < p.sketches.len() && (#[trigger] p.sketches[j]).id == id;
            assert(q.sketches[j].id == id);
        }
        if has_sketch(q, id) {
            let j = choose|j: int| 0 <= j < q.sketches.len() && (#[trigger] q.sketches[j]).id == id;
            assert(p.sketches[j].id == id);
        }
    }
}

/// Raising the next fresh id keeps the project well formed.
pub proof fn lemma_bump_wf(p: ProjectView, n: u64)
    requires
        project_wf(p),
        p.next_id <= n,
    ensures
        project_wf(ProjectView { next_id: n, ..p }),
{
    let q = ProjectView { next_id: n, ..p };
    assert forall|k: int| 0 <= k < q.sketches.len() implies sketch_wf(#[trigger] q.sketches[k], q.next_id) by {
        assert(sketch_wf(p.sketches[k], p.next_id));
    }
}

impl ProjectModel {
    /// Where sketch `id` stands in the project.
    pub fn find_sketch(&self, id: SketchId) -> (r: Option<usize>)
        ensures
            r matches Some(i) ==> i < self@.sketches.len() && self@.sketches[i as int].id == id,
            r is None <==> !has_sketch(self@, id),
    {
        let mut i: usize = 0;
        while i < self.sketches.len()
            invariant
                i <= self.sketches@.len(),
                forall|j: int| 0 <= j < i ==> (#[trigger] self.sketches@[j]).id != id,
            decreases self.sketches@.len() - i,
        {
            if self.sketches[i].id == id {
                proof {
                    assert(self@.sketches[i as int].id == id);
                }
                return Some(i);
            }
            i = i + 1;
        }
        proof {
            assert forall|j: int| 0 <= j < self@.sketches.len() implies (#[trigger] self@.sketches[j]).id != id by {
                assert(self@.sketches[j] == self.sketches@[j]@);
            }
        }
        None
    }

    /// Whether the project has body `id`.
    pub fn contains_body(&self, id: BodyId) -> (r: bool)
        ensures
            r == has_body(self@, id),
    {
        let mut i: usize = 0;
        while i < self.bodies.len()
            invariant
                i <= self.bodies@.len(),
                forall|j: int| 0 <= j < i ==> (#[trigger] self.bodies@[j]).0 != id,
            decreases self.bodies@.len() - i,
        {
            if self.bodies[i].0 == id {
                proof {
                    assert(self@.bodies[i as int].0 == id);
                }
                return true;
            }
            i = i + 1;
        }
        proof {
            assert forall|j: int| 0 <= j < self@.bodies.len() implies (#[trigger] self@.bodies[j]).0 != id by {
                assert(self@.bodies[j].0 == self.bodies@[j].0);
            }
        }
        false
    }

    /// Hands out the next fresh id.
    fn fresh_id(&mut self) -> (id: u64)
        requires
            old(self).next_id < u64::MAX,
        ensures
            id == old(self).next_id,
            final(self)@ == (ProjectView { next_id: (old(self).next_id + 1) as u64, ..old(self)@ }),
    {
        let id = self.next_id;
        self.next_id = self.next_id + 1;
        id
    }

    /// Takes sketch `i` out, to be put back by `restore_sketch`.
    fn take_sketch(&mut self, i: usize) -> (s: SketchModel)
        requires
            i < old(self).sketches@.len(),
        ensures
            s == old(self).sketches@[i as int],
            final(self).sketches@ == old(self).sketches@.remove(i as int),
            final(self).name == old(self).name,
            final(self).workplanes == old(self).workplanes,
            final(self).bodies == old(self).bodies,
            final(self).features == old(self).features,
            final(self).active_sketch == old(self).active_sketch,
            final(self).next_id == old(self).next_id,
            final(self).names == old(self).names,
    {
        self.sketches.remove(i)
    }

    /// Puts sketch `s` back at position `i`.
    fn restore_sketch(&mut self, i: usize, s: SketchModel)
        requires
            i <= old(self).sketches@.len(),
        ensures
            final(self).sketches@ == old(self).sketches@.insert(i as int, s),
            final(self).name == old(self).name,
            final(self).workplanes == old(self).workplanes,
            final(self).bodies == old(self).bodies,
            final(self).features == old(self).features,
            final(self).active_sketch == old(self).active_sketch,
            final(self).next_id == old(self).next_id,
            final(self).names == old(self).names,
    {
        self.sketches.insert(i, s);
    }
}

/// Taking a sketch out and putting another back in its place replaces it.
proof fn lemma_take_restore(v: Seq<SketchModel>, i: int, s: SketchModel)
    requires
        0 <= i < v.len(),
    ensures
        v.remove(i).insert(i, s).map_values(|m: SketchModel| m@) == v.map_values(|m: SketchModel| m@).update(
            i,
            s@,
        ),
{
    assert(v.remove(i).insert(i, s).map_values(|m: SketchModel| m@) =~= v.map_values(|m: SketchModel| m@).update(
        i,
        s@,
    ));
}

/// Sketch `id` of `p` edited into `s`: the project with that sketch
/// replaced.
pub open spec fn with_sketch_of(p: ProjectView, id: SketchId, s: SketchView) -> ProjectView {
    with_sketch(p, sketch_pos(p, id), s)
}

impl ProjectModel {
    /// Adds a new entity of shape `kind` to sketch `sketch` under the next
    /// fresh id, which it gives; nothing happens without such a sketch.
    pub fn add_entity_to(&mut self, sketch: SketchId, kind: EntityKind) -> (r: Option<SketchEntityId>)
        requires
            project_wf(old(self)@),
            old(self).next_id < u64::MAX,
        ensures
            project_wf(final(self)@),
            has_sketch(old(self)@, sketch) ==> r == Some(SketchEntityId(old(self).next_id)) && final(self)@
                == with_sketch_of(
                ProjectView { next_id: (old(self).next_id + 1) as u64, ..old(self)@ },
                sketch,
                SketchView {
                    entities: sketch_of(old(self)@, sketch).entities.push((SketchEntityId(old(self).next_id), kind)),
                    ..sketch_of(old(self)@, sketch)
                },
            ),
            !has_sketch(old(self)@, sketch) ==> r is None && final(self)@ == old(self)@,
    {
        match self.find_sketch(sketch) {
            None => None,
            Some(i) => {
                let ghost p0 = self@;
                proof {
                    lemma_sketch_pos(p0, i as int);
                }
                let id = self.fresh_id();
                let ghost p1 = self@;
                proof {
                    lemma_bump_wf(p0, p1.next_id);
                    lemma_sketch_pos(p1, i as int);
                }
                let ghost v = self.sketches@;
                let mut s = self.take_sketch(i);
                s.add_entity(SketchEntityId(id), kind);
                proof {
                    lemma_take_restore(v, i as int, s);
                    let old_s = p1.sketches[i as int];
                    assert forall|a: int, b: int|
                        0 <= a < s@.entities.len() && 0 <= b < s@.entities.len() && a != b implies (
                        #[trigger] s@.entities[a]).0 != (#[trigger] s@.entities[b]).0 by {
                        if a < old_s.entities.len() && b < old_s.entities.len() {
                            assert(old_s.entities[a] == s@.entities[a]);
                            assert(old_s.entities[b] == s@.entities[b]);
                        } else if a < old_s.entities.len() {
                            assert(old_s.entities[a].0.0 < p0.next_id);
                        } else {
                            assert(old_s.entities[b].0.0 < p0.next_id);
                        }
                    }
                    assert(sketch_wf(s@, p1.next_id));
                    lemma_with_sketch_wf(p1, i as int, s@);
                }
                self.restore_sketch(i, s);
                Some(SketchEntityId(id))
            },
        }
    }

    /// Adds a new dimension to sketch `sketch` under the next fresh id;
    /// nothing happens without such a sketch.
    pub fn add_dimension_to(&mut self, sketch: SketchId) -> (r: Option<u64>)
        requires
            project_wf(old(self)@),
            old(self).next_id < u64::MAX,
        ensures
            project_wf(final(self)@),
            has_sketch(old(self)@, sketch) ==> r == Some(old(self).next_id) && final(self)@ == with_sketch_of(
                ProjectView { next_id: (old(self).next_id + 1) as u64, ..old(self)@ },
                sketch,
                SketchView {
                    dimensions: sketch_of(old(self)@, sketch).dimensions.push(old(self).next_id),
                    ..sketch_of(old(self)@, sketch)
                },
            ),
            !has_sketch(old(self)@, sketch) ==> r is None && final(self)@ == old(self)@,
    {
        match self.find_sketch(sketch) {
            None => None,
            Some(i) => {
                let ghost p0 = self@;
                proof {
                    lemma_sketch_pos(p0, i as int);
                }
                let id = self.fresh_id();
                let ghost p1 = self@;
                proof {
                    lemma_bump_wf(p0, p1.next_id);
                    lemma_sketch_pos(p1, i as int);
                }
                let ghost v = self.sketches@;
                let mut s = self.take_sketch(i);
                s.add_dimension(id);
                proof {
                    lemma_take_restore(v, i as int, s);
                    let old_s = p1.sketches[i as int];
                    assert forall|k: int| 0 <= k < s@.dimensions.len() implies #[trigger] s@.dimensions[k] < p1.next_id by {
                        if k < old_s.dimensions.len() {
                            assert(old_s.dimensions[k] == s@.dimensions[k]);
                        }
                    }
                    assert(sketch_wf(s@, p1.next_id));
                    lemma_with_sketch_wf(p1, i as int, s@);
                }
                self.restore_sketch(i, s);
                Some(id)
            },
        }
    }

    /// Adds constraint `c` to sketch `sketch` when every entity it
    /// references is in the sketch and the sketch does not hold an equal
    /// constraint yet; gives the new handle, or `None` when nothing was
    /// added.
    pub fn add_constraint_to(&mut self, sketch: SketchId, c: Constraint) -> (r: Option<ConstraintId>)
        requires
            project_wf(old(self)@),
            has_sketch(old(self)@, sketch) ==> sketch_of(old(self)@, sketch).constraints.len() < u32::MAX - 1,
        ensures
            project_wf(final(self)@),
            ({
                let s = sketch_of(old(self)@, sketch);
                let present = exists|k: u64| #[trigger] s.constraints.contains_key(k) && s.constraints[k] == c;
                let refs_ok = forall|i: int|
                    0 <= i < c.spec_referenced_entities().len() ==> has_entity(
                        s,
                        #[trigger] c.spec_referenced_entities()[i],
                    );
                &&& (has_sketch(old(self)@, sketch) && refs_ok && !present) ==> (r matches Some(id)
                    && !s.constraints.contains_key(id.0) && final(self)@ == with_sketch_of(
                    old(self)@,
                    sketch,
                    SketchView { constraints: s.constraints.insert(id.0, c), ..s },
                ))
                &&& !(has_sketch(old(self)@, sketch) && refs_ok && !present) ==> r is None && final(self)@
                    == old(self)@
            }),
    {
        match self.find_sketch(sketch) {
            None => None,
            Some(i) => {
                let ghost p0 = self@;
                proof {
                    lemma_sketch_pos(p0, i as int);
                }
                let ghost v = self.sketches@;
                let mut s = self.take_sketch(i);
                let ids = s.entity_id_list();
                let ghost s0 = s@;
                let r = s.constraints.add_if_admissible(ids.as_slice(), c);
                proof {
                    let refs = c.spec_referenced_entities();
                    assert((forall|k: int| 0 <= k < refs.len() ==> ids@.contains(#[trigger] refs[k])) <==> (
                    forall|k: int| 0 <= k < refs.len() ==> has_entity(s0, #[trigger] refs[k]))) by {
                        assert forall|k: int| 0 <= k < refs.len() implies ids@.contains(#[trigger] refs[k])
                            == has_entity(s0, refs[k]) by {
                            if ids@.contains(refs[k]) {
                                let j = choose|j: int| 0 <= j < ids@.len() && ids@[j] == refs[k];
                                assert(s0.entities[j].0 == refs[k]);
                            }
                            if has_entity(s0, refs[k]) {
                                let j = choose|j: int| 0 <= j < s0.entities.len() && (#[trigger] s0.entities[j]).0 == refs[k];
                                assert(ids@[j] == refs[k]);
                            }
                        }
                    }
                    lemma_take_restore(v, i as int, s);
                    assert(sketch_wf(s@, p0.next_id)) by {
                        assert(sketch_wf(s0, p0.next_id));
                    }
                    lemma_with_sketch_wf(p0, i as int, s@);
                    if r is None {
                        assert(s@ == s0);
                        assert(p0.sketches.update(i as int, s0) =~= p0.sketches);
                    }
                }
                self.restore_sketch(i, s);
                r
            },
        }
    }

    /// Removes the constraint under handle `id` from sketch `sketch`;
    /// nothing happens without such a sketch or constraint.
    pub fn remove_constraint_from(&mut self, sketch: SketchId, id: ConstraintId)
        requires
            project_wf(old(self)@),
        ensures
            project_wf(final(self)@),
            has_sketch(old(self)@, sketch) ==> final(self)@ == with_sketch_of(
                old(self)@,
                sketch,
                SketchView {
                    constraints: sketch_of(old(self)@, sketch).constraints.remove(
                        crate::sketch::slot_key(id.0),
                    ),
                    ..sketch_of(old(self)@, sketch)
                },
            ),
            !has_sketch(old(self)@, sketch) ==> final(self)@ == old(self)@,
    {
        match self.find_sketch(sketch) {
            None => {},
            Some(i) => {
                let ghost p0 = self@;
                proof {
                    lemma_sketch_pos(p0, i as int);
                }
                let ghost v = self.sketches@;
                let mut s = self.take_sketch(i);
                let ghost s0 = s@;
                s.constraints.remove_constraint(id);
                proof {
                    lemma_take_restore(v, i as int, s);
                    assert(sketch_wf(s@, p0.next_id)) by {
                        assert(sketch_wf(s0, p0.next_id));
                    }
                    lemma_with_sketch_wf(p0, i as int, s@);
                    assert(s@.constraints =~= s0.constraints.remove(crate::sketch::slot_key(id.0)));
                }
                self.restore_sketch(i, s);
            },
        }
    }

    /// Deletes entity `e` of sketch `sketch` with every constraint that
    /// references it; true when the sketch had it.
    pub fn remove_entity_from(&mut self, sketch: SketchId, e: SketchEntityId) -> (r: bool)
        requires
            project_wf(old(self)@),
        ensures
            project_wf(final(self)@),
            r == (has_sketch(old(self)@, sketch) && has_entity(sketch_of(old(self)@, sketch), e)),
            has_sketch(old(self)@, sketch) ==> final(self)@ == with_sketch_of(
                old(self)@,
                sketch,
                without_entity(sketch_of(old(self)@, sketch), e),
            ),
            !has_sketch(old(self)@, sketch) ==> final(self)@ == old(self)@,
    {
        match self.find_sketch(sketch) {
            None => false,
            Some(i) => {
                let ghost p0 = self@;
                proof {
                    lemma_sketch_pos(p0, i as int);
                }
                let ghost v = self.sketches@;
                let mut s = self.take_sketch(i);
                let ghost s0 = s@;
                let r = s.remove_entity(e);
                proof {
                    lemma_take_restore(v, i as int, s);
                    assert(sketch_wf(s0, p0.next_id));
                    lemma_drop_entity(s0.entities, e);
                    if r {
                        let es = s@.entities;
                        assert forall|k: int| 0 <= k < es.len() implies (#[trigger] es[k]).0.0 < p0.next_id by {
                            assert(es.contains(es[k]));
                            assert(s0.entities.contains(es[k]));
                            let j = choose|j: int| 0 <= j < s0.entities.len() && s0.entities[j] == es[k];
                            assert(s0.entities[j].0.0 < p0.next_id);
                        }
                    }
                    assert(sketch_wf(s@, p0.next_id));
                    lemma_with_sketch_wf(p0, i as int, s@);
                    if !r {
                        assert(p0.sketches.update(i as int, s0) =~= p0.sketches);
                    }
                }
                self.restore_sketch(i, s);
                r
            },
        }
    }
}

/// Whether a feature built from sketch `sketch` belongs to body `b`.
pub open spec fn body_linked(fs: Seq<(FeatureId, FeatureLinkView)>, sketch: SketchId, b: BodyId) -> bool {
    exists|i: int|
        0 <= i < fs.len() && (#[trigger] fs[i]).1.body == b && fs[i].1.source_sketch == Some(sketch)
}

/// A feature after sketch `sketch` is deleted: a feature built from it
/// loses its source and key and keeps its profile as a fixed copy.
pub open spec fn unlinked(f: FeatureLinkView, sketch: SketchId) -> FeatureLinkView {
    if f.source_sketch == Some(sketch) {
        FeatureLinkView { source_sketch: None, profile_key: None, profile_valid: true, ..f }
    } else {
        f
    }
}

/// A body whose mesh changes when `changed` holds.
pub open spec fn bumped_if(b: BodyView, changed: bool) -> BodyView {
    if changed {
        BodyView { revision: next_revision(b.revision), ..b }
    } else {
        b
    }
}

/// The sketches of `p` other than `id`.
pub open spec fn sketches_without(p: ProjectView, id: SketchId) -> Seq<SketchView> {
    if has_sketch(p, id) {
        p.sketches.remove(sketch_pos(p, id))
    } else {
        p.sketches
    }
}

/// The project after sketch `id` is deleted: the sketch is gone, features
/// built from it are unlinked, the meshes of their bodies change, and an
/// active sketch that was `id` gives way to the first remaining sketch.
pub open spec fn without_sketch(p: ProjectView, id: SketchId) -> ProjectView {
    let rest = sketches_without(p, id);
    ProjectView {
        sketches: rest,
        features: p.features.map_values(|f: (FeatureId, FeatureLinkView)| (f.0, unlinked(f.1, id))),
        bodies: p.bodies.map_values(
            |b: (BodyId, BodyView)| (b.0, bumped_if(b.1, body_linked(p.features, id, b.0))),
        ),
        active_sketch: if p.active_sketch == Some(id) {
            if rest.len() > 0 {
                Some(rest[0].id)
            } else {
                None
            }
        } else {
            p.active_sketch
        },
        ..p
    }
}

fn contains_body_id(v: &Vec<BodyId>, b: BodyId) -> (r: bool)
    ensures
        r == v@.contains(b),
{
    let mut i: usize = 0;
    while i < v.len()
        invariant
            i <= v@.len(),
            forall|j: int| 0 <= j < i ==> v@[j] != b,
        decreases v@.len() - i,
    {
        if v[i] == b {
            return true;
        }
        i = i + 1;
    }
    false
}

impl ProjectModel {
    /// Makes a new empty sketch named `name` on workplane `workplane` under
    /// the next fresh id and makes it active; nothing happens when there is
    /// no such workplane.
    pub fn create_sketch(&mut self, name: String, workplane: u64) -> (r: Option<SketchId>)
        requires
            project_wf(old(self)@),
            old(self).next_id < u64::MAX,
        ensures
            project_wf(final(self)@),
            old(self)@.workplanes.contains(workplane) ==> r == Some(SketchId(old(self).next_id))
                && final(self)@ == (ProjectView {
                sketches: old(self)@.sketches.push(
                    SketchView {
                        id: SketchId(old(self).next_id),
                        name: name@,
                        workplane,
                        entities: Seq::empty(),
                        dimensions: Seq::empty(),
                        constraints: Map::empty(),
                    },
                ),
                active_sketch: Some(SketchId(old(self).next_id)),
                next_id: (old(self).next_id + 1) as u64,
                ..old(self)@
            }),
            !old(self)@.workplanes.contains(workplane) ==> r is None && final(self)@ == old(self)@,
    {
        let mut found = false;
        let mut k: usize = 0;
        while k < self.workplanes.len()
            invariant
                k <= self.workplanes@.len(),
                found == (exists|j: int| 0 <= j < k && self.workplanes@[j] == workplane),
            decreases self.workplanes@.len() - k,
        {
            if self.workplanes[k] == workplane {
                found = true;
            }
            k = k + 1;
        }
        if !found {
            return None;
        }
        let ghost p0 = self@;
        let id = self.fresh_id();
        let ghost p1 = self@;
        proof {
            lemma_bump_wf(p0, p1.next_id);
        }
        let sketch = SketchModel::new(SketchId(id), name, workplane);
        self.sketches.push(sketch);
        self.active_sketch = Some(SketchId(id));
        proof {
            let q = self@;
            assert(q.sketches =~= p1.sketches.push(sketch@));
            assert forall|a: int, b: int|
                0 <= a < q.sketches.len() && 0 <= b < q.sketches.len() && a != b implies (
                #[trigger] q.sketches[a]).id != (#[trigger] q.sketches[b]).id by {
                if a < p1.sketches.len() && b < p1.sketches.len() {
                } else if a < p1.sketches.len() {
                    assert(sketch_wf(p1.sketches[a], p1.next_id));
                } else {
                    assert(sketch_wf(p1.sketches[b], p1.next_id));
                }
            }
            assert forall|k: int| 0 <= k < q.sketches.len() implies sketch_wf(#[trigger] q.sketches[k], q.next_id) by {
                if k < p1.sketches.len() {
                    assert(q.sketches[k] == p1.sketches[k]);
                }
            }
        }
        Some(SketchId(id))
    }

    /// Deletes sketch `id`: features built from it are unlinked and the
    /// meshes of their bodies change; when it was the active sketch, the
    /// first remaining sketch becomes active.
    pub fn delete_sketch(&mut self, id: SketchId)
        requires
            project_wf(old(self)@),
        ensures
            project_wf(final(self)@),
            final(self)@ == without_sketch(old(self)@, id),
    {
        let ghost p0 = self@;
        match self.find_sketch(id) {
            Some(i) => {
                proof {
                    lemma_sketch_pos(p0, i as int);
                }
                let ghost v = self.sketches@;
                let _ = self.sketches.remove(i);
                proof {
                    assert(self.sketches@.map_values(|m: SketchModel| m@) =~= v.map_values(|m: SketchModel| m@).remove(
                        i as int,
                    ));
                }
            },
            None => {},
        }
        let ghost mid = *self;
        // The bodies whose features were built from the sketch.
        let mut pairs: Vec<(BodyId, Option<SketchId>)> = Vec::new();
        let mut k: usize = 0;
        while k < self.features.len()
            invariant
                k <= self.features@.len(),
                pairs@.len() == k,
                forall|j: int| 0 <= j < k ==> #[trigger] pairs@[j] == (self.features@[j].1@.body, self.features@[j].1@.source_sketch),
            decreases self.features@.len() - k,
        {
            pairs.push((self.features[k].1.body(), self.features[k].1.source_sketch()));
            k = k + 1;
        }
        let linked = bodies_linked_to(pairs.as_slice(), id);
        proof {
            assert forall|b: BodyId| linked@.contains(b) <==> body_linked(p0.features, id, b) by {
                if linked_body(pairs@, id, b) {
                    let j = choose|j: int| 0 <= j < pairs@.len() && #[trigger] pairs@[j] == (b, Some(id));
                    assert(p0.features[j].1.body == b);
                }
                if body_linked(p0.features, id, b) {
                    let j = choose|j: int|
                        0 <= j < p0.features.len() && (#[trigger] p0.features[j]).1.body == b
                            && p0.features[j].1.source_sketch == Some(id);
                    assert(pairs@[j] == (b, Some(id)));
                }
            }
        }
        // Unlink the features.
        let mut pending: Vec<(FeatureId, FeatureLink)> = Vec::new();
        std::mem::swap(&mut pending, &mut self.features);
        let ghost fs = pending@;
        let mut n: usize = 0;
        while pending.len() > 0
            invariant
                self.sketches == mid.sketches,
                self.bodies == mid.bodies,
                self.active_sketch == mid.active_sketch,
                self.next_id == mid.next_id,
                self.names == mid.names,
                self.name == mid.name,
                self.workplanes == mid.workplanes,
                fs.len() <= usize::MAX,
                fs.len() == n + pending@.len(),
                pending@ == fs.subrange(n as int, fs.len() as int),
                self.features@.len() == n,
                forall|j: int| 0 <= j < n ==> (#[trigger] self.features@[j]).0 == fs[j].0 && self.features@[j].1@
                    == unlinked(fs[j].1@, id),
            decreases pending@.len(),
        {
            let (fid, mut f) = pending.remove(0);
            f.clear_source_sketch_if_matches(id);
            self.features.push((fid, f));
            proof {
                assert(pending@ =~= fs.subrange(n + 1, fs.len() as int));
            }
            n = n + 1;
        }
        proof {
            assert(self@.features =~= p0.features.map_values(
                |f: (FeatureId, FeatureLinkView)| (f.0, unlinked(f.1, id)),
            ));
        }
        // Mark their bodies' meshes as changed.
        let ghost mid2 = *self;
        let mut pending_b: Vec<(BodyId, Body)> = Vec::new();
        std::mem::swap(&mut pending_b, &mut self.bodies);
        let ghost bs = pending_b@;
        let total_b = pending_b.len();
        let mut m: usize = 0;
        while pending_b.len() > 0
            invariant
                self.sketches == mid2.sketches,
                self.features == mid2.features,
                self.active_sketch == mid2.active_sketch,
                self.next_id == mid2.next_id,
                self.names == mid2.names,
                self.name == mid2.name,
                self.workplanes == mid2.workplanes,
                bs.len() == total_b,
                bs.len() == m + pending_b@.len(),
                pending_b@ == bs.subrange(m as int, bs.len() as int),
                self.bodies@.len() == m,
                forall|b: BodyId| linked@.contains(b) <==> body_linked(p0.features, id, b),
                forall|j: int| 0 <= j < m ==> (#[trigger] self.bodies@[j]).0 == bs[j].0 && self.bodies@[j].1@
                    == bumped_if(bs[j].1@, body_linked(p0.features, id, bs[j].0)),
            decreases pending_b@.len(),
        {
            let (bid, mut b) = pending_b.remove(0);
            if contains_body_id(&linked, bid) {
                b.bump_mesh_revision();
            }
            self.bodies.push((bid, b));
            proof {
                assert(pending_b@ =~= bs.subrange(m + 1, bs.len() as int));
            }
            m = m + 1;
        }
        proof {
            assert(self@.bodies =~= p0.bodies.map_values(
                |b: (BodyId, BodyView)| (b.0, bumped_if(b.1, body_linked(p0.features, id, b.0))),
            ));
        }
        if self.active_sketch == Some(id) {
            self.active_sketch = if self.sketches.len() > 0 {
                Some(self.sketches[0].id)
            } else {
                None
            };
        }
        proof {
            let q = self@;
            assert(q.sketches == sketches_without(p0, id));
            assert(q =~= without_sketch(p0, id));
            assert forall|a: int, b: int|
                0 <= a < q.sketches.len() && 0 <= b < q.sketches.len() && a != b implies (
                #[trigger] q.sketches[a]).id != (#[trigger] q.sketches[b]).id by {
                if has_sketch(p0, id) {
                    let i = sketch_pos(p0, id);
                    let sa = if a < i { a } else { a + 1 };
                    let sb = if b < i { b } else { b + 1 };
                    assert(q.sketches[a] == p0.sketches[sa]);
                    assert(q.sketches[b] == p0.sketches[sb]);
                }
            }
            assert forall|k: int| 0 <= k < q.sketches.len() implies sketch_wf(#[trigger] q.sketches[k], q.next_id) by {
                if has_sketch(p0, id) {
                    let i = sketch_pos(p0, id);
                    let sk = if k < i { k } else { k + 1 };
                    assert(q.sketches[k] == p0.sketches[sk]);
                }
            }
            assert forall|a: int, b: int|
                0 <= a < q.bodies.len() && 0 <= b < q.bodies.len() && a != b implies (#[trigger] q.bodies[a]).0
                    != (#[trigger] q.bodies[b]).0 by {
                assert(q.bodies[a].0 == p0.bodies[a].0 && q.bodies[b].0 == p0.bodies[b].0);
            }
            assert forall|k: int| 0 <= k < q.bodies.len() implies (#[trigger] q.bodies[k]).0.0 < q.next_id by {
                assert(q.bodies[k].0 == p0.bodies[k].0);
            }
            assert forall|a: int, b: int|
                0 <= a < q.features.len() && 0 <= b < q.features.len() && a != b implies (#[trigger] q.features[a]).0
                    != (#[trigger] q.features[b]).0 by {
                assert(q.features[a].0 == p0.features[a].0 && q.features[b].0 == p0.features[b].0);
            }
            assert forall|k: int| 0 <= k < q.features.len() implies (#[trigger] q.features[k]).0.0 < q.next_id by {
                assert(q.features[k].0 == p0.features[k].0);
            }
        }
    }
}

/// Whether body `id` stands at position `i`.
pub open spec fn body_pos(p: ProjectView, id: BodyId) -> int {
    choose|i: int| 0 <= i < p.bodies.len() && (#[trigger] p.bodies[i]).0 == id
}

/// The features of `fs` whose ids are not in `ids`, in order.
pub open spec fn drop_features(
    fs: Seq<(FeatureId, FeatureLinkView)>,
    ids: Seq<FeatureId>,
) -> Seq<(FeatureId, FeatureLinkView)>
    decreases fs.len(),
{
    if fs.len() == 0 {
        fs
    } else {
        let rest = drop_features(fs.drop_last(), ids);
        if ids.contains(fs.last().0) {
            rest
        } else {
            rest.push(fs.last())
        }
    }
}

/// The project after body `id` is deleted: the body is gone, and so are
/// the features that built it. Without such a body nothing changes.
pub open spec fn without_body(p: ProjectView, id: BodyId) -> ProjectView {
    if has_body(p, id) {
        let i = body_pos(p, id);
        ProjectView {
            bodies: p.bodies.remove(i),
            features: drop_features(p.features, p.bodies[i].1.features),
            ..p
        }
    } else {
        p
    }
}

proof fn lemma_drop_features(fs: Seq<(FeatureId, FeatureLinkView)>, ids: Seq<FeatureId>)
    ensures
        forall|x: (FeatureId, FeatureLinkView)| #[trigger] drop_features(fs, ids).contains(x) ==> fs.contains(x),
        (forall|a: int, b: int|
            0 <= a < fs.len() && 0 <= b < fs.len() && a != b ==> (#[trigger] fs[a]).0 != (#[trigger] fs[b]).0)
            ==> (forall|a: int, b: int|
            0 <= a < drop_features(fs, ids).len() && 0 <= b < drop_features(fs, ids).len() && a != b
                ==> (#[trigger] drop_features(fs, ids)[a]).0 != (#[trigger] drop_features(fs, ids)[b]).0),
    decreases fs.len(),
{
    if fs.len() > 0 {
        let d = fs.drop_last();
        lemma_drop_features(d, ids);
        let rest = drop_features(d, ids);
        assert forall|x: (FeatureId, FeatureLinkView)| #[trigger] drop_features(fs, ids).contains(x) implies fs.contains(x) by {
            let r = drop_features(fs, ids);
            let j = choose|j: int| 0 <= j < r.len() && r[j] == x;
            if j < rest.len() {
                assert(rest[j] == x);
                assert(rest.contains(x));
                let k = choose|k: int| 0 <= k < d.len() && d[k] == x;
                assert(fs[k] == x);
            } else {
                assert(fs[fs.len() - 1] == x);
            }
        }
        if forall|a: int, b: int|
            0 <= a < fs.len() && 0 <= b < fs.len() && a != b ==> (#[trigger] fs[a]).0 != (#[trigger] fs[b]).0 {
            assert forall|a: int, b: int|
                0 <= a < d.len() && 0 <= b < d.len() && a != b implies (#[trigger] d[a]).0 != (#[trigger] d[b]).0 by {
                assert(d[a] == fs[a] && d[b] == fs[b]);
            }
            if !ids.contains(fs.last().0) {
                let r = rest.push(fs.last());
                assert forall|a: int, b: int|
                    0 <= a < r.len() && 0 <= b < r.len() && a != b implies (#[trigger] r[a]).0 != (#[trigger] r[b]).0 by {
                    if a == rest.len() || b == rest.len() {
                        let o = if a == rest.len() { b } else { a };
                        assert(rest.contains(r[o]));
                        let k = choose|k: int| 0 <= k < d.len() && d[k] == r[o];
                        assert(fs[k] == r[o]);
                        assert(fs[fs.len() - 1] == fs.last());
                    }
                }
            }
        }
    }
}

/// The entities a line fillet adds: `trims` trimmed lines, then the arc,
/// under consecutive fresh ids from `first`.
pub open spec fn fillet_entries(first: u64, trims: nat) -> Seq<(SketchEntityId, EntityKind)> {
    if trims == 0 {
        seq![(SketchEntityId(first), EntityKind::Arc)]
    } else if trims == 1 {
        seq![(SketchEntityId(first), EntityKind::Line), (SketchEntityId((first + 1) as u64), EntityKind::Arc)]
    } else {
        seq![
            (SketchEntityId(first), EntityKind::Line),
            (SketchEntityId((first + 1) as u64), EntityKind::Line),
            (SketchEntityId((first + 2) as u64), EntityKind::Arc),
        ]
    }
}

/// A sketch after lines `a` and `b` are filleted: both lines and the
/// constraints on them are gone, and the trimmed lines and the arc follow
/// the other entities.
pub open spec fn filleted(s: SketchView, a: SketchEntityId, b: SketchEntityId, first: u64, trims: nat) -> SketchView {
    let t = without_entity(without_entity(s, a), b);
    SketchView { entities: t.entities + fillet_entries(first, trims), ..t }
}

/// The project with a new body built by a new feature of `kind` from a
/// profile of `sketch` found under `key`: body "Body N" and feature
/// "Extrude N" or "Revolve N" with the next serials and the next two
/// fresh ids.
pub open spec fn with_new_body(p: ProjectView, kind: FeatureKind, sketch: SketchId, key: Option<ProfileKey>) -> ProjectView {
    ProjectView {
        bodies: p.bodies.push(
            (
                BodyId(p.next_id),
                BodyView {
                    name: serial_name("Body"@, p.names.next_body_serial as nat),
                    features: seq![FeatureId((p.next_id + 1) as u64)],
                    revision: next_revision(0),
                },
            ),
        ),
        features: p.features.push(
            (
                FeatureId((p.next_id + 1) as u64),
                FeatureLinkView {
                    kind,
                    name: serial_name(
                        if kind == FeatureKind::Extrude {
                            "Extrude"@
                        } else {
                            "Revolve"@
                        },
                        p.names.next_feature_serial as nat,
                    ),
                    body: BodyId(p.next_id),
                    source_sketch: if key is Some {
                        Some(sketch)
                    } else {
                        None
                    },
                    profile_key: key_spans(key),
                    profile_valid: true,
                },
            ),
        ),
        next_id: (p.next_id + 2) as u64,
        names: SerialCounters {
            next_body_serial: (p.names.next_body_serial + 1) as usize,
            next_feature_serial: (p.names.next_feature_serial + 1) as usize,
        },
        ..p
    }
}

impl ProjectModel {
    /// Where body `id` stands in the project.
    pub fn find_body(&self, id: BodyId) -> (r: Option<usize>)
        ensures
            r matches Some(i) ==> i < self@.bodies.len() && self@.bodies[i as int].0 == id,
            r is None <==> !has_body(self@, id),
    {
        let mut i: usize = 0;
        while i < self.bodies.len()
            invariant
                i <= self.bodies@.len(),
                forall|j: int| 0 <= j < i ==> (#[trigger] self.bodies@[j]).0 != id,
            decreases self.bodies@.len() - i,
        {
            if self.bodies[i].0 == id {
                proof {
                    assert(self@.bodies[i as int].0 == id);
                }
                return Some(i);
            }
            i = i + 1;
        }
        proof {
            assert forall|j: int| 0 <= j < self@.bodies.len() implies (#[trigger] self@.bodies[j]).0 != id by {
                assert(self@.bodies[j].0 == self.bodies@[j].0);
            }
        }
        None
    }

    /// Deletes body `id` and the features that build it; true when the
    /// project had the body.
    pub fn delete_body(&mut self, id: BodyId) -> (r: bool)
        requires
            project_wf(old(self)@),
        ensures
            project_wf(final(self)@),
            r == has_body(old(self)@, id),
            final(self)@ == without_body(old(self)@, id),
    {
        let ghost p0 = self@;
        let found = self.find_body(id);
        if found.is_none() {
            return false;
        }
        let i = found.unwrap();
        proof {
            assert(p0.bodies[i as int].0 == id);
            let k = body_pos(p0, id);
            if k != i {
                assert(p0.bodies[k].0 != p0.bodies[i as int].0);
            }
        }
        let ghost bv = self.bodies@;
        let (_, body) = self.bodies.remove(i);
        proof {
            assert(self@.bodies =~= p0.bodies.remove(i as int));
        }
        let ghost ids = body@.features;
        let ghost mid = *self;
        let mut pending: Vec<(FeatureId, FeatureLink)> = Vec::new();
        std::mem::swap(&mut pending, &mut self.features);
        let ghost fs = pending@;
        let ghost fsv = p0.features;
        let total = pending.len();
        let mut n: usize = 0;
        proof {
            assert(fsv.take(0) =~= Seq::<(FeatureId, FeatureLinkView)>::empty());
        }
        while pending.len() > 0
            invariant
                self.sketches == mid.sketches,
                self.bodies == mid.bodies,
                self.active_sketch == mid.active_sketch,
                self.next_id == mid.next_id,
                self.names == mid.names,
                self.name == mid.name,
                self.workplanes == mid.workplanes,
                fs.len() == total,
                fsv == fs.map_values(|f: (FeatureId, FeatureLink)| (f.0, f.1@)),
                ids == body@.features,
                n <= fs.len(),
                fs.len() == n + pending@.len(),
                pending@ == fs.subrange(n as int, fs.len() as int),
                self.features@.map_values(|f: (FeatureId, FeatureLink)| (f.0, f.1@)) == drop_features(
                    fsv.take(n as int),
                    ids,
                ),
            decreases pending@.len(),
        {
            let (fid, f) = pending.remove(0);
            proof {
                assert(fsv.take(n + 1).drop_last() =~= fsv.take(n as int));
                assert(fsv.take(n + 1).last() == (fid, f@));
            }
            let ghost prev = self.features@;
            if !body.has_feature(fid) {
                self.features.push((fid, f));
                proof {
                    assert(self.features@.map_values(|f: (FeatureId, FeatureLink)| (f.0, f.1@)) =~= prev.map_values(
                        |f: (FeatureId, FeatureLink)| (f.0, f.1@),
                    ).push((fid, f@)));
                }
            }
            proof {
                assert(pending@ =~= fs.subrange(n + 1, fs.len() as int));
            }
            n = n + 1;
        }
        proof {
            assert(fsv.take(n as int) =~= fsv);
            let q = self@;
            assert(q =~= without_body(p0, id));
            lemma_drop_features(fsv, ids);
            assert forall|a: int, b: int|
                0 <= a < q.bodies.len() && 0 <= b < q.bodies.len() && a != b implies (#[trigger] q.bodies[a]).0
                    != (#[trigger] q.bodies[b]).0 by {
                let sa = if a < i { a } else { a + 1 };
                let sb = if b < i { b } else { b + 1 };
                assert(q.bodies[a] == p0.bodies[sa]);
                assert(q.bodies[b] == p0.bodies[sb]);
            }
            assert forall|k: int| 0 <= k < q.bodies.len() implies (#[trigger] q.bodies[k]).0.0 < q.next_id by {
                let sk = if k < i { k } else { k + 1 };
                assert(q.bodies[k] == p0.bodies[sk]);
            }
            assert forall|k: int| 0 <= k < q.features.len() implies (#[trigger] q.features[k]).0.0 < q.next_id by {
                assert(q.features.contains(q.features[k]));
                let j = choose|j: int| 0 <= j < fsv.len() && fsv[j] == q.features[k];
                assert(fsv[j].0.0 < p0.next_id);
            }
        }
        true
    }

    /// Makes a body built by a new feature of `kind` from a profile of
    /// `sketch` found under `key` (the feature keeps no source sketch when
    /// no key was found): the body "Body N" and the feature "Extrude N" or
    /// "Revolve N" take the next serials and the next two fresh ids.
    pub fn make_body(&mut self, kind: FeatureKind, sketch: SketchId, key: Option<ProfileKey>) -> (r: (
        BodyId,
        FeatureId,
    ))
        requires
            project_wf(old(self)@),
            old(self).next_id < u64::MAX - 1,
            old(self).names.next_body_serial < usize::MAX,
            old(self).names.next_feature_serial < usize::MAX,
        ensures
            project_wf(final(self)@),
            r == (BodyId(old(self).next_id), FeatureId((old(self).next_id + 1) as u64)),
            final(self)@ == with_new_body(old(self)@, kind, sketch, key),
    {
        let ghost p0 = self@;
        let body_name = self.names.allocate_body_name();
        let feature_name = self.names.allocate_feature_name(kind.kind_name());
        let ghost pn = self@;
        let bid = self.fresh_id();
        let fid = self.fresh_id();
        let source = if key.is_some() {
            Some(sketch)
        } else {
            None
        };
        let mut feature = FeatureLink::new(kind, feature_name, BodyId(bid), source);
        feature.attach_profile_key(key);
        let mut body = Body::new(body_name);
        body.push_feature(FeatureId(fid));
        self.bodies.push((BodyId(bid), body));
        self.features.push((FeatureId(fid), feature));
        proof {
            let q = self@;
            assert(q.bodies =~= p0.bodies.push((BodyId(bid), body@)));
            assert(q.features =~= p0.features.push((FeatureId(fid), feature@)));
            assert(body@.features =~= seq![FeatureId(fid)]);
            assert forall|k: int| 0 <= k < q.sketches.len() implies sketch_wf(#[trigger] q.sketches[k], q.next_id) by {
                assert(sketch_wf(p0.sketches[k], p0.next_id));
            }
            assert forall|a: int, b: int|
                0 <= a < q.bodies.len() && 0 <= b < q.bodies.len() && a != b implies (#[trigger] q.bodies[a]).0
                    != (#[trigger] q.bodies[b]).0 by {
                if a < p0.bodies.len() && b < p0.bodies.len() {
                } else if a < p0.bodies.len() {
                    assert(p0.bodies[a].0.0 < p0.next_id);
                } else {
                    assert(p0.bodies[b].0.0 < p0.next_id);
                }
            }
            assert forall|k: int| 0 <= k < q.bodies.len() implies (#[trigger] q.bodies[k]).0.0 < q.next_id by {
                if k < p0.bodies.len() {
                    assert(q.bodies[k] == p0.bodies[k]);
                }
            }
            assert forall|a: int, b: int|
                0 <= a < q.features.len() && 0 <= b < q.features.len() && a != b implies (#[trigger] q.features[a]).0
                    != (#[trigger] q.features[b]).0 by {
                if a < p0.features.len() && b < p0.features.len() {
                } else if a < p0.features.len() {
                    assert(p0.features[a].0.0 < p0.next_id);
                } else {
                    assert(p0.features[b].0.0 < p0.next_id);
                }
            }
            assert forall|k: int| 0 <= k < q.features.len() implies (#[trigger] q.features[k]).0.0 < q.next_id by {
                if k < p0.features.len() {
                    assert(q.features[k] == p0.features[k]);
                }
            }
        }
        (BodyId(bid), FeatureId(fid))
    }
}

/// The ids of the entities a line fillet adds.
pub open spec fn fillet_ids(first: u64, trims: nat) -> Seq<SketchEntityId> {
    fillet_entries(first, trims).map_values(|e: (SketchEntityId, EntityKind)| e.0)
}

impl ProjectModel {
    /// Fillets lines `a` and `b` of sketch `sketch`: both lines and the
    /// constraints on them go, and `trims` trimmed lines (at most two) and
    /// an arc are added under the next fresh ids, which it gives. Nothing
    /// happens unless the sketch has both (distinct) lines.
    pub fn fillet_lines(&mut self, sketch: SketchId, a: SketchEntityId, b: SketchEntityId, trims: usize) -> (r:
        Option<Vec<SketchEntityId>>)
        requires
            project_wf(old(self)@),
            old(self).next_id < u64::MAX - 3,
        ensures
            project_wf(final(self)@),
            r is Some <==> (has_sketch(old(self)@, sketch) && a != b && has_entity(sketch_of(old(self)@, sketch), a)
                && has_entity(sketch_of(old(self)@, sketch), b) && trims <= 2),
            r is None ==> final(self)@ == old(self)@,
            r matches Some(ids) ==> ids@ == fillet_ids(old(self).next_id, trims as nat) && final(self)@
                == with_sketch_of(
                ProjectView { next_id: (old(self).next_id + trims + 1) as u64, ..old(self)@ },
                sketch,
                filleted(sketch_of(old(self)@, sketch), a, b, old(self).next_id, trims as nat),
            ),
    {
        if trims > 2 || a == b {
            return None;
        }
        let i = match self.find_sketch(sketch) {
            None => {
                return None;
            },
            Some(i) => i,
        };
        let ghost p0 = self@;
        proof {
            lemma_sketch_pos(p0, i as int);
            assert(self.sketches@[i as int]@ == p0.sketches[i as int]);
        }
        if self.sketches[i].entity_position(a).is_none() || self.sketches[i].entity_position(b).is_none() {
            return None;
        }
        let first = self.next_id;
        self.next_id = first + (trims as u64) + 1;
        let ghost p1 = self@;
        proof {
            lemma_bump_wf(p0, p1.next_id);
            lemma_sketch_pos(p1, i as int);
        }
        let ghost v = self.sketches@;
        let mut s = self.take_sketch(i);
        let ghost s0 = s@;
        s.remove_entity(a);
        let ghost s1 = s@;
        s.remove_entity(b);
        let ghost s2 = s@;
        let mut ids: Vec<SketchEntityId> = Vec::new();
        if trims >= 1 {
            s.add_entity(SketchEntityId(first), EntityKind::Line);
            ids.push(SketchEntityId(first));
        }
        if trims >= 2 {
            s.add_entity(SketchEntityId(first + 1), EntityKind::Line);
            ids.push(SketchEntityId(first + 1));
        }
        s.add_entity(SketchEntityId(first + trims as u64), EntityKind::Arc);
        ids.push(SketchEntityId(first + trims as u64));
        proof {
            let fe = fillet_entries(first, trims as nat);
            assert(s@.entities =~= s2.entities + fe);
            assert(s@ == filleted(s0, a, b, first, trims as nat));
            assert(ids@ =~= fillet_ids(first, trims as nat));
            assert(sketch_wf(s0, p0.next_id));
            lemma_drop_entity(s0.entities, a);
            lemma_drop_entity(s1.entities, b);
            let es = s@.entities;
            assert forall|k: int| 0 <= k < s2.entities.len() implies (#[trigger] s2.entities[k]).0.0 < first by {
                assert(s2.entities.contains(s2.entities[k]));
                assert(s1.entities.contains(s2.entities[k]));
                assert(s0.entities.contains(s2.entities[k]));
                let j = choose|j: int| 0 <= j < s0.entities.len() && s0.entities[j] == s2.entities[k];
                assert(s0.entities[j].0.0 < p0.next_id);
            }
            assert forall|k: int| 0 <= k < es.len() implies (#[trigger] es[k]).0.0 < p1.next_id by {
                if k < s2.entities.len() {
                    assert(es[k] == s2.entities[k]);
                } else {
                    assert(es[k] == fe[k - s2.entities.len()]);
                }
            }
            assert forall|x: int, y: int|
                0 <= x < es.len() && 0 <= y < es.len() && x != y implies (#[trigger] es[x]).0 != (#[trigger] es[y]).0 by {
                let n2 = s2.entities.len() as int;
                if x < n2 && y < n2 {
                    assert(es[x] == s2.entities[x] && es[y] == s2.entities[y]);
                } else if x < n2 {
                    assert(es[x] == s2.entities[x]);
                    assert(s2.entities[x].0.0 < first);
                    assert(es[y] == fe[y - n2]);
                } else if y < n2 {
                    assert(es[y] == s2.entities[y]);
                    assert(s2.entities[y].0.0 < first);
                    assert(es[x] == fe[x - n2]);
                } else {
                    assert(es[x] == fe[x - n2] && es[y] == fe[y - n2]);
                }
            }
            assert forall|k: int| 0 <= k < s@.dimensions.len() implies #[trigger] s@.dimensions[k] < p1.next_id by {
                assert(s@.dimensions[k] == s0.dimensions[k]);
            }
            assert(sketch_wf(s@, p1.next_id));
            lemma_take_restore(v, i as int, s);
            lemma_with_sketch_wf(p1, i as int, s@);
            assert(sketch_of(p1, sketch) == s0);
        }
        self.restore_sketch(i, s);
        Some(ids)
    }
}

/// The project after deleting, one after another, the entities `dels`
/// (each named with its sketch), as repeated entity deletion does.
pub open spec fn delete_entities(p: ProjectView, dels: Seq<(SketchId, SketchEntityId)>) -> ProjectView
    decreases dels.len(),
{
    if dels.len() == 0 {
        p
    } else {
        let q = delete_entities(p, dels.drop_last());
        let (sk, e) = dels.last();
        if has_sketch(q, sk) {
            with_sketch_of(q, sk, without_entity(sketch_of(q, sk), e))
        } else {
            q
        }
    }
}

/// The project after deleting, one after another, the bodies `bodies`.
pub open spec fn delete_bodies(p: ProjectView, bodies: Seq<BodyId>) -> ProjectView
    decreases bodies.len(),
{
    if bodies.len() == 0 {
        p
    } else {
        without_body(delete_bodies(p, bodies.drop_last()), bodies.last())
    }
}

impl ProjectModel {
    /// Deletes the entities `dels`, each from its sketch, and then the
    /// bodies `bodies`, in order.
    pub fn delete_all(&mut self, dels: &[(SketchId, SketchEntityId)], bodies: &[BodyId])
        requires
            project_wf(old(self)@),
        ensures
            project_wf(final(self)@),
            final(self)@ == delete_bodies(delete_entities(old(self)@, dels@), bodies@),
    {
        let ghost p0 = self@;
        let mut k: usize = 0;
        proof {
            assert(dels@.take(0) =~= Seq::<(SketchId, SketchEntityId)>::empty());
        }
        while k < dels.len()
            invariant
                k <= dels@.len(),
                project_wf(self@),
                self@ == delete_entities(p0, dels@.take(k as int)),
            decreases dels@.len() - k,
        {
            let (sk, e) = dels[k];
            proof {
                assert(dels@.take(k + 1).drop_last() =~= dels@.take(k as int));
                assert(dels@.take(k + 1).last() == (sk, e));
            }
            self.remove_entity_from(sk, e);
            k = k + 1;
        }
        proof {
            assert(dels@.take(k as int) =~= dels@);
        }
        let ghost p1 = self@;
        let mut j: usize = 0;
        proof {
            assert(bodies@.take(0) =~= Seq::<BodyId>::empty());
        }
        while j < bodies.len()
            invariant
                j <= bodies@.len(),
                project_wf(self@),
                self@ == delete_bodies(p1, bodies@.take(j as int)),
            decreases bodies@.len() - j,
        {
            proof {
                assert(bodies@.take(j + 1).drop_last() =~= bodies@.take(j as int));
                assert(bodies@.take(j + 1).last() == bodies@[j as int]);
            }
            self.delete_body(bodies[j]);
            j = j + 1;
        }
        proof {
            assert(bodies@.take(j as int) =~= bodies@);
        }
    }
}

impl ProjectModel {
    /// A new project "Untitled": three workplanes (slots 1, 2 and 3, the XY
    /// plane first) and one empty sketch "Sketch 1" on the XY plane, which
    /// is active; no bodies or features.
    pub fn new_untitled() -> (p: Self)
        ensures
            project_wf(p@),
            p@.workplanes == seq![1u64, 2u64, 3u64],
            p@.sketches.len() == 1,
            p@.sketches[0].id == SketchId(4),
            p@.sketches[0].workplane == 1,
            p@.sketches[0].entities.len() == 0,
            p@.sketches[0].constraints == Map::<u64, Constraint>::empty(),
            p@.bodies.len() == 0,
            p@.features.len() == 0,
            p@.active_sketch == Some(SketchId(4)),
            p@.next_id == 5,
            p@.names == (SerialCounters { next_body_serial: 1, next_feature_serial: 1 }),
    {
        let workplanes = vec![1u64, 2u64, 3u64];
        let sketch = SketchModel::new(SketchId(4), String::from_str("Sketch 1"), 1);
        let mut sketches: Vec<SketchModel> = Vec::new();
        sketches.push(sketch);
        let p = ProjectModel {
            name: String::from_str("Untitled"),
            workplanes,
            sketches,
            bodies: Vec::new(),
            features: Vec::new(),
            active_sketch: Some(SketchId(4)),
            next_id: 5,
            names: SerialCounters::new(),
        };
        proof {
            assert(p@.workplanes =~= seq![1u64, 2u64, 3u64]);
            assert(p@.sketches.len() == 1);
            assert(p@.sketches[0] == sketch@);
        }
        p
    }
}

/// The slots of `sketches`, in order.
pub(crate) fn sketch_slot_list(sketches: &Vec<SketchModel>) -> (r: Vec<u64>)
    ensures
        r@.len() == sketches@.len(),
        forall|i: int| 0 <= i < sketches@.len() ==> #[trigger] r@[i] == sketches@[i].id.0,
{
    let mut r: Vec<u64> = Vec::new();
    let mut i: usize = 0;
    while i < sketches.len()
        invariant
            i <= sketches@.len(),
            r@.len() == i,
            forall|k: int| 0 <= k < i ==> #[trigger] r@[k] == sketches@[k].id.0,
        decreases sketches@.len() - i,
    {
        r.push(sketches[i].id.0);
        i = i + 1;
    }
    r
}

/// The slots of `bodies`, in order.
pub(crate) fn body_slot_list(bodies: &Vec<(BodyId, Body)>) -> (r: Vec<u64>)
    ensures
        r@.len() == bodies@.len(),
        forall|i: int| 0 <= i < bodies@.len() ==> #[trigger] r@[i] == bodies@[i].0.0,
{
    let mut r: Vec<u64> = Vec::new();
    let mut i: usize = 0;
    while i < bodies.len()
        invariant
            i <= bodies@.len(),
            r@.len() == i,
            forall|k: int| 0 <= k < i ==> #[trigger] r@[k] == bodies@[k].0.0,
        decreases bodies@.len() - i,
    {
        r.push(bodies[i].0.0);
        i = i + 1;
    }
    r
}

/// The slots of `features`, in order.
pub(crate) fn feature_slot_list(features: &Vec<(FeatureId, FeatureLink)>) -> (r: Vec<u64>)
    ensures
        r@.len() == features@.len(),
        forall|i: int| 0 <= i < features@.len() ==> #[trigger] r@[i] == features@[i].0.0,
{
    let mut r: Vec<u64> = Vec::new();
    let mut i: usize = 0;
    while i < features.len()
        invariant
            i <= features@.len(),
            r@.len() == i,
            forall|k: int| 0 <= k < i ==> #[trigger] r@[k] == features@[k].0.0,
        decreases features@.len() - i,
    {
        r.push(features[i].0.0);
        i = i + 1;
    }
    r
}

/// The slots of `entities`, in order.
pub(crate) fn entity_slot_list(entities: &Vec<(SketchEntityId, EntityKind)>) -> (r: Vec<u64>)
    ensures
        r@.len() == entities@.len(),
        forall|i: int| 0 <= i < entities@.len() ==> #[trigger] r@[i] == entities@[i].0.0,
{
    let mut r: Vec<u64> = Vec::new();
    let mut i: usize = 0;
    while i < entities.len()
        invariant
            i <= entities@.len(),
            r@.len() == i,
            forall|k: int| 0 <= k < i ==> #[trigger] r@[k] == entities@[k].0.0,
        decreases entities@.len() - i,
    {
        r.push(entities[i].0.0);
        i = i + 1;
    }
    r
}

/// Whether the values of `v` are distinct.
fn all_distinct(v: &Vec<u64>) -> (r: bool)
    ensures
        r == v@.no_duplicates(),
{
    let mut i: usize = 0;
    while i < v.len()
        invariant
            i <= v@.len(),
            forall|a: int, b: int| 0 <= a < i && 0 <= b < i && a != b ==> v@[a] != v@[b],
        decreases v@.len() - i,
    {
        let mut j: usize = 0;
        while j < i
            invariant
                j <= i < v@.len(),
                forall|a: int| 0 <= a < j ==> v@[a] != v@[i as int],
            decreases i - j,
        {
            if v[j] == v[i] {
                return false;
            }
            j = j + 1;
        }
        i = i + 1;
    }
    true
}

/// Whether every value of `v` is below `bound`.
fn all_below(v: &Vec<u64>, bound: u64) -> (r: bool)
    ensures
        r == forall|i: int| 0 <= i < v@.len() ==> v@[i] < bound,
{
    let mut i: usize = 0;
    while i < v.len()
        invariant
            i <= v@.len(),
            forall|k: int| 0 <= k < i ==> v@[k] < bound,
        decreases v@.len() - i,
    {
        if v[i] >= bound {
            return false;
        }
        i = i + 1;
    }
    true
}

impl ProjectModel {
    /// Whether the project is well formed: distinct workplane slots,
    /// distinct ids of sketches, bodies, features and of each sketch's
    /// entities, and every id below the next fresh id.
    pub fn is_well_formed(&self) -> (r: bool)
        ensures
            r == project_wf(self@),
    {
        let sslots = sketch_slot_list(&self.sketches);
        let bslots = body_slot_list(&self.bodies);
        let fslots = feature_slot_list(&self.features);
        let mut sketches_ok = true;
        let mut i: usize = 0;
        while i < self.sketches.len()
            invariant
                i <= self.sketches@.len(),
                sketches_ok == forall|k: int| 0 <= k < i ==> sketch_wf(#[trigger] self@.sketches[k], self.next_id),
            decreases self.sketches@.len() - i,
        {
            let s = &self.sketches[i];
            let eslots = entity_slot_list(&s.entities);
            let ok = s.id.0 < self.next_id && all_distinct(&eslots) && all_below(&eslots, self.next_id)
                && all_below(&s.dimensions, self.next_id);
            proof {
                let v = s@;
                assert(self@.sketches[i as int] == v);
                assert(eslots@.no_duplicates() <==> forall|a: int, b: int|
                    0 <= a < v.entities.len() && 0 <= b < v.entities.len() && a != b ==> (#[trigger] v.entities[a]).0
                        != (#[trigger] v.entities[b]).0) by {
                    if eslots@.no_duplicates() {
                        assert forall|a: int, b: int|
                            0 <= a < v.entities.len() && 0 <= b < v.entities.len() && a != b implies (
                            #[trigger] v.entities[a]).0 != (#[trigger] v.entities[b]).0 by {
                            assert(eslots@[a] != eslots@[b]);
                        }
                    } else {
                        let (a, b) = choose|a: int, b: int|
                            0 <= a < eslots@.len() && 0 <= b < eslots@.len() && a != b && eslots@[a] == eslots@[b];
                        assert(v.entities[a].0 == v.entities[b].0);
                    }
                }
                assert((forall|k: int| 0 <= k < eslots@.len() ==> eslots@[k] < self.next_id) <==> forall|k: int|
                    0 <= k < v.entities.len() ==> (#[trigger] v.entities[k]).0.0 < self.next_id) by {
                    if forall|k: int| 0 <= k < eslots@.len() ==> eslots@[k] < self.next_id {
                        assert forall|k: int| 0 <= k < v.entities.len() implies (#[trigger] v.entities[k]).0.0
                            < self.next_id by {
                            assert(eslots@[k] < self.next_id);
                        }
                    }
                    if forall|k: int| 0 <= k < v.entities.len() ==> (#[trigger] v.entities[k]).0.0 < self.next_id {
                        assert forall|k: int| 0 <= k < eslots@.len() implies eslots@[k] < self.next_id by {
                            assert(v.entities[k].0.0 < self.next_id);
                        }
                    }
                }
                assert(v.dimensions == s.dimensions@);
                assert(ok == sketch_wf(self@.sketches[i as int], self.next_id));
            }
            sketches_ok = sketches_ok && ok;
            i = i + 1;
        }
        let r = all_distinct(&self.workplanes) && all_distinct(&sslots) && sketches_ok && all_distinct(&bslots)
            && all_below(&bslots, self.next_id) && all_distinct(&fslots) && all_below(&fslots, self.next_id);
        proof {
            let p = self@;
            assert(sslots@.no_duplicates() <==> forall|a: int, b: int|
                0 <= a < p.sketches.len() && 0 <= b < p.sketches.len() && a != b ==> (#[trigger] p.sketches[a]).id
                    != (#[trigger] p.sketches[b]).id) by {
                if sslots@.no_duplicates() {
                    assert forall|a: int, b: int|
                        0 <= a < p.sketches.len() && 0 <= b < p.sketches.len() && a != b implies (
                        #[trigger] p.sketches[a]).id != (#[trigger] p.sketches[b]).id by {
                        assert(sslots@[a] != sslots@[b]);
                    }
                } else {
                    let (a, b) = choose|a: int, b: int|
                        0 <= a < sslots@.len() && 0 <= b < sslots@.len() && a != b && sslots@[a] == sslots@[b];
                    assert(p.sketches[a].id == p.sketches[b].id);
                }
            }
            assert(bslots@.no_duplicates() <==> forall|a: int, b: int|
                0 <= a < p.bodies.len() && 0 <= b < p.bodies.len() && a != b ==> (#[trigger] p.bodies[a]).0
                    != (#[trigger] p.bodies[b]).0) by {
                if bslots@.no_duplicates() {
                    assert forall|a: int, b: int|
                        0 <= a < p.bodies.len() && 0 <= b < p.bodies.len() && a != b implies (
                        #[trigger] p.bodies[a]).0 != (#[trigger] p.bodies[b]).0 by {
                        assert(bslots@[a] != bslots@[b]);
                    }
                } else {
                    let (a, b) = choose|a: int, b: int|
                        0 <= a < bslots@.len() && 0 <= b < bslots@.len() && a != b && bslots@[a] == bslots@[b];
                    assert(p.bodies[a].0 == p.bodies[b].0);
                }
            }
            assert(fslots@.no_duplicates() <==> forall|a: int, b: int|
                0 <= a < p.features.len() && 0 <= b < p.features.len() && a != b ==> (#[trigger] p.features[a]).0
                    != (#[trigger] p.features[b]).0) by {
                if fslots@.no_duplicates() {
                    assert forall|a: int, b: int|
                        0 <= a < p.features.len() && 0 <= b < p.features.len() && a != b implies (
                        #[trigger] p.features[a]).0 != (#[trigger] p.features[b]).0 by {
                        assert(fslots@[a] != fslots@[b]);
                    }
                } else {
                    let (a, b) = choose|a: int, b: int|
                        0 <= a < fslots@.len() && 0 <= b < fslots@.len() && a != b && fslots@[a] == fslots@[b];
                    assert(p.features[a].0 == p.features[b].0);
                }
            }
            assert((forall|k: int| 0 <= k < bslots@.len() ==> bslots@[k] < self.next_id) <==> forall|k: int|
                0 <= k < p.bodies.len() ==> (#[trigger] p.bodies[k]).0.0 < p.next_id) by {
                if forall|k: int| 0 <= k < p.bodies.len() ==> (#[trigger] p.bodies[k]).0.0 < p.next_id {
                    assert forall|k: int| 0 <= k < bslots@.len() implies bslots@[k] < self.next_id by {
                        assert(p.bodies[k].0.0 == bslots@[k]);
                    }
                }
                if forall|k: int| 0 <= k < bslots@.len() ==> bslots@[k] < self.next_id {
                    assert forall|k: int| 0 <= k < p.bodies.len() implies (#[trigger] p.bodies[k]).0.0 < p.next_id by {
                        assert(bslots@[k] < self.next_id);
                    }
                }
            }
            assert((forall|k: int| 0 <= k < fslots@.len() ==> fslots@[k] < self.next_id) <==> forall|k: int|
                0 <= k < p.features.len() ==> (#[trigger] p.features[k]).0.0 < p.next_id) by {
                if forall|k: int| 0 <= k < p.features.len() ==> (#[trigger] p.features[k]).0.0 < p.next_id {
                    assert forall|k: int| 0 <= k < fslots@.len() implies fslots@[k] < self.next_id by {
                        assert(p.features[k].0.0 == fslots@[k]);
                    }
                }
                if forall|k: int| 0 <= k < fslots@.len() ==> fslots@[k] < self.next_id {
                    assert forall|k: int| 0 <= k < p.features.len() implies (#[trigger] p.features[k]).0.0 < p.next_id by {
                        assert(fslots@[k] < self.next_id);
                    }
                }
            }
        }
        r
    }
}


/// Dropping the features named in `ids` keeps exactly the others.
proof fn lemma_drop_features_exact(fs: Seq<(FeatureId, FeatureLinkView)>, ids: Seq<FeatureId>)
    ensures
        forall|x: (FeatureId, FeatureLinkView)| #[trigger] drop_features(fs, ids).contains(x) <==> fs.contains(x)
            && !ids.contains(x.0),
    decreases fs.len(),
{
    if fs.len() > 0 {
        let d = fs.drop_last();
        lemma_drop_features_exact(d, ids);
        let rest = drop_features(d, ids);
        assert forall|x: (FeatureId, FeatureLinkView)| #[trigger] drop_features(fs, ids).contains(x) <==> fs.contains(x)
            && !ids.contains(x.0) by {
            let r = drop_features(fs, ids);
            if r.contains(x) {
                let j = choose|j: int| 0 <= j < r.len() && r[j] == x;
                if j < rest.len() {
                    assert(rest[j] == x);
                    assert(rest.contains(x));
                    let k = choose|k: int| 0 <= k < d.len() && d[k] == x;
                    assert(fs[k] == x);
                } else {
                    assert(fs[fs.len() - 1] == x);
                }
            }
            if fs.contains(x) && !ids.contains(x.0) {
                let k = choose|k: int| 0 <= k < fs.len() && fs[k] == x;
                if k < fs.len() - 1 {
                    assert(d[k] == x);
                    assert(d.contains(x));
                    assert(rest.contains(x));
                    let j = choose|j: int| 0 <= j < rest.len() && rest[j] == x;
                    if !ids.contains(fs.last().0) {
                        assert(rest.push(fs.last())[j] == x);
                    }
                } else {
                    assert(fs.last() == x);
                    assert(rest.push(fs.last())[rest.len() as int] == x);
                }
            }
        }
    }
}

/// Deleting a body removes it and exactly the features that build it:
/// every other body stays, a feature stays exactly when the deleted body
/// does not list it, and the sketches are untouched.
pub proof fn lemma_delete_body_cascades(p: ProjectView, id: BodyId)
    requires
        project_wf(p),
        has_body(p, id),
    ensures
        !has_body(without_body(p, id), id),
        forall|b: BodyId| b != id ==> (has_body(without_body(p, id), b) <==> has_body(p, b)),
        forall|x: (FeatureId, FeatureLinkView)|
            #[trigger] without_body(p, id).features.contains(x) <==> p.features.contains(x) && !p.bodies[body_pos(
                p,
                id,
            )].1.features.contains(x.0),
        without_body(p, id).bodies.len() == p.bodies.len() - 1,
        without_body(p, id).sketches == p.sketches,
{
    let i = body_pos(p, id);
    let q = without_body(p, id);
    lemma_drop_features_exact(p.features, p.bodies[i].1.features);
    assert(q.bodies == p.bodies.remove(i));
    if has_body(q, id) {
        let j = choose|j: int| 0 <= j < q.bodies.len() && (#[trigger] q.bodies[j]).0 == id;
        if j < i {
            assert(q.bodies[j] == p.bodies[j]);
            assert(p.bodies[j].0 != p.bodies[i].0);
        } else {
            assert(q.bodies[j] == p.bodies[j + 1]);
            assert(p.bodies[j + 1].0 != p.bodies[i].0);
        }
    }
    assert forall|b: BodyId| b != id implies (has_body(q, b) <==> has_body(p, b)) by {
        if has_body(p, b) {
            let k = choose|k: int| 0 <= k < p.bodies.len() && (#[trigger] p.bodies[k]).0 == b;
            assert(k != i);
            if k < i {
                assert(q.bodies[k] == p.bodies[k]);
            } else {
                assert(q.bodies[k - 1] == p.bodies[k]);
            }
        }
        if has_body(q, b) {
            let k = choose|k: int| 0 <= k < q.bodies.len() && (#[trigger] q.bodies[k]).0 == b;
            if k < i {
                assert(q.bodies[k] == p.bodies[k]);
            } else {
                assert(q.bodies[k] == p.bodies[k + 1]);
            }
        }
    }
}
} // verus!
