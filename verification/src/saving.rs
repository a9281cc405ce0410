//! Writing a project's references in file form: every workplane, sketch,
//! entity, dimension, body and feature is numbered 1, 2, 3, ... in its
//! list, and every reference is written as the number of what it names.
//! Read back with `loading::load_project_refs`, the references give the
//! same slots again.

use std::collections::HashMap;

use vstd::prelude::*;

use crate::body::{body_to_file, feature_file_ids, resolved_features, Body, BodyFile, BodyView};
use crate::constraint::Constraint;
use crate::feature::{FeatureLink, FeatureLinkView};
use crate::ids::{BodyId, FeatureId, SketchEntityId};
use crate::loading::{
    bodies_error, body_file_ids, feature_error, features_result, is_first_bad_record, lemma_no_duplicates_iff,
    lemma_refs_error, load_outcome, records_error, refs_well_sized, registry, sketch_error, sketches_result,
    FeatureRefs, LoadTables, ProjectRefs, SketchRefs,
};
use crate::project::{
    body_slot_list, entity_slot_list, feature_slot_list, project_wf, sketch_slot_list, ProjectModel, ProjectView,
    SketchModel, SketchView,
};
use crate::sketch::record_ids;
use crate::schema::{
    constraint_from_file, constraint_to_file, file_ids, lemma_constraint_round_trip, lookup_file_id, ConstraintFile,
    ConstraintFileRecord, FileId, ProjectIoError, RefKind, CURRENT_SCHEMA_VERSION,
};
use crate::solver::EntityKind;

verus! {

/// The file ids 1, 2, ..., `n`.
pub open spec fn numbered(n: nat) -> Seq<FileId> {
    Seq::new(n, |i: int| (i + 1) as u64)
}

/// The file id of each slot of `keys`: one past its position.
pub open spec fn numbering(keys: Seq<u64>) -> Map<u64, FileId> {
    Map::new(
        |k: u64| keys.contains(k),
        |k: u64| ((choose|i: int| 0 <= i < keys.len() && keys[i] == k) + 1) as u64,
    )
}

/// The slots of the sketches of `p`, in order.
pub open spec fn sketch_slots(p: ProjectView) -> Seq<u64> {
    p.sketches.map_values(|s: SketchView| s.id.0)
}

/// The slots of the bodies of `p`, in order.
pub open spec fn body_slots(p: ProjectView) -> Seq<u64> {
    p.bodies.map_values(|b: (BodyId, crate::body::BodyView)| b.0.0)
}

/// The slots of the features of `p`, in order.
pub open spec fn feature_slots(p: ProjectView) -> Seq<u64> {
    p.features.map_values(|f: (FeatureId, FeatureLinkView)| f.0.0)
}

/// The slots of the entities of `s`, in order.
pub open spec fn entity_slots(s: SketchView) -> Seq<u64> {
    s.entities.map_values(|e: (SketchEntityId, EntityKind)| e.0.0)
}

/// Whether every constraint of `s` has a file form once its entities are
/// numbered.
pub open spec fn constraints_writable(s: SketchView) -> bool {
    forall|k: u64| #[trigger] s.constraints.contains_key(k) ==> constraint_to_file(
        s.constraints[k],
        numbering(entity_slots(s)),
    ) is Ok
}

/// Whether sketch `s` can be written: its workplane is one of
/// `workplanes` and every constraint has a file form.
pub open spec fn sketch_writable(s: SketchView, workplanes: Seq<u64>) -> bool {
    workplanes.contains(s.workplane) && constraints_writable(s)
}

/// Whether every feature of body `b` is a feature of `p`.
pub open spec fn body_writable(b: BodyView, p: ProjectView) -> bool {
    forall|m: int| 0 <= m < b.features.len() ==> feature_slots(p).contains((#[trigger] b.features[m]).0)
}

/// Whether feature `f` names a body of `p`, and a sketch of `p` if it
/// names a source sketch.
pub open spec fn feature_writable(f: FeatureLinkView, p: ProjectView) -> bool {
    &&& body_slots(p).contains(f.body.0)
    &&& f.source_sketch matches Some(s) ==> sketch_slots(p).contains(s.0)
}

/// Whether every reference of `p` names something the project has, so
/// that it can be written: each sketch's workplane, each constraint's
/// entities, each body's features, each feature's body and source sketch,
/// and the active sketch.
pub open spec fn writable(p: ProjectView) -> bool {
    &&& forall|i: int| 0 <= i < p.sketches.len() ==> sketch_writable(#[trigger] p.sketches[i], p.workplanes)
    &&& forall|j: int| 0 <= j < p.bodies.len() ==> body_writable((#[trigger] p.bodies[j]).1, p)
    &&& forall|k: int| 0 <= k < p.features.len() ==> feature_writable((#[trigger] p.features[k]).1, p)
    &&& p.active_sketch matches Some(a) ==> sketch_slots(p).contains(a.0)
}

/// Whether `record`, read against the entities of `r`, is one of the
/// constraints of `s`.
pub open spec fn reads_as_constraint(record: ConstraintFileRecord, r: SketchRefs, s: SketchView) -> bool {
    exists|k: u64|
        s.constraints.contains_key(k) && constraint_from_file(record.constraint, registry(r.entities@, r.entity_slots@))
            == Ok::<Constraint, ProjectIoError>(s.constraints[k])
}

/// The error of writing sketch `s`: that of a constraint without a file
/// form, or else a dangling workplane.
pub open spec fn sketch_write_error(s: SketchView, e: ProjectIoError) -> bool {
    if !constraints_writable(s) {
        exists|k: u64|
            s.constraints.contains_key(k) && constraint_to_file(s.constraints[k], numbering(entity_slots(s)))
                == Err::<ConstraintFile, ProjectIoError>(e)
    } else {
        e == ProjectIoError::DanglingReference { kind: RefKind::Workplane }
    }
}

/// The error of writing feature `f` of `p`: a dangling body, or else a
/// dangling source sketch.
pub open spec fn feature_write_error(f: FeatureLinkView, p: ProjectView) -> ProjectIoError {
    if !body_slots(p).contains(f.body.0) {
        ProjectIoError::DanglingReference { kind: RefKind::Body }
    } else {
        ProjectIoError::DanglingReference { kind: RefKind::SourceSketch }
    }
}

/// Whether `e` is the error of writing `p`, met in the order sketches,
/// bodies, features, active sketch: the error of the first item that
/// cannot be written.
pub open spec fn write_error(p: ProjectView, e: ProjectIoError) -> bool {
    let sketches_ok = forall|i: int| 0 <= i < p.sketches.len() ==> sketch_writable(#[trigger] p.sketches[i], p.workplanes);
    let bodies_ok = forall|j: int| 0 <= j < p.bodies.len() ==> body_writable((#[trigger] p.bodies[j]).1, p);
    let features_ok = forall|k: int| 0 <= k < p.features.len() ==> feature_writable((#[trigger] p.features[k]).1, p);
    ||| exists|i: int|
        0 <= i < p.sketches.len() && (forall|k: int| 0 <= k < i ==> sketch_writable(#[trigger] p.sketches[k], p.workplanes))
            && !sketch_writable(p.sketches[i], p.workplanes) && sketch_write_error(p.sketches[i], e)
    ||| sketches_ok && exists|j: int|
        0 <= j < p.bodies.len() && (forall|k: int| 0 <= k < j ==> body_writable((#[trigger] p.bodies[k]).1, p))
            && !body_writable(p.bodies[j].1, p) && e == ProjectIoError::DanglingReference { kind: RefKind::Feature }
    ||| sketches_ok && bodies_ok && exists|j: int|
        0 <= j < p.features.len() && (forall|k: int| 0 <= k < j ==> feature_writable((#[trigger] p.features[k]).1, p))
            && !feature_writable(p.features[j].1, p) && e == feature_write_error(p.features[j].1, p)
    ||| sketches_ok && bodies_ok && features_ok && e == ProjectIoError::DanglingReference {
        kind: RefKind::ActiveSketch,
    }
}

/// Whether `r` is sketch `s` written with file id `id`, its workplane
/// named through `workplanes`: entities and dimensions numbered in order,
/// each constraint record numbered in order and reading back, through the
/// entity numbering, as one of the sketch's constraints.
pub open spec fn sketch_written(s: SketchView, id: FileId, r: SketchRefs, workplanes: Map<u64, FileId>) -> bool {
    &&& r.id == id
    &&& r.slot == s.id.0
    &&& r.workplane == workplanes[s.workplane]
    &&& r.entities@ == numbered(s.entities.len())
    &&& r.entity_slots@ == entity_slots(s)
    &&& r.dimensions@ == numbered(s.dimensions.len())
    &&& r.dimension_slots@ == s.dimensions
    &&& r.constraints@.len() == s.constraints.len()
    &&& forall|j: int|
        0 <= j < r.constraints@.len() ==> (#[trigger] r.constraints@[j]).id == j + 1 && reads_as_constraint(
            r.constraints@[j],
            r,
            s,
        )
}

/// Whether `f` is body `b` written with file id `id`, its features named
/// through `features`.
pub open spec fn body_written(b: BodyView, id: FileId, f: BodyFile, features: Map<u64, FileId>) -> bool {
    &&& f.id == id
    &&& f.name@ == b.name
    &&& f.features@ == feature_file_ids(b.features, features)
}

/// Whether `f` is feature `v`, stored in slot `slot`, written with file id
/// `id`, its body and source sketch named through `bodies` and `sketches`.
pub open spec fn feature_written(
    v: FeatureLinkView,
    slot: u64,
    id: FileId,
    f: FeatureRefs,
    bodies: Map<u64, FileId>,
    sketches: Map<u64, FileId>,
) -> bool {
    &&& f.id == id
    &&& f.slot == slot
    &&& f.kind == v.kind
    &&& f.name@ == v.name
    &&& f.body == bodies[v.body.0]
    &&& match v.source_sketch {
        None => f.source_sketch is None,
        Some(s) => f.source_sketch == Some(sketches[s.0]),
    }
}

/// Whether `refs` is project `p` written: every workplane, sketch, body
/// and feature numbered by its position, and every reference written as
/// the number of what it names.
pub open spec fn written(p: ProjectView, refs: ProjectRefs) -> bool {
    &&& refs.schema_version == CURRENT_SCHEMA_VERSION
    &&& refs.workplanes@ == numbered(p.workplanes.len())
    &&& refs.workplane_slots@ == p.workplanes
    &&& refs.sketches@.len() == p.sketches.len()
    &&& forall|i: int|
        0 <= i < p.sketches.len() ==> sketch_written(
            p.sketches[i],
            (i + 1) as u64,
            #[trigger] refs.sketches@[i],
            numbering(p.workplanes),
        )
    &&& refs.bodies@.len() == p.bodies.len()
    &&& refs.body_slots@ == body_slots(p)
    &&& forall|j: int|
        0 <= j < p.bodies.len() ==> body_written(
            p.bodies[j].1,
            (j + 1) as u64,
            #[trigger] refs.bodies@[j],
            numbering(feature_slots(p)),
        )
    &&& refs.features@.len() == p.features.len()
    &&& forall|k: int|
        0 <= k < p.features.len() ==> feature_written(
            p.features[k].1,
            p.features[k].0.0,
            (k + 1) as u64,
            #[trigger] refs.features@[k],
            numbering(body_slots(p)),
            numbering(sketch_slots(p)),
        )
    &&& match p.active_sketch {
        None => refs.active_sketch is None,
        Some(a) => refs.active_sketch == Some(numbering(sketch_slots(p))[a.0]),
    }
}

/// Whether the references `refs`, read back into the tables `t`, give the
/// project `p` again: every sketch, body and feature its own slot, each
/// sketch its entities, each constraint record one of its sketch's
/// constraints, each body its features, each feature its body and source
/// sketch, and the active sketch.
pub open spec fn reads_back(p: ProjectView, refs: ProjectRefs, t: LoadTables) -> bool {
    &&& refs.sketches@.len() == p.sketches.len()
    &&& forall|i: int|
        0 <= i < p.sketches.len() ==> {
            let r = #[trigger] refs.sketches@[i];
            let s = p.sketches[i];
            &&& t.sketch_ids.contains_key(r.id)
            &&& t.sketch_ids[r.id] == s.id.0
            &&& r.entity_slots@ == entity_slots(s)
            &&& r.dimension_slots@ == s.dimensions
            &&& r.constraints@.len() == s.constraints.len()
            &&& forall|j: int| 0 <= j < r.constraints@.len() ==> reads_as_constraint(#[trigger] r.constraints@[j], r, s)
        }
    &&& refs.bodies@.len() == p.bodies.len()
    &&& forall|j: int|
        0 <= j < p.bodies.len() ==> {
            let b = #[trigger] refs.bodies@[j];
            &&& t.body_ids.contains_key(b.id)
            &&& t.body_ids[b.id] == p.bodies[j].0.0
            &&& b.name@ == p.bodies[j].1.name
            &&& resolved_features(b.features@, t.feature_ids) == p.bodies[j].1.features
        }
    &&& refs.features@.len() == p.features.len()
    &&& forall|k: int|
        0 <= k < p.features.len() ==> {
            let f = #[trigger] refs.features@[k];
            let v = p.features[k].1;
            &&& t.feature_ids.contains_key(f.id)
            &&& t.feature_ids[f.id] == p.features[k].0.0
            &&& f.kind == v.kind
            &&& f.name@ == v.name
            &&& t.body_ids[f.body] == v.body.0
            &&& match v.source_sketch {
                None => f.source_sketch is None,
                Some(s) => f.source_sketch is Some && t.sketch_ids[f.source_sketch->Some_0] == s.0,
            }
        }
    &&& match p.active_sketch {
        None => refs.active_sketch is None,
        Some(a) => refs.active_sketch is Some && t.sketch_ids[refs.active_sketch->Some_0] == a.0,
    }
}

/// A length held in a `usize` is a valid number of file ids.
proof fn lemma_len_fits(n: usize)
    ensures
        n <= u64::MAX,
{
    assert(n as u64 == n) by (bit_vector);
}

/// The file ids 1, 2, ..., `n`.
fn numbered_ids(n: usize) -> (r: Vec<FileId>)
    ensures
        r@ == numbered(n as nat),
{
    let mut r: Vec<FileId> = Vec::new();
    let mut i: usize = 0;
    while i < n
        invariant
            i <= n,
            r@ == numbered(i as nat),
        decreases n - i,
    {
        r.push((i as u64) + 1);
        proof {
            assert(r@ =~= numbered((i + 1) as nat));
        }
        i = i + 1;
    }
    r
}


/// A copy of the slots `v`.
fn copy_slots(v: &Vec<u64>) -> (r: Vec<u64>)
    ensures
        r@ == v@,
{
    let mut r: Vec<u64> = Vec::new();
    let mut i: usize = 0;
    while i < v.len()
        invariant
            i <= v@.len(),
            r@ == v@.subrange(0, i as int),
        decreases v@.len() - i,
    {
        r.push(v[i]);
        proof {
            assert(r@ =~= v@.subrange(0, i + 1));
        }
        i = i + 1;
    }
    proof {
        assert(r@ =~= v@);
    }
    r
}

/// Records written from the constraints of `table` through the entity
/// numbering `fwd` read back, through an inverse table `bwd`, as
/// constraints of `table`.
proof fn lemma_records_read_back(
    records: Seq<ConstraintFileRecord>,
    table: Map<u64, Constraint>,
    fwd: Map<u64, FileId>,
    bwd: Map<FileId, u64>,
)
    requires
        crate::schema::inverts(fwd, bwd),
        forall|i: int|
            0 <= i < records.len() ==> #[trigger] records[i].id == i + 1 && exists|k: u64|
                table.contains_key(k) && constraint_to_file(table[k], fwd) == Ok::<ConstraintFile, ProjectIoError>(
                    records[i].constraint,
                ),
    ensures
        forall|j: int|
            0 <= j < records.len() ==> (#[trigger] records[j]).id == j + 1 && exists|k: u64|
                table.contains_key(k) && constraint_from_file(records[j].constraint, bwd) == Ok::<
                    Constraint,
                    ProjectIoError,
                >(table[k]),
{
    assert forall|j: int| 0 <= j < records.len() implies (#[trigger] records[j]).id == j + 1 && exists|k: u64|
        table.contains_key(k) && constraint_from_file(records[j].constraint, bwd) == Ok::<Constraint, ProjectIoError>(
            table[k],
        ) by {
        assert(records[j].id == j + 1);
        let k = choose|k: u64|
            table.contains_key(k) && constraint_to_file(table[k], fwd) == Ok::<ConstraintFile, ProjectIoError>(
                records[j].constraint,
            );
        lemma_constraint_round_trip(table[k], fwd, bwd);
    }
}

/// Writes `sketch` with file id `id`: its entities and dimensions numbered
/// in order, its constraints as records naming entities by number, and its
/// workplane by its number in `workplane_ids`. Fails on the first
/// constraint that has no file form, then on a workplane without a number.
fn sketch_refs(sketch: &SketchModel, id: FileId, workplane_ids: &HashMap<u64, FileId>) -> (r: Result<
    SketchRefs,
    ProjectIoError,
>)
    requires
        entity_slots(sketch@).no_duplicates(),
    ensures
        r is Ok <==> constraints_writable(sketch@) && workplane_ids@.contains_key(sketch@.workplane),
        r matches Ok(s) ==> sketch_written(sketch@, id, s, workplane_ids@),
        r matches Err(e) ==> sketch_write_error(sketch@, e),
{
    let eslots = entity_slot_list(&sketch.entities);
    proof {
        assert(eslots@ =~= entity_slots(sketch@));
    }
    let entity_ids = file_ids(eslots.as_slice());
    proof {
        lemma_len_fits(eslots.len());
        lemma_file_ids_numbering(eslots@, entity_ids@);
        lemma_numbered_registry(eslots@);
    }
    let entities = numbered_ids(eslots.len());
    let dimensions = numbered_ids(sketch.dimensions.len());
    let constraints = match sketch.constraints.to_records(&entity_ids) {
        Ok(rs) => rs,
        Err(e) => return Err(e),
    };
    let workplane = match lookup_file_id(workplane_ids, sketch.workplane, RefKind::Workplane) {
        Ok(w) => w,
        Err(e) => return Err(e),
    };
    let dimension_slots = copy_slots(&sketch.dimensions);
    proof {
        lemma_records_read_back(constraints@, sketch@.constraints, entity_ids@, registry(entities@, eslots@));
    }
    let r = SketchRefs {
        id,
        slot: sketch.id.0,
        workplane,
        entities,
        entity_slots: eslots,
        dimensions,
        dimension_slots,
        constraints,
    };
    Ok(r)
}

/// The slots of a well-formed project are distinct in each list, and so
/// are the entity slots of each sketch.
pub proof fn lemma_slots_distinct(p: ProjectView)
    requires
        project_wf(p),
    ensures
        sketch_slots(p).no_duplicates(),
        body_slots(p).no_duplicates(),
        feature_slots(p).no_duplicates(),
        forall|i: int| 0 <= i < p.sketches.len() ==> entity_slots(#[trigger] p.sketches[i]).no_duplicates(),
{
    assert forall|a: int, b: int|
        0 <= a < sketch_slots(p).len() && 0 <= b < sketch_slots(p).len() && a != b implies sketch_slots(p)[a]
        != sketch_slots(p)[b] by {
        assert(p.sketches[a].id != p.sketches[b].id);
    }
    assert forall|a: int, b: int|
        0 <= a < body_slots(p).len() && 0 <= b < body_slots(p).len() && a != b implies body_slots(p)[a]
        != body_slots(p)[b] by {
        assert(p.bodies[a].0 != p.bodies[b].0);
    }
    assert forall|a: int, b: int|
        0 <= a < feature_slots(p).len() && 0 <= b < feature_slots(p).len() && a != b implies feature_slots(p)[a]
        != feature_slots(p)[b] by {
        assert(p.features[a].0 != p.features[b].0);
    }
    assert forall|i: int| 0 <= i < p.sketches.len() implies entity_slots(#[trigger] p.sketches[i]).no_duplicates() by {
        let s = p.sketches[i];
        assert(crate::project::sketch_wf(s, p.next_id));
        assert forall|a: int, b: int|
            0 <= a < entity_slots(s).len() && 0 <= b < entity_slots(s).len() && a != b implies entity_slots(s)[a]
            != entity_slots(s)[b] by {
            assert(s.entities[a].0 != s.entities[b].0);
        }
    }
}

/// The file ids 1, 2, ..., `n` are distinct.
proof fn lemma_numbered_distinct(n: nat)
    requires
        n <= u64::MAX,
    ensures
        numbered(n).no_duplicates(),
{
    assert forall|a: int, b: int| 0 <= a < n && 0 <= b < n && a != b implies numbered(n)[a] != numbered(n)[b] by {}
}

/// A sketch written with its workplane known to the reader reads back
/// without error.
proof fn lemma_sketch_readable(s: SketchView, id: FileId, r: SketchRefs, wmap: Map<u64, FileId>, wp: Map<FileId, u64>)
    requires
        sketch_written(s, id, r, wmap),
        wp.contains_key(r.workplane),
    ensures
        sketch_error(r, wp) is None,
{
    lemma_len_fits(r.entities.len());
    lemma_len_fits(r.dimensions.len());
    lemma_numbered_distinct(s.entities.len());
    lemma_numbered_distinct(s.dimensions.len());
    let records = r.constraints@;
    let m = registry(r.entities@, r.entity_slots@);
    assert forall|j: int| 0 <= j < records.len() implies (#[trigger] constraint_from_file(records[j].constraint, m)) is Ok by {
        assert(records[j].id == j + 1);
    }
    assert forall|a: int, b: int|
        0 <= a < record_ids(records).len() && 0 <= b < record_ids(records).len() && a != b implies record_ids(records)[a]
        != record_ids(records)[b] by {
        assert(records[a].id == a + 1);
        assert(records[b].id == b + 1);
    }
    lemma_records_readable(records, m);
}

/// The table of slots by file id that numbering `keys` gives.
pub open spec fn numbered_table(keys: Seq<u64>) -> Map<FileId, u64> {
    registry(numbered(keys.len()), keys)
}

/// Written sketches read back, in order, into the numbered table of the
/// sketch slots.
#[verifier::spinoff_prover]
proof fn lemma_written_sketches(p: ProjectView, refs: ProjectRefs)
    requires
        project_wf(p),
        writable(p),
        written(p, refs),
    ensures
        sketches_result(refs.sketches@, registry(refs.workplanes@, refs.workplane_slots@), Map::empty())
            == Ok::<Map<FileId, u64>, ProjectIoError>(numbered_table(sketch_slots(p))),
{
    lemma_slots_distinct(p);
    let sslots = sketch_slots(p);
    lemma_len_fits(refs.workplanes.len());
    lemma_len_fits(refs.sketches.len());
    lemma_numbered_registry(p.workplanes);
    lemma_numbered_registry(sslots);
    let wp = registry(refs.workplanes@, refs.workplane_slots@);
    let sr = numbered_table(sslots);
    assert forall|i: int| 0 <= i < refs.sketches@.len() implies (#[trigger] refs.sketches@[i]).id == 0 + i + 1
        && sketch_error(refs.sketches@[i], wp) is None by {
        let s = p.sketches[i];
        assert(sketch_written(s, (i + 1) as u64, refs.sketches@[i], numbering(p.workplanes)));
        assert(sketch_writable(s, p.workplanes));
        assert(numbering(p.workplanes).contains_key(s.workplane));
        lemma_sketch_readable(s, (i + 1) as u64, refs.sketches@[i], numbering(p.workplanes), wp);
    }
    lemma_sketches_numbered(refs.sketches@, wp, Map::empty(), 0);
    let st = sketches_result(refs.sketches@, wp, Map::empty())->Ok_0;
    assert forall|x: u64| #[trigger] st.contains_key(x) implies st[x] == sr[x] by {
        let i = x - 1;
        assert(sr[(i + 1) as u64] == sslots[i]);
        assert(sketch_written(p.sketches[i], (i + 1) as u64, refs.sketches@[i], numbering(p.workplanes)));
    }
    assert(st =~= sr);
}

/// Written features read back, in order, into the numbered table of the
/// feature slots.
#[verifier::spinoff_prover]
proof fn lemma_written_features(p: ProjectView, refs: ProjectRefs)
    requires
        project_wf(p),
        writable(p),
        written(p, refs),
    ensures
        features_result(
            refs.features@,
            numbered_table(body_slots(p)),
            numbered_table(sketch_slots(p)),
            Map::empty(),
        ) == Ok::<Map<FileId, u64>, ProjectIoError>(numbered_table(feature_slots(p))),
{
    lemma_slots_distinct(p);
    let sslots = sketch_slots(p);
    let bslots = body_slots(p);
    let fslots = feature_slots(p);
    lemma_len_fits(refs.sketches.len());
    lemma_len_fits(refs.bodies.len());
    lemma_len_fits(refs.features.len());
    lemma_numbered_registry(sslots);
    lemma_numbered_registry(bslots);
    lemma_numbered_registry(fslots);
    let sr = numbered_table(sslots);
    let br = numbered_table(bslots);
    let fr = numbered_table(fslots);
    assert forall|k: int| 0 <= k < refs.features@.len() implies (#[trigger] refs.features@[k]).id == 0 + k + 1
        && feature_error(refs.features@[k], br, sr) is None by {
        let v = p.features[k].1;
        assert(feature_written(v, p.features[k].0.0, (k + 1) as u64, refs.features@[k], numbering(bslots), numbering(sslots)));
        assert(feature_writable(v, p));
        assert(numbering(bslots).contains_key(v.body.0));
        if let Some(src) = v.source_sketch {
            assert(numbering(sslots).contains_key(src.0));
        }
    }
    lemma_features_numbered(refs.features@, br, sr, Map::empty(), 0);
    let ft = features_result(refs.features@, br, sr, Map::empty())->Ok_0;
    assert forall|x: u64| #[trigger] ft.contains_key(x) implies ft[x] == fr[x] by {
        let k = x - 1;
        assert(fr[(k + 1) as u64] == fslots[k]);
        assert(feature_written(p.features[k].1, p.features[k].0.0, (k + 1) as u64, refs.features@[k], numbering(bslots), numbering(sslots)));
    }
    assert(ft =~= fr);
}

/// The feature references of written bodies all name written features.
#[verifier::spinoff_prover]
proof fn lemma_written_bodies(p: ProjectView, refs: ProjectRefs)
    requires
        project_wf(p),
        writable(p),
        written(p, refs),
    ensures
        bodies_error(refs.bodies@, numbered_table(feature_slots(p))) is None,
        body_file_ids(refs.bodies@) == numbered(body_slots(p).len()),
        forall|j: int| 0 <= j < p.bodies.len() ==> resolved_features(
            (#[trigger] refs.bodies@[j]).features@,
            numbered_table(feature_slots(p)),
        ) == p.bodies[j].1.features,
{
    lemma_slots_distinct(p);
    let fslots = feature_slots(p);
    lemma_len_fits(refs.features.len());
    lemma_len_fits(refs.bodies.len());
    lemma_numbered_registry(fslots);
    let fr = numbered_table(fslots);
    assert forall|j: int, m: int|
        0 <= j < refs.bodies@.len() && 0 <= m < refs.bodies@[j].features@.len() implies fr.contains_key(
        #[trigger] refs.bodies@[j].features@[m],
    ) by {
        let b = p.bodies[j].1;
        assert(body_written(b, (j + 1) as u64, refs.bodies@[j], numbering(fslots)));
        assert(body_writable(b, p));
        assert(fslots.contains(b.features[m].0));
    }
    lemma_bodies_readable(refs.bodies@, fr);
    assert forall|j: int| 0 <= j < refs.bodies@.len() implies (#[trigger] refs.bodies@[j]).id == j + 1 by {
        assert(body_written(p.bodies[j].1, (j + 1) as u64, refs.bodies@[j], numbering(fslots)));
    }
    assert(body_file_ids(refs.bodies@) =~= numbered(body_slots(p).len()));
    assert forall|j: int| 0 <= j < p.bodies.len() implies resolved_features(
        (#[trigger] refs.bodies@[j]).features@,
        fr,
    ) == p.bodies[j].1.features by {
        let b = p.bodies[j].1;
        assert(body_written(b, (j + 1) as u64, refs.bodies@[j], numbering(fslots)));
        assert(body_writable(b, p));
        assert forall|m: int| 0 <= m < b.features.len() implies #[trigger] resolved_features(
            refs.bodies@[j].features@,
            fr,
        )[m] == b.features[m] by {
            assert(fslots.contains(b.features[m].0));
        }
        assert(resolved_features(refs.bodies@[j].features@, fr) =~= b.features);
    }
}

/// The tables the reader builds from written references are the numbered
/// tables of the sketch, body and feature slots.
#[verifier::spinoff_prover]
proof fn lemma_written_loads(p: ProjectView, refs: ProjectRefs)
    requires
        project_wf(p),
        writable(p),
        written(p, refs),
    ensures
        load_outcome(refs) == Ok::<LoadTables, ProjectIoError>(
            LoadTables {
                sketch_ids: numbered_table(sketch_slots(p)),
                body_ids: numbered_table(body_slots(p)),
                feature_ids: numbered_table(feature_slots(p)),
            },
        ),
{
    lemma_slots_distinct(p);
    lemma_len_fits(refs.workplanes.len());
    lemma_len_fits(refs.sketches.len());
    lemma_len_fits(refs.bodies.len());
    lemma_numbered_registry(p.workplanes);
    lemma_numbered_registry(sketch_slots(p));
    lemma_numbered_registry(body_slots(p));
    lemma_written_sketches(p, refs);
    lemma_written_features(p, refs);
    lemma_written_bodies(p, refs);
    if let Some(a) = p.active_sketch {
        assert(numbering(sketch_slots(p)).contains_key(a.0));
    }
}

/// Written references give the project back under the numbered tables.
#[verifier::spinoff_prover]
proof fn lemma_written_tables_read_back(p: ProjectView, refs: ProjectRefs, t: LoadTables)
    requires
        project_wf(p),
        writable(p),
        written(p, refs),
        t.sketch_ids == numbered_table(sketch_slots(p)),
        t.body_ids == numbered_table(body_slots(p)),
        t.feature_ids == numbered_table(feature_slots(p)),
    ensures
        reads_back(p, refs, t),
{
    lemma_slots_distinct(p);
    let sslots = sketch_slots(p);
    let bslots = body_slots(p);
    let fslots = feature_slots(p);
    lemma_len_fits(refs.sketches.len());
    lemma_len_fits(refs.bodies.len());
    lemma_len_fits(refs.features.len());
    lemma_numbered_registry(sslots);
    lemma_numbered_registry(bslots);
    lemma_numbered_registry(fslots);
    lemma_written_bodies(p, refs);
    let sr = t.sketch_ids;
    let br = t.body_ids;
    let fr = t.feature_ids;
    assert forall|i: int| 0 <= i < p.sketches.len() implies sr.contains_key((#[trigger] refs.sketches@[i]).id)
        && sr[refs.sketches@[i].id] == p.sketches[i].id.0 by {
        assert(sketch_written(p.sketches[i], (i + 1) as u64, refs.sketches@[i], numbering(p.workplanes)));
        assert(sr[(i + 1) as u64] == sslots[i]);
    }
    assert forall|j: int| 0 <= j < p.bodies.len() implies br.contains_key((#[trigger] refs.bodies@[j]).id)
        && br[refs.bodies@[j].id] == p.bodies[j].0.0 by {
        assert(body_written(p.bodies[j].1, (j + 1) as u64, refs.bodies@[j], numbering(fslots)));
        assert(br[(j + 1) as u64] == bslots[j]);
    }
    assert forall|k: int| 0 <= k < p.features.len() implies {
        let f = #[trigger] refs.features@[k];
        let v = p.features[k].1;
        &&& fr.contains_key(f.id)
        &&& fr[f.id] == p.features[k].0.0
        &&& br[f.body] == v.body.0
        &&& match v.source_sketch {
            None => f.source_sketch is None,
            Some(s) => f.source_sketch is Some && sr[f.source_sketch->Some_0] == s.0,
        }
    } by {
        let v = p.features[k].1;
        assert(feature_written(v, p.features[k].0.0, (k + 1) as u64, refs.features@[k], numbering(bslots), numbering(sslots)));
        assert(feature_writable(v, p));
        assert(fr[(k + 1) as u64] == fslots[k]);
        assert(numbering(bslots).contains_key(v.body.0));
        if let Some(src) = v.source_sketch {
            assert(numbering(sslots).contains_key(src.0));
        }
    }
    if let Some(a) = p.active_sketch {
        assert(numbering(sslots).contains_key(a.0));
    }
}

/// Reading back what was written: the references written from a
/// well-formed project whose references all name something read back
/// without error, and give every sketch, body and feature its own slot,
/// each sketch its entities, dimensions and constraints, each body its
/// features, each feature its body and source sketch, and the active
/// sketch.
pub proof fn lemma_written_reads_back(p: ProjectView, refs: ProjectRefs)
    requires
        project_wf(p),
        writable(p),
        written(p, refs),
    ensures
        load_outcome(refs) is Ok,
        reads_back(p, refs, load_outcome(refs)->Ok_0),
{
    lemma_written_loads(p, refs);
    lemma_written_tables_read_back(p, refs, load_outcome(refs)->Ok_0);
}

/// Writes the references of `project` in file form: every workplane,
/// sketch, entity, dimension, body and feature numbered 1, 2, 3, ... in its
/// list, and every reference written as the number of what it names. Fails
/// when a reference names nothing the project has, or a constraint has no
/// file form.
pub fn project_to_refs(project: &ProjectModel) -> (r: Result<ProjectRefs, ProjectIoError>)
    requires
        project_wf(project@),
    ensures
        r is Ok <==> writable(project@),
        r matches Err(e) ==> write_error(project@, e),
        r matches Ok(refs) ==> {
            &&& written(project@, refs)
            &&& load_outcome(refs) is Ok
            &&& reads_back(project@, refs, load_outcome(refs)->Ok_0)
            &&& (forall|i: int|
                0 <= i < project@.sketches.len() ==> (#[trigger] project@.sketches[i]).constraints.len() < u32::MAX
                    - 1) ==> refs_well_sized(refs)
        },
{
    let wslots = copy_slots(&project.workplanes);
    let sslots = sketch_slot_list(&project.sketches);
    let bslots = body_slot_list(&project.bodies);
    let fslots = feature_slot_list(&project.features);
    proof {
        assert(sslots@ =~= sketch_slots(project@));
        assert(bslots@ =~= body_slots(project@));
        assert(fslots@ =~= feature_slots(project@));
        lemma_slots_distinct(project@);
        lemma_len_fits(wslots.len());
        lemma_len_fits(sslots.len());
        lemma_len_fits(bslots.len());
        lemma_len_fits(fslots.len());
    }
    let workplane_ids = file_ids(wslots.as_slice());
    let sketch_ids = file_ids(sslots.as_slice());
    let body_ids = file_ids(bslots.as_slice());
    let feature_ids = file_ids(fslots.as_slice());
    proof {
        lemma_file_ids_numbering(wslots@, workplane_ids@);
        lemma_file_ids_numbering(sslots@, sketch_ids@);
        lemma_file_ids_numbering(bslots@, body_ids@);
        lemma_file_ids_numbering(fslots@, feature_ids@);
    }
    let mut sketches: Vec<SketchRefs> = Vec::new();
    let mut i: usize = 0;
    while i < project.sketches.len()
        invariant
            i <= project@.sketches.len(),
            project@.sketches.len() <= u64::MAX,
            project@.sketches.len() == project.sketches@.len(),
            forall|k: int| 0 <= k < project@.sketches.len() ==> #[trigger] project@.sketches[k] == project.sketches@[k]@,
            forall|k: int|
                0 <= k < project@.sketches.len() ==> entity_slots(#[trigger] project@.sketches[k]).no_duplicates(),
            workplane_ids@ == numbering(project@.workplanes),
            sketches@.len() == i,
            forall|k: int|
                0 <= k < i ==> sketch_written(
                    project@.sketches[k],
                    (k + 1) as u64,
                    #[trigger] sketches@[k],
                    workplane_ids@,
                ),
            forall|k: int| 0 <= k < i ==> sketch_writable(#[trigger] project@.sketches[k], project@.workplanes),
        decreases project@.sketches.len() - i,
    {
        proof {
            assert(project@.sketches[i as int] == project.sketches@[i as int]@);
            assert(entity_slots(project@.sketches[i as int]).no_duplicates());
        }
        let s = match sketch_refs(&project.sketches[i], (i as u64) + 1, &workplane_ids) {
            Ok(s) => s,
            Err(e) => {
                proof {
                    assert(!sketch_writable(project@.sketches[i as int], project@.workplanes));
                }
                return Err(e);
            },
        };
        sketches.push(s);
        i = i + 1;
    }
    let mut bodies: Vec<BodyFile> = Vec::new();
    let mut j: usize = 0;
    while j < project.bodies.len()
        invariant
            j <= project@.bodies.len(),
            project@.bodies.len() <= u64::MAX,
            project@.bodies.len() == project.bodies@.len(),
            forall|k: int| 0 <= k < project@.bodies.len() ==> #[trigger] project@.bodies[k] == (project.bodies@[k].0, project.bodies@[k].1@),
            feature_ids@ == numbering(feature_slots(project@)),
            forall|k: int| 0 <= k < project@.sketches.len() ==> sketch_writable(#[trigger] project@.sketches[k], project@.workplanes),
            bodies@.len() == j,
            forall|k: int|
                0 <= k < j ==> body_written(project@.bodies[k].1, (k + 1) as u64, #[trigger] bodies@[k], feature_ids@),
            forall|k: int| 0 <= k < j ==> body_writable((#[trigger] project@.bodies[k]).1, project@),
        decreases project@.bodies.len() - j,
    {
        let file = match body_to_file((j as u64) + 1, &project.bodies[j].1, &feature_ids) {
            Ok(f) => f,
            Err(e) => {
                proof {
                    assert(!body_writable(project@.bodies[j as int].1, project@));
                    assert(0 <= j < project@.bodies.len() && (forall|k: int|
                        0 <= k < j ==> body_writable((#[trigger] project@.bodies[k]).1, project@)) && !body_writable(
                        project@.bodies[j as int].1,
                        project@,
                    ) && e == ProjectIoError::DanglingReference { kind: RefKind::Feature });
                }
                return Err(e);
            },
        };
        bodies.push(file);
        j = j + 1;
    }
    let mut features: Vec<FeatureRefs> = Vec::new();
    let mut k: usize = 0;
    while k < project.features.len()
        invariant
            k <= project@.features.len(),
            project@.features.len() <= u64::MAX,
            project@.features.len() == project.features@.len(),
            forall|m: int| 0 <= m < project@.features.len() ==> #[trigger] project@.features[m] == (project.features@[m].0, project.features@[m].1@),
            body_ids@ == numbering(body_slots(project@)),
            sketch_ids@ == numbering(sketch_slots(project@)),
            forall|m: int| 0 <= m < project@.sketches.len() ==> sketch_writable(#[trigger] project@.sketches[m], project@.workplanes),
            forall|m: int| 0 <= m < project@.bodies.len() ==> body_writable((#[trigger] project@.bodies[m]).1, project@),
            features@.len() == k,
            forall|m: int|
                0 <= m < k ==> feature_written(
                    project@.features[m].1,
                    project@.features[m].0.0,
                    (m + 1) as u64,
                    #[trigger] features@[m],
                    body_ids@,
                    sketch_ids@,
                ),
            forall|m: int| 0 <= m < k ==> feature_writable((#[trigger] project@.features[m]).1, project@),
        decreases project@.features.len() - k,
    {
        let link = &project.features[k].1;
        let (body, source_sketch) = match link.file_refs(&body_ids, &sketch_ids) {
            Ok(refs) => refs,
            Err(e) => {
                proof {
                    assert(!feature_writable(project@.features[k as int].1, project@));
                    assert(e == feature_write_error(project@.features[k as int].1, project@));
                    assert(0 <= k < project@.features.len() && (forall|m: int|
                        0 <= m < k ==> feature_writable((#[trigger] project@.features[m]).1, project@))
                        && !feature_writable(project@.features[k as int].1, project@) && e == feature_write_error(
                        project@.features[k as int].1,
                        project@,
                    ));
                }
                return Err(e);
            },
        };
        features.push(
            FeatureRefs {
                id: (k as u64) + 1,
                slot: project.features[k].0.0,
                kind: link.kind(),
                name: link.name().to_owned(),
                body,
                source_sketch,
            },
        );
        k = k + 1;
    }
    let active_sketch = match project.active_sketch {
        Some(a) => match lookup_file_id(&sketch_ids, a.0, RefKind::ActiveSketch) {
            Ok(id) => Some(id),
            Err(e) => return Err(e),
        },
        None => None,
    };
    let workplanes = numbered_ids(wslots.len());
    let refs = ProjectRefs {
        schema_version: CURRENT_SCHEMA_VERSION,
        workplanes,
        workplane_slots: wslots,
        sketches,
        bodies,
        body_slots: bslots,
        features,
        active_sketch,
    };
    proof {
        lemma_written_reads_back(project@, refs);
        assert forall|i: int| 0 <= i < refs.sketches@.len() implies {
            let s = #[trigger] refs.sketches@[i];
            &&& s.entity_slots@.len() == s.entities@.len()
            &&& s.dimension_slots@.len() == s.dimensions@.len()
        } by {
            assert(sketch_written(project@.sketches[i], (i + 1) as u64, refs.sketches@[i], numbering(project@.workplanes)));
        }
    }
    Ok(refs)
}

/// Numbering distinct slots: the file ids are distinct, and the table the
/// loader registers from them sends each file id back to its slot, so it
/// inverts the numbering.
pub proof fn lemma_numbered_registry(keys: Seq<u64>)
    requires
        keys.no_duplicates(),
        keys.len() <= u64::MAX,
    ensures
        numbered(keys.len()).no_duplicates(),
        forall|x: u64| #[trigger] registry(numbered(keys.len()), keys).contains_key(x) <==> 1 <= x <= keys.len(),
        forall|i: int|
            0 <= i < keys.len() ==> #[trigger] registry(numbered(keys.len()), keys)[(i + 1) as u64] == keys[i],
        forall|i: int|
            0 <= i < keys.len() ==> numbering(keys).contains_key(#[trigger] keys[i]) && numbering(keys)[keys[i]]
                == (i + 1) as u64,
        crate::schema::inverts(numbering(keys), registry(numbered(keys.len()), keys)),
{
    let n = keys.len();
    let ids = numbered(n);
    let reg = registry(ids, keys);
    assert forall|a: int, b: int| 0 <= a < ids.len() && 0 <= b < ids.len() && a != b implies ids[a] != ids[b] by {}
    assert forall|x: u64| #[trigger] reg.contains_key(x) <==> 1 <= x <= n by {
        if 1 <= x <= n {
            assert(ids[x - 1] == x);
        }
    }
    assert forall|i: int| 0 <= i < n implies #[trigger] reg[(i + 1) as u64] == keys[i] by {
        assert(ids[i] == (i + 1) as u64);
        let c = choose|c: int| 0 <= c < ids.len() && ids[c] == (i + 1) as u64;
        assert(c == i);
    }
    assert forall|i: int| 0 <= i < n implies numbering(keys).contains_key(#[trigger] keys[i]) && numbering(keys)[keys[i]]
        == (i + 1) as u64 by {
        let c = choose|c: int| 0 <= c < keys.len() && keys[c] == keys[i];
        if c != i {
            assert(keys[c] != keys[i]);
        }
    }
    assert forall|k: u64| #[trigger] numbering(keys).contains_key(k) implies reg.contains_key(numbering(keys)[k])
        && reg[numbering(keys)[k]] == k by {
        let i = choose|i: int| 0 <= i < keys.len() && keys[i] == k;
        assert(numbering(keys)[keys[i]] == (i + 1) as u64);
        assert(reg[(i + 1) as u64] == keys[i]);
    }
}

/// The table `file_ids` builds from distinct slots is their numbering.
pub proof fn lemma_file_ids_numbering(keys: Seq<u64>, m: Map<u64, FileId>)
    requires
        keys.no_duplicates(),
        m.dom() == keys.to_set(),
        forall|i: int|
            0 <= i < keys.len() && (forall|j: int| i < j < keys.len() ==> keys[j] != keys[i]) ==> #[trigger] m[keys[i]]
                == i + 1,
    ensures
        m == numbering(keys),
{
    assert forall|k: u64| #[trigger] m.contains_key(k) <==> numbering(keys).contains_key(k) by {
        if keys.contains(k) {
            assert(keys.to_set().contains(k));
        }
    }
    assert forall|k: u64| #[trigger] m.contains_key(k) implies m[k] == numbering(keys)[k] by {
        assert(keys.to_set().contains(k));
        let i = choose|i: int| 0 <= i < keys.len() && keys[i] == k;
        assert forall|j: int| i < j < keys.len() implies keys[j] != keys[i] by {}
        assert(m[keys[i]] == i + 1);
        let c = choose|c: int| 0 <= c < keys.len() && keys[c] == k;
        if c != i {
            assert(keys[c] != keys[i]);
        }
    }
    assert(m =~= numbering(keys));
}

/// Constraint records that all read back and carry distinct ids raise no
/// error.
pub proof fn lemma_records_readable(records: Seq<ConstraintFileRecord>, m: Map<FileId, u64>)
    requires
        forall|j: int| 0 <= j < records.len() ==> (#[trigger] constraint_from_file(records[j].constraint, m)) is Ok,
        record_ids(records).no_duplicates(),
    ensures
        records_error(records, m) is None,
{
    lemma_no_duplicates_iff(record_ids(records));
    assert forall|j: int| !is_first_bad_record(records, m, j) by {
        if 0 <= j < records.len() {
            assert(constraint_from_file(records[j].constraint, m) is Ok);
            assert(record_ids(records).len() == records.len());
        }
    }
}

/// Registering sketches numbered from `start + 1` on, none of which has
/// an error, after a table holding the numbers up to `start`, gives the
/// table extended with each sketch's number and slot.
#[verifier::spinoff_prover]
pub proof fn lemma_sketches_numbered(
    sk: Seq<SketchRefs>,
    wp: Map<FileId, u64>,
    acc: Map<FileId, u64>,
    start: nat,
)
    requires
        forall|i: int| 0 <= i < sk.len() ==> (#[trigger] sk[i]).id == start + i + 1,
        forall|x: u64| #[trigger] acc.contains_key(x) <==> 1 <= x <= start,
        forall|i: int| 0 <= i < sk.len() ==> sketch_error(#[trigger] sk[i], wp) is None,
    ensures
        sketches_result(sk, wp, acc) == Ok::<Map<FileId, u64>, ProjectIoError>(
            Map::new(
                |x: u64| 1 <= x <= start + sk.len(),
                |x: u64| if x <= start { acc[x] } else { sk[x - start - 1].slot },
            ),
        ),
    decreases sk.len(),
{
    let target = Map::new(
        |x: u64| 1 <= x <= start + sk.len(),
        |x: u64| if x <= start { acc[x] } else { sk[x - start - 1].slot },
    );
    if sk.len() == 0 {
        assert(acc =~= target);
    } else {
        assert(sketch_error(sk[0], wp) is None);
        assert(!acc.contains_key(sk[0].id));
        let acc2 = acc.insert(sk[0].id, sk[0].slot);
        let rest = sk.drop_first();
        assert forall|i: int| 0 <= i < rest.len() implies (#[trigger] rest[i]).id == (start + 1) + i + 1 by {
            assert(rest[i] == sk[i + 1]);
        }
        assert forall|i: int| 0 <= i < rest.len() implies sketch_error(#[trigger] rest[i], wp) is None by {
            assert(rest[i] == sk[i + 1]);
        }
        assert forall|x: u64| #[trigger] acc2.contains_key(x) <==> 1 <= x <= start + 1 by {}
        lemma_sketches_numbered(rest, wp, acc2, start + 1);
        let got = Map::new(
            |x: u64| 1 <= x <= (start + 1) + rest.len(),
            |x: u64| if x <= start + 1 { acc2[x] } else { rest[x - (start + 1) - 1].slot },
        );
        assert forall|x: u64| #[trigger] got.contains_key(x) implies got[x] == target[x] by {
            if x > start + 1 {
                assert(rest[x - (start + 1) - 1] == sk[x - start - 1]);
            }
        }
        assert(got =~= target);
    }
}

/// Registering features numbered from `start + 1` on, none of which has an
/// error, after a table holding the numbers up to `start`, gives the table
/// extended with each feature's number and slot.
#[verifier::spinoff_prover]
pub proof fn lemma_features_numbered(
    fs: Seq<FeatureRefs>,
    bodies: Map<FileId, u64>,
    sketches: Map<FileId, u64>,
    acc: Map<FileId, u64>,
    start: nat,
)
    requires
        forall|i: int| 0 <= i < fs.len() ==> (#[trigger] fs[i]).id == start + i + 1,
        forall|x: u64| #[trigger] acc.contains_key(x) <==> 1 <= x <= start,
        forall|i: int| 0 <= i < fs.len() ==> feature_error(#[trigger] fs[i], bodies, sketches) is None,
    ensures
        features_result(fs, bodies, sketches, acc) == Ok::<Map<FileId, u64>, ProjectIoError>(
            Map::new(
                |x: u64| 1 <= x <= start + fs.len(),
                |x: u64| if x <= start { acc[x] } else { fs[x - start - 1].slot },
            ),
        ),
    decreases fs.len(),
{
    let target = Map::new(
        |x: u64| 1 <= x <= start + fs.len(),
        |x: u64| if x <= start { acc[x] } else { fs[x - start - 1].slot },
    );
    if fs.len() == 0 {
        assert(acc =~= target);
    } else {
        assert(feature_error(fs[0], bodies, sketches) is None);
        assert(!acc.contains_key(fs[0].id));
        let acc2 = acc.insert(fs[0].id, fs[0].slot);
        let rest = fs.drop_first();
        assert forall|i: int| 0 <= i < rest.len() implies (#[trigger] rest[i]).id == (start + 1) + i + 1 by {
            assert(rest[i] == fs[i + 1]);
        }
        assert forall|i: int| 0 <= i < rest.len() implies feature_error(#[trigger] rest[i], bodies, sketches) is None by {
            assert(rest[i] == fs[i + 1]);
        }
        assert forall|x: u64| #[trigger] acc2.contains_key(x) <==> 1 <= x <= start + 1 by {}
        lemma_features_numbered(rest, bodies, sketches, acc2, start + 1);
        let got = Map::new(
            |x: u64| 1 <= x <= (start + 1) + rest.len(),
            |x: u64| if x <= start + 1 { acc2[x] } else { rest[x - (start + 1) - 1].slot },
        );
        assert forall|x: u64| #[trigger] got.contains_key(x) implies got[x] == target[x] by {
            if x > start + 1 {
                assert(rest[x - (start + 1) - 1] == fs[x - start - 1]);
            }
        }
        assert(got =~= target);
    }
}

/// Bodies whose feature references all name features raise no error.
pub proof fn lemma_bodies_readable(bodies: Seq<BodyFile>, fm: Map<FileId, u64>)
    requires
        forall|j: int, m: int|
            0 <= j < bodies.len() && 0 <= m < bodies[j].features@.len() ==> fm.contains_key(
                #[trigger] bodies[j].features@[m],
            ),
    ensures
        bodies_error(bodies, fm) is None,
    decreases bodies.len(),
{
    if bodies.len() > 0 {
        lemma_refs_error(bodies[0].features@, fm);
        assert forall|m: int| 0 <= m < bodies[0].features@.len() implies fm.contains_key(
            #[trigger] bodies[0].features@[m],
        ) by {}
        let rest = bodies.drop_first();
        assert forall|j: int, m: int|
            0 <= j < rest.len() && 0 <= m < rest[j].features@.len() implies fm.contains_key(
                #[trigger] rest[j].features@[m],
            ) by {
            assert(rest[j] == bodies[j + 1]);
        }
        lemma_bodies_readable(rest, fm);
    }
}
} // verus!
