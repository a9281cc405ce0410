//! Reading a project file's references, in the order the file format
//! fixes: the schema version, the workplanes, each sketch (its workplane,
//! entities, dimensions and constraints, then its own id), the bodies, the
//! features, the features of each body, and last the active sketch. The
//! first problem met is the one reported. Coordinates and other geometry
//! are read by the application; here every object is known by its file id
//! and by the slot it was stored in.

use std::collections::HashMap;

use vstd::prelude::*;

use crate::body::{bumped, resolved_features, Body, BodyFile, BodyView};
use crate::constraint::Constraint;
use crate::feature::{slot_of, FeatureKind, FeatureLink, FeatureLinkView};
use crate::ids::{BodyId, SketchId};
use crate::schema::{
    check_schema_version, constraint_from_file, insert_file_id, lookup_slot_id, register_file_ids,
    repeats_earlier, ConstraintFileRecord, FileId, ProjectIoError, RefKind, CURRENT_SCHEMA_VERSION,
};
use crate::sketch::{record_ids, SketchConstraints};

verus! {

/// A sketch as read from a project file: its file id and slot, the file id
/// of its workplane, the file ids and slots of its entities and
/// dimensions, and its constraint records.
pub struct SketchRefs {
    pub id: FileId,
    pub slot: u64,
    pub workplane: FileId,
    pub entities: Vec<FileId>,
    pub entity_slots: Vec<u64>,
    pub dimensions: Vec<FileId>,
    pub dimension_slots: Vec<u64>,
    pub constraints: Vec<ConstraintFileRecord>,
}

/// A feature as read from a project file: its file id and slot, what it
/// does, its name, and the file ids of its body and source sketch.
pub struct FeatureRefs {
    pub id: FileId,
    pub slot: u64,
    pub kind: FeatureKind,
    pub name: String,
    pub body: FileId,
    pub source_sketch: Option<FileId>,
}

/// The references of a whole project file. Object `i` of each kind was
/// stored in the slot given at position `i` of its slot list.
pub struct ProjectRefs {
    pub schema_version: u32,
    pub workplanes: Vec<FileId>,
    pub workplane_slots: Vec<u64>,
    pub sketches: Vec<SketchRefs>,
    pub bodies: Vec<BodyFile>,
    pub body_slots: Vec<u64>,
    pub features: Vec<FeatureRefs>,
    pub active_sketch: Option<FileId>,
}

/// What a project's references resolve to: the constraint table of each
/// sketch, each body with its features, each feature's links, and the
/// active sketch.
pub struct LoadedRefs {
    pub sketch_constraints: Vec<SketchConstraints>,
    pub bodies: Vec<Body>,
    pub features: Vec<FeatureLink>,
    pub active_sketch: Option<SketchId>,
}

/// The tables from file id to slot of sketches, bodies and features.
pub ghost struct LoadTables {
    pub sketch_ids: Map<FileId, u64>,
    pub body_ids: Map<FileId, u64>,
    pub feature_ids: Map<FileId, u64>,
}

/// Entry `j` is the first entry whose file id an earlier entry took.
pub open spec fn is_first_repeat(ids: Seq<FileId>, j: int) -> bool {
    &&& 0 <= j < ids.len()
    &&& repeats_earlier(ids, j)
    &&& forall|k: int| 0 <= k < j ==> !#[trigger] repeats_earlier(ids, k)
}

/// The error of registering file ids of `kind`: the first repeated id.
pub open spec fn registry_error(ids: Seq<FileId>, kind: RefKind) -> Option<ProjectIoError> {
    if ids.no_duplicates() {
        None
    } else {
        Some(ProjectIoError::DuplicateId { kind, id: ids[choose|j: int| is_first_repeat(ids, j)] })
    }
}

/// The table from each file id to the slot at the same position.
pub open spec fn registry(ids: Seq<FileId>, slots: Seq<u64>) -> Map<FileId, u64> {
    Map::new(
        |k: FileId| ids.contains(k),
        |k: FileId| slots[choose|i: int| 0 <= i < ids.len() && ids[i] == k],
    )
}

/// Record `j` cannot be read: its constraint names an unknown entity, or
/// its file id was taken by an earlier record.
pub open spec fn record_bad(records: Seq<ConstraintFileRecord>, m: Map<FileId, u64>, j: int) -> bool {
    constraint_from_file(records[j].constraint, m) is Err || repeats_earlier(record_ids(records), j)
}

/// Record `j` is the first record that cannot be read.
pub open spec fn is_first_bad_record(
    records: Seq<ConstraintFileRecord>,
    m: Map<FileId, u64>,
    j: int,
) -> bool {
    &&& 0 <= j < records.len()
    &&& record_bad(records, m, j)
    &&& forall|k: int| 0 <= k < j ==> !#[trigger] record_bad(records, m, k)
}

/// The error of reading constraint records against the entity table `m`:
/// that of the first record that cannot be read.
pub open spec fn records_error(records: Seq<ConstraintFileRecord>, m: Map<FileId, u64>) -> Option<
    ProjectIoError,
> {
    if exists|j: int| is_first_bad_record(records, m, j) {
        let j = choose|j: int| is_first_bad_record(records, m, j);
        match constraint_from_file(records[j].constraint, m) {
            Err(e) => Some(e),
            Ok(_) => Some(ProjectIoError::DuplicateId { kind: RefKind::Constraint, id: records[j].id }),
        }
    } else {
        None
    }
}

/// The error of reading one sketch, if any: its workplane first, then its
/// entity ids, its dimension ids and its constraints.
pub open spec fn sketch_error(s: SketchRefs, workplanes: Map<FileId, u64>) -> Option<ProjectIoError> {
    if !workplanes.contains_key(s.workplane) {
        Some(ProjectIoError::MissingReference { kind: RefKind::Workplane, id: s.workplane })
    } else if registry_error(s.entities@, RefKind::SketchEntity) is Some {
        registry_error(s.entities@, RefKind::SketchEntity)
    } else if registry_error(s.dimensions@, RefKind::SketchDimension) is Some {
        registry_error(s.dimensions@, RefKind::SketchDimension)
    } else {
        records_error(s.constraints@, registry(s.entities@, s.entity_slots@))
    }
}

/// Reading the sketches in order, starting from the sketch table `acc`:
/// each sketch is read, then its file id is registered.
pub open spec fn sketches_result(
    sketches: Seq<SketchRefs>,
    workplanes: Map<FileId, u64>,
    acc: Map<FileId, u64>,
) -> Result<Map<FileId, u64>, ProjectIoError>
    decreases sketches.len(),
{
    if sketches.len() == 0 {
        Ok(acc)
    } else {
        match sketch_error(sketches[0], workplanes) {
            Some(e) => Err(e),
            None => if acc.contains_key(sketches[0].id) {
                Err(ProjectIoError::DuplicateId { kind: RefKind::Sketch, id: sketches[0].id })
            } else {
                sketches_result(
                    sketches.drop_first(),
                    workplanes,
                    acc.insert(sketches[0].id, sketches[0].slot),
                )
            },
        }
    }
}

/// The error of resolving one feature's body and source sketch, if any.
pub open spec fn feature_error(
    f: FeatureRefs,
    bodies: Map<FileId, u64>,
    sketches: Map<FileId, u64>,
) -> Option<ProjectIoError> {
    match slot_of(bodies, f.body, RefKind::Body) {
        Err(e) => Some(e),
        Ok(_) => match f.source_sketch {
            None => None,
            Some(s) => match slot_of(sketches, s, RefKind::SourceSketch) {
                Err(e) => Some(e),
                Ok(_) => None,
            },
        },
    }
}

/// Reading the features in order, starting from the feature table `acc`:
/// each feature is resolved, then its file id is registered.
pub open spec fn features_result(
    features: Seq<FeatureRefs>,
    bodies: Map<FileId, u64>,
    sketches: Map<FileId, u64>,
    acc: Map<FileId, u64>,
) -> Result<Map<FileId, u64>, ProjectIoError>
    decreases features.len(),
{
    if features.len() == 0 {
        Ok(acc)
    } else {
        match feature_error(features[0], bodies, sketches) {
            Some(e) => Err(e),
            None => if acc.contains_key(features[0].id) {
                Err(ProjectIoError::DuplicateId { kind: RefKind::Feature, id: features[0].id })
            } else {
                features_result(
                    features.drop_first(),
                    bodies,
                    sketches,
                    acc.insert(features[0].id, features[0].slot),
                )
            },
        }
    }
}

/// The first feature reference in `refs` that names no feature.
pub open spec fn refs_error(refs: Seq<FileId>, features: Map<FileId, u64>) -> Option<ProjectIoError>
    decreases refs.len(),
{
    if refs.len() == 0 {
        None
    } else if !features.contains_key(refs[0]) {
        Some(ProjectIoError::MissingReference { kind: RefKind::Feature, id: refs[0] })
    } else {
        refs_error(refs.drop_first(), features)
    }
}

/// The first feature reference of the bodies, in order, that names no
/// feature.
pub open spec fn bodies_error(bodies: Seq<BodyFile>, features: Map<FileId, u64>) -> Option<
    ProjectIoError,
>
    decreases bodies.len(),
{
    if bodies.len() == 0 {
        None
    } else if refs_error(bodies[0].features@, features) is Some {
        refs_error(bodies[0].features@, features)
    } else {
        bodies_error(bodies.drop_first(), features)
    }
}

/// The file ids of the bodies, in order.
pub open spec fn body_file_ids(bodies: Seq<BodyFile>) -> Seq<FileId> {
    bodies.map_values(|b: BodyFile| b.id)
}

/// What reading the references of a project gives: the first error in
/// file order, or the tables of sketches, bodies and features.
pub open spec fn load_outcome(refs: ProjectRefs) -> Result<LoadTables, ProjectIoError> {
    if refs.schema_version != CURRENT_SCHEMA_VERSION {
        Err(ProjectIoError::UnsupportedSchemaVersion {
            found: refs.schema_version,
            expected: CURRENT_SCHEMA_VERSION,
        })
    } else if registry_error(refs.workplanes@, RefKind::Workplane) is Some {
        Err(registry_error(refs.workplanes@, RefKind::Workplane)->Some_0)
    } else {
        let workplanes = registry(refs.workplanes@, refs.workplane_slots@);
        match sketches_result(refs.sketches@, workplanes, Map::empty()) {
            Err(e) => Err(e),
            Ok(sketch_ids) => if registry_error(body_file_ids(refs.bodies@), RefKind::Body) is Some {
                Err(registry_error(body_file_ids(refs.bodies@), RefKind::Body)->Some_0)
            } else {
                let body_ids = registry(body_file_ids(refs.bodies@), refs.body_slots@);
                match features_result(refs.features@, body_ids, sketch_ids, Map::empty()) {
                    Err(e) => Err(e),
                    Ok(feature_ids) => match bodies_error(refs.bodies@, feature_ids) {
                        Some(e) => Err(e),
                        None => match refs.active_sketch {
                            Some(a) => if sketch_ids.contains_key(a) {
                                Ok(LoadTables { sketch_ids, body_ids, feature_ids })
                            } else {
                                Err(
                                    ProjectIoError::MissingReference {
                                        kind: RefKind::ActiveSketch,
                                        id: a,
                                    },
                                )
                            },
                            None => Ok(LoadTables { sketch_ids, body_ids, feature_ids }),
                        },
                    },
                }
            },
        }
    }
}

/// What feature `f` links to under the tables of bodies and sketches.
pub open spec fn feature_view(
    f: FeatureRefs,
    bodies: Map<FileId, u64>,
    sketches: Map<FileId, u64>,
) -> FeatureLinkView {
    FeatureLinkView {
        kind: f.kind,
        name: f.name@,
        body: BodyId(bodies[f.body]),
        source_sketch: match f.source_sketch {
            None => None,
            Some(s) => Some(SketchId(sketches[s])),
        },
        profile_key: None,
        profile_valid: true,
    }
}

/// What body `b` holds under the feature table `features`.
pub open spec fn body_view(b: BodyFile, features: Map<FileId, u64>) -> BodyView {
    BodyView {
        name: b.name@,
        features: resolved_features(b.features@, features),
        revision: bumped(0, b.features@.len()),
    }
}

/// Whether the table `t` holds exactly the constraints of `records`, read
/// against the entity table `m`, one per record.
pub open spec fn holds_records(
    t: Map<u64, Constraint>,
    records: Seq<ConstraintFileRecord>,
    m: Map<FileId, u64>,
) -> bool {
    &&& t.len() == records.len()
    &&& forall|i: int|
        0 <= i < records.len() ==> table_has(
            t,
            (#[trigger] constraint_from_file(records[i].constraint, m))->Ok_0,
        )
    &&& forall|k: u64| #[trigger]
        t.contains_key(k) ==> exists|i: int|
            0 <= i < records.len() && t[k] == constraint_from_file(records[i].constraint, m)->Ok_0
}

/// Whether the table `t` holds the constraint `c` under some handle.
pub open spec fn table_has(t: Map<u64, Constraint>, c: Constraint) -> bool {
    exists|k: u64| t.contains_key(k) && t[k] == c
}


/// Whether `p` is what the references `refs` resolve to under the tables
/// `t`: one constraint table per sketch holding its records, one body per
/// body record with its features resolved, one link per feature record,
/// and the active sketch's slot.
pub open spec fn loaded_matches(p: LoadedRefs, refs: ProjectRefs, t: LoadTables) -> bool {
    &&& p.sketch_constraints@.len() == refs.sketches@.len()
    &&& forall|i: int|
        0 <= i < refs.sketches@.len() ==> holds_records(
            (#[trigger] p.sketch_constraints@[i])@,
            refs.sketches@[i].constraints@,
            registry(refs.sketches@[i].entities@, refs.sketches@[i].entity_slots@),
        )
    &&& p.bodies@.len() == refs.bodies@.len()
    &&& forall|i: int|
        0 <= i < refs.bodies@.len() ==> (#[trigger] p.bodies@[i])@ == body_view(
            refs.bodies@[i],
            t.feature_ids,
        )
    &&& p.features@.len() == refs.features@.len()
    &&& forall|i: int|
        0 <= i < refs.features@.len() ==> (#[trigger] p.features@[i])@ == feature_view(
            refs.features@[i],
            t.body_ids,
            t.sketch_ids,
        )
    &&& p.active_sketch == match refs.active_sketch {
        None => None,
        Some(a) => Some(SketchId(t.sketch_ids[a])),
    }
}

/// Whether the sizes in `refs` are those the reader accepts: a slot for
/// every object, and fewer constraint records per sketch than constraint
/// handles.
pub open spec fn refs_well_sized(refs: ProjectRefs) -> bool {
    &&& refs.workplane_slots@.len() == refs.workplanes@.len()
    &&& refs.body_slots@.len() == refs.bodies@.len()
    &&& forall|i: int|
        0 <= i < refs.sketches@.len() ==> {
            let s = #[trigger] refs.sketches@[i];
            &&& s.entity_slots@.len() == s.entities@.len()
            &&& s.dimension_slots@.len() == s.dimensions@.len()
            &&& s.constraints@.len() < u32::MAX - 1
        }
}

proof fn lemma_first_repeat_unique(ids: Seq<FileId>, a: int, b: int)
    requires
        is_first_repeat(ids, a),
        is_first_repeat(ids, b),
    ensures
        a == b,
{
    if a < b {
        assert(!repeats_earlier(ids, a));
    } else if b < a {
        assert(!repeats_earlier(ids, b));
    }
}

pub proof fn lemma_no_duplicates_iff(ids: Seq<FileId>)
    ensures
        ids.no_duplicates() <==> forall|j: int| 0 <= j < ids.len() ==> !#[trigger] repeats_earlier(ids, j),
{
    if ids.no_duplicates() {
        assert forall|j: int| 0 <= j < ids.len() implies !#[trigger] repeats_earlier(ids, j) by {
            if repeats_earlier(ids, j) {
                let k = choose|k: int| 0 <= k < j && ids[k] == ids[j];
            }
        }
    }
    if forall|j: int| 0 <= j < ids.len() ==> !#[trigger] repeats_earlier(ids, j) {
        assert forall|a: int, b: int| 0 <= a < ids.len() && 0 <= b < ids.len() && a != b implies ids[a]
            != ids[b] by {
            if a < b {
                if ids[a] == ids[b] {
                    assert(repeats_earlier(ids, b));
                }
            } else {
                if ids[a] == ids[b] {
                    assert(repeats_earlier(ids, a));
                }
            }
        }
    }
}

/// What `register_file_ids` reports, in terms of `registry_error` and
/// `registry`.
proof fn lemma_register(
    ids: Seq<FileId>,
    slots: Seq<u64>,
    kind: RefKind,
    r: Result<Map<FileId, u64>, ProjectIoError>,
)
    requires
        slots.len() == ids.len(),
        r is Ok <==> ids.no_duplicates(),
        r matches Ok(m) ==> m.dom() == ids.to_set() && forall|i: int|
            0 <= i < ids.len() ==> #[trigger] m[ids[i]] == slots[i],
        r matches Err(e) ==> exists|j: int|
            0 <= j < ids.len() && repeats_earlier(ids, j) && (forall|k: int|
                0 <= k < j ==> !#[trigger] repeats_earlier(ids, k)) && e
                == (ProjectIoError::DuplicateId { kind, id: ids[j] }),
    ensures
        r is Ok <==> registry_error(ids, kind) is None,
        r matches Ok(m) ==> m == registry(ids, slots),
        r matches Err(e) ==> registry_error(ids, kind) == Some(e),
{
    match r {
        Ok(m) => {
            assert forall|k: FileId| #[trigger] m.contains_key(k) <==> registry(ids, slots).contains_key(k) by {
                if ids.contains(k) {
                    let i = choose|i: int| 0 <= i < ids.len() && ids[i] == k;
                    assert(ids.to_set().contains(k));
                }
            }
            assert forall|k: FileId| #[trigger] m.contains_key(k) implies m[k] == registry(ids, slots)[k] by {
                assert(ids.to_set().contains(k));
                let i = choose|i: int| 0 <= i < ids.len() && ids[i] == k;
                let c = choose|c: int| 0 <= c < ids.len() && ids[c] == k;
                assert(i == c);
            }
            assert(m =~= registry(ids, slots));
        },
        Err(e) => {
            let j = choose|j: int|
                0 <= j < ids.len() && repeats_earlier(ids, j) && (forall|k: int|
                    0 <= k < j ==> !#[trigger] repeats_earlier(ids, k)) && e
                    == (ProjectIoError::DuplicateId { kind, id: ids[j] });
            assert(is_first_repeat(ids, j));
            let c = choose|c: int| is_first_repeat(ids, c);
            lemma_first_repeat_unique(ids, j, c);
        },
    }
}

/// What a successful `SketchConstraints::from_records` reports, in terms of
/// `records_error` and `holds_records`.
proof fn lemma_records_ok(
    records: Seq<ConstraintFileRecord>,
    m: Map<FileId, u64>,
    t: Map<u64, Constraint>,
    ids: Map<FileId, u64>,
)
    requires
        forall|j: int|
            0 <= j < records.len() ==> (#[trigger] constraint_from_file(records[j].constraint, m)) is Ok,
        record_ids(records).no_duplicates(),
        t.len() == records.len(),
        forall|i: int|
            0 <= i < records.len() ==> t.contains_key(#[trigger] ids[records[i].id]) && t[ids[records[i].id]]
                == constraint_from_file(records[i].constraint, m)->Ok_0,
        forall|k: u64| #[trigger] t.contains_key(k) ==> exists|i: int|
            0 <= i < records.len() && ids[records[i].id] == k,
    ensures
        records_error(records, m) is None,
        holds_records(t, records, m),
{
    lemma_no_duplicates_iff(record_ids(records));
    assert forall|j: int| !is_first_bad_record(records, m, j) by {
        if 0 <= j < records.len() {
            assert(constraint_from_file(records[j].constraint, m) is Ok);
            assert(record_ids(records).len() == records.len());
            assert(!repeats_earlier(record_ids(records), j));
        }
    }
    assert forall|i: int| 0 <= i < records.len() implies table_has(
        t,
        (#[trigger] constraint_from_file(records[i].constraint, m))->Ok_0,
    ) by {
        let k = ids[records[i].id];
        assert(t.contains_key(k));
    }
    assert forall|k: u64| #[trigger] t.contains_key(k) implies exists|i: int|
        0 <= i < records.len() && t[k] == constraint_from_file(records[i].constraint, m)->Ok_0 by {
        let i = choose|i: int| 0 <= i < records.len() && ids[records[i].id] == k;
        assert(t.contains_key(ids[records[i].id]));
    }
}

/// What a failed `SketchConstraints::from_records` reports, in terms of
/// `records_error`.
proof fn lemma_records_err(records: Seq<ConstraintFileRecord>, m: Map<FileId, u64>, e: ProjectIoError, j: int)
    requires
        0 <= j < records.len(),
        forall|k: int|
            0 <= k < j ==> (#[trigger] constraint_from_file(records[k].constraint, m)) is Ok
                && !repeats_earlier(record_ids(records), k),
        constraint_from_file(records[j].constraint, m) == Err::<Constraint, ProjectIoError>(e) || (
        constraint_from_file(records[j].constraint, m) is Ok && repeats_earlier(record_ids(records), j)
            && e == (ProjectIoError::DuplicateId { kind: RefKind::Constraint, id: records[j].id })),
    ensures
        records_error(records, m) == Some(e),
{
    assert forall|k: int| 0 <= k < j implies !#[trigger] record_bad(records, m, k) by {
        assert(constraint_from_file(records[k].constraint, m) is Ok);
    }
    assert(is_first_bad_record(records, m, j));
    let c = choose|c: int| is_first_bad_record(records, m, c);
    if c < j {
        assert(!record_bad(records, m, c));
    } else if j < c {
        assert(!record_bad(records, m, j));
    }
}

pub proof fn lemma_refs_error(refs: Seq<FileId>, features: Map<FileId, u64>)
    ensures
        (forall|k: int| 0 <= k < refs.len() ==> features.contains_key(#[trigger] refs[k]))
            ==> refs_error(refs, features) is None,
        forall|k: int|
            0 <= k < refs.len() && !features.contains_key(#[trigger] refs[k]) && (forall|j: int|
                0 <= j < k ==> features.contains_key(#[trigger] refs[j])) ==> refs_error(refs, features)
                == Some(ProjectIoError::MissingReference { kind: RefKind::Feature, id: refs[k] }),
    decreases refs.len(),
{
    if refs.len() > 0 {
        let d = refs.drop_first();
        lemma_refs_error(d, features);
        if forall|k: int| 0 <= k < refs.len() ==> features.contains_key(#[trigger] refs[k]) {
            assert forall|k: int| 0 <= k < d.len() implies features.contains_key(#[trigger] d[k]) by {
                assert(d[k] == refs[k + 1]);
            }
        }
        assert forall|k: int|
            0 <= k < refs.len() && !features.contains_key(#[trigger] refs[k]) && (forall|j: int|
                0 <= j < k ==> features.contains_key(#[trigger] refs[j])) implies refs_error(refs, features)
                == Some(ProjectIoError::MissingReference { kind: RefKind::Feature, id: refs[k] }) by {
            if k > 0 {
                assert(features.contains_key(refs[0]));
                assert(d[k - 1] == refs[k]);
                assert forall|j: int| 0 <= j < k - 1 implies features.contains_key(#[trigger] d[j]) by {
                    assert(d[j] == refs[j + 1]);
                }
            }
        }
    }
}

/// The table a registration gave, as a map.
pub open spec fn table_result(r: Result<HashMap<FileId, u64>, ProjectIoError>) -> Result<
    Map<FileId, u64>,
    ProjectIoError,
> {
    match r {
        Ok(m) => Ok(m@),
        Err(e) => Err(e),
    }
}

/// Reads one sketch's workplane, entity ids, dimension ids and
/// constraints, giving its constraint table.
fn load_sketch(s: &SketchRefs, workplane_ids: &HashMap<FileId, u64>) -> (r: Result<
    SketchConstraints,
    ProjectIoError,
>)
    requires
        s.entity_slots@.len() == s.entities@.len(),
        s.dimension_slots@.len() == s.dimensions@.len(),
        s.constraints@.len() < u32::MAX - 1,
    ensures
        r is Ok <==> sketch_error(*s, workplane_ids@) is None,
        r matches Err(e) ==> sketch_error(*s, workplane_ids@) == Some(e),
        r matches Ok(t) ==> holds_records(
            t@,
            s.constraints@,
            registry(s.entities@, s.entity_slots@),
        ),
{
    match lookup_slot_id(workplane_ids, s.workplane, RefKind::Workplane) {
        Ok(_) => {},
        Err(e) => {
            return Err(e);
        },
    }
    let er = register_file_ids(s.entities.as_slice(), s.entity_slots.as_slice(), RefKind::SketchEntity);
    proof {
        lemma_register(s.entities@, s.entity_slots@, RefKind::SketchEntity, table_result(er));
    }
    let entity_ids = match er {
        Ok(m) => m,
        Err(e) => {
            return Err(e);
        },
    };
    let dr = register_file_ids(
        s.dimensions.as_slice(),
        s.dimension_slots.as_slice(),
        RefKind::SketchDimension,
    );
    proof {
        lemma_register(s.dimensions@, s.dimension_slots@, RefKind::SketchDimension, table_result(dr));
    }
    match dr {
        Ok(_) => {},
        Err(e) => {
            return Err(e);
        },
    }
    let cr = SketchConstraints::from_records(s.constraints.as_slice(), &entity_ids);
    match cr {
        Ok(made) => {
            let (t, ids) = made;
            proof {
                lemma_records_ok(s.constraints@, entity_ids@, t@, ids@);
            }
            Ok(t)
        },
        Err(e) => {
            proof {
                let records = s.constraints@;
                let m = entity_ids@;
                let j = choose|j: int|
                    #![trigger records[j]]
                    0 <= j < records.len() && (forall|k: int|
                        0 <= k < j ==> (#[trigger] constraint_from_file(records[k].constraint, m)) is Ok
                            && !repeats_earlier(record_ids(records), k)) && (constraint_from_file(
                        records[j].constraint,
                        m,
                    ) == Err::<Constraint, ProjectIoError>(e) || (constraint_from_file(
                        records[j].constraint,
                        m,
                    ) is Ok && repeats_earlier(record_ids(records), j) && e
                        == (ProjectIoError::DuplicateId { kind: RefKind::Constraint, id: records[j].id })));
                lemma_records_err(records, m, e, j);
            }
            Err(e)
        },
    }
}


/// Resolves the references of a project file in file order: the schema
/// version, the workplane ids, each sketch (workplane, entity ids,
/// dimension ids, constraints, then its own id), the body ids, each
/// feature (body, source sketch, then its own id), the features of each
/// body, and the active sketch. The first problem met is returned;
/// otherwise every sketch's constraint table, every body with its features
/// and every feature's links, and the slot of the active sketch.
pub fn load_project_refs(refs: &ProjectRefs) -> (r: Result<LoadedRefs, ProjectIoError>)
    requires
        refs_well_sized(*refs),
    ensures
        r is Ok <==> load_outcome(*refs) is Ok,
        r matches Err(e) ==> load_outcome(*refs) == Err::<LoadTables, ProjectIoError>(e),
        r matches Ok(p) ==> (load_outcome(*refs) matches Ok(t) && loaded_matches(p, *refs, t)),
{
    match check_schema_version(refs.schema_version) {
        Ok(()) => {},
        Err(e) => {
            return Err(e);
        },
    }
    let wr = register_file_ids(
        refs.workplanes.as_slice(),
        refs.workplane_slots.as_slice(),
        RefKind::Workplane,
    );
    proof {
        lemma_register(refs.workplanes@, refs.workplane_slots@, RefKind::Workplane, table_result(wr));
    }
    let workplane_ids = match wr {
        Ok(m) => m,
        Err(e) => {
            return Err(e);
        },
    };
    let ghost wp = workplane_ids@;
    // Sketches, each read and then registered.
    let mut sketch_ids: HashMap<FileId, u64> = HashMap::new();
    let mut tables: Vec<SketchConstraints> = Vec::new();
    let mut i: usize = 0;
    proof {
        assert(refs.sketches@.skip(0) =~= refs.sketches@);
        assert(sketch_ids@ =~= Map::<FileId, u64>::empty());
    }
    while i < refs.sketches.len()
        invariant
            refs_well_sized(*refs),
            refs.schema_version == CURRENT_SCHEMA_VERSION,
            registry_error(refs.workplanes@, RefKind::Workplane) is None,
            wp == registry(refs.workplanes@, refs.workplane_slots@),
            wp == workplane_ids@,
            i <= refs.sketches@.len(),
            sketches_result(refs.sketches@, wp, Map::empty()) == sketches_result(
                refs.sketches@.skip(i as int),
                wp,
                sketch_ids@,
            ),
            tables@.len() == i,
            forall|k: int|
                0 <= k < i ==> holds_records(
                    (#[trigger] tables@[k])@,
                    refs.sketches@[k].constraints@,
                    registry(refs.sketches@[k].entities@, refs.sketches@[k].entity_slots@),
                ),
        decreases refs.sketches@.len() - i,
    {
        let s = &refs.sketches[i];
        proof {
            let rest = refs.sketches@.skip(i as int);
            assert(rest[0] == refs.sketches@[i as int]);
            assert(rest.drop_first() =~= refs.sketches@.skip(i + 1));
        }
        let t = match load_sketch(s, &workplane_ids) {
            Ok(t) => t,
            Err(e) => {
                return Err(e);
            },
        };
        match insert_file_id(&mut sketch_ids, s.id, s.slot, RefKind::Sketch) {
            Ok(_) => {},
            Err(e) => {
                return Err(e);
            },
        }
        tables.push(t);
        i = i + 1;
    }
    let ghost sm = sketch_ids@;
    proof {
        assert(refs.sketches@.skip(i as int).len() == 0);
    }
    // Body ids.
    let mut body_file_ids_v: Vec<FileId> = Vec::new();
    let mut j: usize = 0;
    while j < refs.bodies.len()
        invariant
            j <= refs.bodies@.len(),
            body_file_ids_v@ == body_file_ids(refs.bodies@).take(j as int),
        decreases refs.bodies@.len() - j,
    {
        body_file_ids_v.push(refs.bodies[j].id);
        proof {
            assert(body_file_ids(refs.bodies@).take(j + 1) =~= body_file_ids(refs.bodies@).take(
                j as int,
            ).push(refs.bodies@[j as int].id));
        }
        j = j + 1;
    }
    proof {
        assert(body_file_ids(refs.bodies@).take(j as int) =~= body_file_ids(refs.bodies@));
    }
    let br = register_file_ids(body_file_ids_v.as_slice(), refs.body_slots.as_slice(), RefKind::Body);
    proof {
        lemma_register(body_file_ids_v@, refs.body_slots@, RefKind::Body, table_result(br));
    }
    let body_ids = match br {
        Ok(m) => m,
        Err(e) => {
            return Err(e);
        },
    };
    let ghost bm = body_ids@;
    // Features, each resolved and then registered.
    let mut feature_ids: HashMap<FileId, u64> = HashMap::new();
    let mut links: Vec<FeatureLink> = Vec::new();
    let mut f: usize = 0;
    proof {
        assert(refs.features@.skip(0) =~= refs.features@);
        assert(feature_ids@ =~= Map::<FileId, u64>::empty());
    }
    while f < refs.features.len()
        invariant
            refs.schema_version == CURRENT_SCHEMA_VERSION,
            registry_error(refs.workplanes@, RefKind::Workplane) is None,
            wp == registry(refs.workplanes@, refs.workplane_slots@),
            sketches_result(refs.sketches@, wp, Map::empty()) == Ok::<Map<FileId, u64>, ProjectIoError>(sm),
            registry_error(body_file_ids(refs.bodies@), RefKind::Body) is None,
            bm == registry(body_file_ids(refs.bodies@), refs.body_slots@),
            bm == body_ids@,
            sm == sketch_ids@,
            tables@.len() == refs.sketches@.len(),
            forall|k: int|
                0 <= k < refs.sketches@.len() ==> holds_records(
                    (#[trigger] tables@[k])@,
                    refs.sketches@[k].constraints@,
                    registry(refs.sketches@[k].entities@, refs.sketches@[k].entity_slots@),
                ),
            f <= refs.features@.len(),
            features_result(refs.features@, bm, sm, Map::empty()) == features_result(
                refs.features@.skip(f as int),
                bm,
                sm,
                feature_ids@,
            ),
            links@.len() == f,
            forall|k: int|
                0 <= k < f ==> (#[trigger] links@[k])@ == feature_view(refs.features@[k], bm, sm),
        decreases refs.features@.len() - f,
    {
        let fr = &refs.features[f];
        proof {
            let rest = refs.features@.skip(f as int);
            assert(rest[0] == refs.features@[f as int]);
            assert(rest.drop_first() =~= refs.features@.skip(f + 1));
        }
        let link = match FeatureLink::from_file_refs(
            fr.kind,
            fr.name.clone(),
            fr.body,
            fr.source_sketch,
            &body_ids,
            &sketch_ids,
        ) {
            Ok(link) => link,
            Err(e) => {
                return Err(e);
            },
        };
        match insert_file_id(&mut feature_ids, fr.id, fr.slot, RefKind::Feature) {
            Ok(_) => {},
            Err(e) => {
                return Err(e);
            },
        }
        links.push(link);
        f = f + 1;
    }
    let ghost fm = feature_ids@;
    proof {
        assert(refs.features@.skip(f as int).len() == 0);
    }
    // The features of each body.
    let mut bodies: Vec<Body> = Vec::new();
    let mut b: usize = 0;
    proof {
        assert(refs.bodies@.skip(0) =~= refs.bodies@);
    }
    while b < refs.bodies.len()
        invariant
            refs.schema_version == CURRENT_SCHEMA_VERSION,
            registry_error(refs.workplanes@, RefKind::Workplane) is None,
            wp == registry(refs.workplanes@, refs.workplane_slots@),
            sketches_result(refs.sketches@, wp, Map::empty()) == Ok::<Map<FileId, u64>, ProjectIoError>(sm),
            registry_error(body_file_ids(refs.bodies@), RefKind::Body) is None,
            bm == registry(body_file_ids(refs.bodies@), refs.body_slots@),
            features_result(refs.features@, bm, sm, Map::empty()) == Ok::<Map<FileId, u64>, ProjectIoError>(fm),
            sm == sketch_ids@,
            tables@.len() == refs.sketches@.len(),
            forall|k: int|
                0 <= k < refs.sketches@.len() ==> holds_records(
                    (#[trigger] tables@[k])@,
                    refs.sketches@[k].constraints@,
                    registry(refs.sketches@[k].entities@, refs.sketches@[k].entity_slots@),
                ),
            links@.len() == refs.features@.len(),
            forall|k: int|
                0 <= k < refs.features@.len() ==> (#[trigger] links@[k])@ == feature_view(refs.features@[k], bm, sm),
            fm == feature_ids@,
            b <= refs.bodies@.len(),
            bodies_error(refs.bodies@, fm) == bodies_error(refs.bodies@.skip(b as int), fm),
            bodies@.len() == b,
            forall|k: int| 0 <= k < b ==> (#[trigger] bodies@[k])@ == body_view(refs.bodies@[k], fm),
        decreases refs.bodies@.len() - b,
    {
        let bf = &refs.bodies[b];
        proof {
            let rest = refs.bodies@.skip(b as int);
            assert(rest[0] == refs.bodies@[b as int]);
            assert(rest.drop_first() =~= refs.bodies@.skip(b + 1));
            lemma_refs_error(bf.features@, fm);
        }
        let mut body = Body::new(bf.name.clone());
        match body.attach_feature_refs(bf.features.as_slice(), &feature_ids) {
            Ok(()) => {},
            Err(e) => {
                return Err(e);
            },
        }
        proof {
            assert(Seq::<crate::ids::FeatureId>::empty() + resolved_features(bf.features@, fm)
                =~= resolved_features(bf.features@, fm));
        }
        bodies.push(body);
        b = b + 1;
    }
    proof {
        assert(refs.bodies@.skip(b as int).len() == 0);
    }
    // The active sketch.
    let active_sketch = match refs.active_sketch {
        None => None,
        Some(a) => match lookup_slot_id(&sketch_ids, a, RefKind::ActiveSketch) {
            Ok(slot) => Some(SketchId(slot)),
            Err(e) => {
                return Err(e);
            },
        },
    };
    Ok(LoadedRefs { sketch_constraints: tables, bodies, features: links, active_sketch })
}

} // verus!
