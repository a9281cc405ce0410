use std::collections::HashMap;

use roncad::body::{body_to_file, Body};
use roncad::constraint::{Constraint, EntityPoint, FixedTarget};
use roncad::ids::{FeatureId, SketchEntityId};
use roncad::sketch::{constraint_records, SketchConstraints};
use roncad::schema::{
    ConstraintFileRecord, check_schema_version, file_ids, insert_file_id, lookup_file_id, lookup_slot_id,
    register_file_ids, ConstraintFile, EntityPointFile, ProjectIoError, RefKind,
    CURRENT_SCHEMA_VERSION,
};

#[test]
fn rejects_unsupported_schema_version() {
    let err = check_schema_version(CURRENT_SCHEMA_VERSION + 1).expect_err("unsupported schema");
    assert!(matches!(err, ProjectIoError::UnsupportedSchemaVersion { .. }));
    assert_eq!(
        err,
        ProjectIoError::UnsupportedSchemaVersion {
            found: CURRENT_SCHEMA_VERSION + 1,
            expected: CURRENT_SCHEMA_VERSION,
        }
    );
    assert_eq!(check_schema_version(CURRENT_SCHEMA_VERSION), Ok(()));
}

#[test]
fn file_ids_number_slots_from_one() {
    let ids = file_ids(&[40, 10, 30]);
    assert_eq!(ids.len(), 3);
    assert_eq!(ids[&40], 1);
    assert_eq!(ids[&10], 2);
    assert_eq!(ids[&30], 3);
    assert_eq!(lookup_file_id(&ids, 10, RefKind::Body), Ok(2));
    assert_eq!(
        lookup_file_id(&ids, 11, RefKind::Body),
        Err(ProjectIoError::DanglingReference { kind: RefKind::Body })
    );
}

#[test]
fn slot_lookup_and_duplicate_detection() {
    let mut ids: HashMap<u64, u64> = HashMap::new();
    assert_eq!(insert_file_id(&mut ids, 1, 100, RefKind::Sketch), Ok(100));
    assert_eq!(
        insert_file_id(&mut ids, 1, 200, RefKind::Sketch),
        Err(ProjectIoError::DuplicateId { kind: RefKind::Sketch, id: 1 })
    );
    assert_eq!(lookup_slot_id(&ids, 1, RefKind::Sketch), Ok(200));
    assert_eq!(
        lookup_slot_id(&ids, 2, RefKind::ActiveSketch),
        Err(ProjectIoError::MissingReference { kind: RefKind::ActiveSketch, id: 2 })
    );
}

#[test]
fn register_file_ids_stops_at_first_repeat() {
    let ids = register_file_ids(&[5, 6, 7], &[50, 60, 70], RefKind::Workplane).expect("distinct");
    assert_eq!(ids[&6], 60);
    assert_eq!(ids.len(), 3);
    assert_eq!(
        register_file_ids(&[5, 6, 6, 5], &[1, 2, 3, 4], RefKind::Workplane).unwrap_err(),
        ProjectIoError::DuplicateId { kind: RefKind::Workplane, id: 6 }
    );
}

#[test]
fn rejects_missing_constraint_entity() {
    let ids: HashMap<u64, u64> = HashMap::new();
    let err = ConstraintFile::Horizontal { entity: 99 }
        .into_constraint(&ids)
        .expect_err("missing entity");
    assert_eq!(err, ProjectIoError::MissingReference { kind: RefKind::SketchEntity, id: 99 });
    assert_eq!(RefKind::SketchEntity.label(), "sketch entity");
}

#[test]
fn constraints_round_trip_through_file_ids() {
    let slots: HashMap<u64, u64> = [(11u64, 1u64), (22, 2)].into_iter().collect();
    let back: HashMap<u64, u64> = [(1u64, 11u64), (2, 22)].into_iter().collect();
    let constraints = [
        Constraint::Coincident { a: EntityPoint::End(SketchEntityId(11)), b: EntityPoint::Start(SketchEntityId(22)) },
        Constraint::PointOnEntity { point: EntityPoint::Center(SketchEntityId(22)), entity: SketchEntityId(11) },
        Constraint::Horizontal { entity: SketchEntityId(11) },
        Constraint::Tangent { line: SketchEntityId(11), curve: SketchEntityId(22) },
        Constraint::EqualRadius { a: SketchEntityId(22), b: SketchEntityId(22) },
    ];
    for c in constraints {
        let file = ConstraintFile::from_constraint(&c, &slots).expect("representable");
        assert_eq!(file.into_constraint(&back), Ok(c));
    }
    assert_eq!(
        ConstraintFile::from_constraint(&Constraint::Vertical { entity: SketchEntityId(11) }, &slots),
        Ok(ConstraintFile::Vertical { entity: 1 })
    );
}

#[test]
fn points_without_a_file_form_are_refused() {
    let slots: HashMap<u64, u64> = [(11u64, 1u64)].into_iter().collect();
    assert_eq!(
        EntityPointFile::from_entity_point(EntityPoint::CornerA(SketchEntityId(11)), &slots),
        Err(ProjectIoError::Unrepresentable { kind: RefKind::EntityPoint })
    );
    let fix = Constraint::FixPoint {
        point: EntityPoint::Start(SketchEntityId(11)),
        target: FixedTarget { x_bits: 0, y_bits: 0 },
    };
    assert!(ConstraintFile::from_constraint(&fix, &slots).is_err());
    assert_eq!(
        EntityPointFile::from_entity_point(EntityPoint::Start(SketchEntityId(12)), &slots),
        Err(ProjectIoError::DanglingReference { kind: RefKind::SketchEntity })
    );
}

#[test]
fn bodies_name_features_by_file_id() {
    let mut body = Body::new(String::from("Body 1"));
    body.push_feature(FeatureId(70));
    body.push_feature(FeatureId(80));
    let ids: HashMap<u64, u64> = [(70u64, 2u64), (80, 1)].into_iter().collect();
    let file = body_to_file(5, &body, &ids).expect("features known");
    assert_eq!(file.id, 5);
    assert_eq!(file.name, "Body 1");
    assert_eq!(file.features, vec![2, 1]);
    let partial: HashMap<u64, u64> = [(70u64, 2u64)].into_iter().collect();
    assert_eq!(
        body_to_file(5, &body, &partial).unwrap_err(),
        ProjectIoError::DanglingReference { kind: RefKind::Feature }
    );
}

#[test]
fn bodies_resolve_feature_references() {
    let mut body = Body::new(String::from("Body 2"));
    let ids: HashMap<u64, u64> = [(1u64, 70u64), (2, 80)].into_iter().collect();
    assert_eq!(body.attach_feature_refs(&[2, 1], &ids), Ok(()));
    assert_eq!(body.features, vec![FeatureId(80), FeatureId(70)]);
    assert_eq!(body.feature_count(), 2);
    let mut other = Body::new(String::from("Body 3"));
    assert_eq!(
        other.attach_feature_refs(&[1, 9, 2], &ids),
        Err(ProjectIoError::MissingReference { kind: RefKind::Feature, id: 9 })
    );
    assert_eq!(other.features, vec![FeatureId(70)]);
}

#[test]
fn mesh_revision_advances() {
    let mut body = Body::new(String::from("Body 1"));
    let start = body.mesh_revision();
    body.bump_mesh_revision();
    assert_eq!(body.mesh_revision(), start + 1);
    assert_eq!(body.name, "Body 1");
}

#[test]
fn errors_describe_themselves() {
    assert_eq!(
        ProjectIoError::UnsupportedSchemaVersion { found: 2, expected: 1 }.message(),
        "unsupported project schema version 2; expected 1"
    );
    assert_eq!(
        ProjectIoError::DuplicateId { kind: RefKind::Workplane, id: 7 }.message(),
        "project file contains a duplicate workplane id 7"
    );
    assert_eq!(
        ProjectIoError::MissingReference { kind: RefKind::SketchEntity, id: 99 }.message(),
        "project file references missing sketch entity id 99"
    );
    assert_eq!(
        ProjectIoError::DanglingReference { kind: RefKind::SourceSketch }.message(),
        "project contains a dangling source sketch reference"
    );
    assert_eq!(
        ProjectIoError::Unrepresentable { kind: RefKind::EntityPoint }.message(),
        "project contains a entity point the file format cannot hold"
    );
}

#[test]
fn sketch_constraints_round_trip_through_records() {
    let mut table = SketchConstraints::new();
    table.add_constraint(Constraint::Horizontal { entity: SketchEntityId(11) });
    table.add_constraint(Constraint::Parallel { a: SketchEntityId(11), b: SketchEntityId(22) });
    let to_file: HashMap<u64, u64> = [(11u64, 1u64), (22, 2)].into_iter().collect();
    let records = table.to_records(&to_file).expect("entities known");
    assert_eq!(
        records,
        vec![
            ConstraintFileRecord { id: 1, constraint: ConstraintFile::Horizontal { entity: 1 } },
            ConstraintFileRecord { id: 2, constraint: ConstraintFile::Parallel { a: 1, b: 2 } },
        ]
    );
    let from_file: HashMap<u64, u64> = [(1u64, 11u64), (2, 22)].into_iter().collect();
    let (loaded, ids) = SketchConstraints::from_records(&records, &from_file).expect("loads");
    assert_eq!(loaded.len(), 2);
    assert_eq!(ids.len(), 2);
    let entries = loaded.iter_constraints();
    assert!(entries.contains(&(roncad::ids::ConstraintId(ids[&1]), Constraint::Horizontal { entity: SketchEntityId(11) })));
    assert!(entries.contains(&(
        roncad::ids::ConstraintId(ids[&2]),
        Constraint::Parallel { a: SketchEntityId(11), b: SketchEntityId(22) }
    )));
}

#[test]
fn constraint_records_stop_at_the_first_problem() {
    let from_file: HashMap<u64, u64> = [(1u64, 11u64)].into_iter().collect();
    let duplicate = [
        ConstraintFileRecord { id: 4, constraint: ConstraintFile::Horizontal { entity: 1 } },
        ConstraintFileRecord { id: 4, constraint: ConstraintFile::Vertical { entity: 1 } },
    ];
    assert_eq!(
        SketchConstraints::from_records(&duplicate, &from_file).err(),
        Some(ProjectIoError::DuplicateId { kind: RefKind::Constraint, id: 4 })
    );
    let missing = [
        ConstraintFileRecord { id: 4, constraint: ConstraintFile::Horizontal { entity: 1 } },
        ConstraintFileRecord { id: 5, constraint: ConstraintFile::Vertical { entity: 9 } },
        ConstraintFileRecord { id: 4, constraint: ConstraintFile::Vertical { entity: 1 } },
    ];
    assert_eq!(
        SketchConstraints::from_records(&missing, &from_file).err(),
        Some(ProjectIoError::MissingReference { kind: RefKind::SketchEntity, id: 9 })
    );
    let to_file: HashMap<u64, u64> = HashMap::new();
    let entries = [(roncad::ids::ConstraintId(3), Constraint::Horizontal { entity: SketchEntityId(7) })];
    assert_eq!(
        constraint_records(&entries, &to_file),
        Err(ProjectIoError::DanglingReference { kind: RefKind::SketchEntity })
    );
}

#[test]
fn file_points_name_entities_by_slot() {
    let back: HashMap<u64, u64> = [(1u64, 11u64)].into_iter().collect();
    assert_eq!(
        EntityPointFile::Center(1).into_entity_point(&back),
        Ok(EntityPoint::Center(SketchEntityId(11)))
    );
    assert_eq!(
        EntityPointFile::End(2).into_entity_point(&back),
        Err(ProjectIoError::MissingReference { kind: RefKind::SketchEntity, id: 2 })
    );
    assert_eq!(
        ProjectIoError::unsupported_schema(7),
        ProjectIoError::UnsupportedSchemaVersion { found: 7, expected: CURRENT_SCHEMA_VERSION }
    );
}
