use roncad::body::BodyFile;
use roncad::constraint::Constraint;
use roncad::feature::FeatureKind;
use roncad::ids::{BodyId, SketchEntityId, SketchId};
use roncad::loading::{load_project_refs, FeatureRefs, ProjectRefs, SketchRefs};
use roncad::schema::{ConstraintFile, ConstraintFileRecord, ProjectIoError, RefKind};

fn sketch(id: u64, workplane: u64) -> SketchRefs {
    SketchRefs {
        id,
        slot: 100 + id,
        workplane,
        entities: vec![1, 2],
        entity_slots: vec![11, 12],
        dimensions: vec![],
        dimension_slots: vec![],
        constraints: vec![ConstraintFileRecord {
            id: 1,
            constraint: ConstraintFile::Parallel { a: 1, b: 2 },
        }],
    }
}

fn project() -> ProjectRefs {
    ProjectRefs {
        schema_version: 1,
        workplanes: vec![1],
        workplane_slots: vec![50],
        sketches: vec![sketch(1, 1)],
        bodies: vec![BodyFile { id: 1, name: String::from("Body"), features: vec![7] }],
        body_slots: vec![30],
        features: vec![FeatureRefs {
            id: 7,
            slot: 70,
            kind: FeatureKind::Extrude,
            name: String::from("Extrude 1"),
            body: 1,
            source_sketch: Some(1),
        }],
        active_sketch: Some(1),
    }
}

fn error_of(refs: &ProjectRefs) -> ProjectIoError {
    match load_project_refs(refs) {
        Ok(_) => panic!("expected an error"),
        Err(e) => e,
    }
}

#[test]
fn project_refs_resolve_to_slots() {
    let loaded = load_project_refs(&project()).unwrap();
    assert_eq!(loaded.active_sketch, Some(SketchId(101)));
    assert_eq!(loaded.sketch_constraints.len(), 1);
    assert_eq!(loaded.sketch_constraints[0].len(), 1);
    assert!(loaded.sketch_constraints[0]
        .holds(&Constraint::Parallel { a: SketchEntityId(11), b: SketchEntityId(12) }));
    assert_eq!(loaded.bodies[0].feature_count(), 1);
    assert_eq!(loaded.features[0].body(), BodyId(30));
    assert_eq!(loaded.features[0].source_sketch(), Some(SketchId(101)));
}

#[test]
fn project_refs_report_the_first_problem_in_file_order() {
    let mut p = project();
    p.schema_version = 2;
    p.workplanes = vec![1, 1];
    assert_eq!(
        error_of(&p),
        ProjectIoError::UnsupportedSchemaVersion { found: 2, expected: 1 }
    );

    let mut p = project();
    p.workplanes = vec![1, 1];
    p.workplane_slots = vec![50, 51];
    assert_eq!(error_of(&p), ProjectIoError::DuplicateId { kind: RefKind::Workplane, id: 1 });

    let mut p = project();
    p.sketches = vec![sketch(1, 9), sketch(1, 1)];
    assert_eq!(
        error_of(&p),
        ProjectIoError::MissingReference { kind: RefKind::Workplane, id: 9 }
    );

    let mut p = project();
    p.sketches = vec![sketch(1, 1), sketch(1, 1)];
    assert_eq!(error_of(&p), ProjectIoError::DuplicateId { kind: RefKind::Sketch, id: 1 });

    let mut p = project();
    p.sketches[0].constraints[0].constraint = ConstraintFile::Parallel { a: 1, b: 5 };
    p.bodies = vec![];
    p.body_slots = vec![];
    assert_eq!(
        error_of(&p),
        ProjectIoError::MissingReference { kind: RefKind::SketchEntity, id: 5 }
    );

    let mut p = project();
    p.features[0].body = 4;
    p.bodies[0].features = vec![8];
    assert_eq!(error_of(&p), ProjectIoError::MissingReference { kind: RefKind::Body, id: 4 });

    let mut p = project();
    p.bodies[0].features = vec![7, 8];
    p.active_sketch = Some(3);
    assert_eq!(error_of(&p), ProjectIoError::MissingReference { kind: RefKind::Feature, id: 8 });

    let mut p = project();
    p.active_sketch = Some(3);
    assert_eq!(
        error_of(&p),
        ProjectIoError::MissingReference { kind: RefKind::ActiveSketch, id: 3 }
    );
}

fn empty_refs() -> ProjectRefs {
    ProjectRefs {
        schema_version: 1,
        workplanes: vec![],
        workplane_slots: vec![],
        sketches: vec![],
        bodies: vec![],
        body_slots: vec![],
        features: vec![],
        active_sketch: None,
    }
}

#[test]
fn loader_rejects_unsupported_schema_version() {
    let mut p = empty_refs();
    p.schema_version = 2;
    assert!(matches!(error_of(&p), ProjectIoError::UnsupportedSchemaVersion { .. }));
}

#[test]
fn loader_rejects_missing_constraint_entity() {
    let mut p = empty_refs();
    p.active_sketch = Some(1);
    p.workplanes = vec![1];
    p.workplane_slots = vec![50];
    p.sketches = vec![SketchRefs {
        id: 1,
        slot: 101,
        workplane: 1,
        entities: vec![],
        entity_slots: vec![],
        dimensions: vec![],
        dimension_slots: vec![],
        constraints: vec![ConstraintFileRecord {
            id: 1,
            constraint: ConstraintFile::Horizontal { entity: 99 },
        }],
    }];
    assert_eq!(
        error_of(&p),
        ProjectIoError::MissingReference { kind: RefKind::SketchEntity, id: 99 }
    );
    assert!(load_project_refs(&empty_refs()).is_ok());
}
