use roncad::constraint::Constraint;
use roncad::dispatcher::{apply, Command};
use roncad::ids::{BodyId, FeatureId, SketchEntityId, SketchId};
use roncad::loading::load_project_refs;
use roncad::project::ProjectModel;
use roncad::saving::project_to_refs;
use roncad::schema::{ConstraintFile, ProjectIoError, RefKind};
use roncad::selection::Selection;

fn sample() -> ProjectModel {
    let mut p = ProjectModel::new_untitled();
    let mut s = Selection::new();
    apply(&mut p, &mut s, &Command::AddLine { sketch: SketchId(4) });
    apply(&mut p, &mut s, &Command::AddLine { sketch: SketchId(4) });
    let c = Constraint::Parallel { a: SketchEntityId(5), b: SketchEntityId(6) };
    apply(&mut p, &mut s, &Command::AddConstraint { sketch: SketchId(4), constraint: c });
    apply(&mut p, &mut s, &Command::ExtrudeProfile { sketch: SketchId(4), usable: true, key: None });
    p
}

#[test]
fn written_references_number_every_object() {
    let refs = project_to_refs(&sample()).unwrap();
    assert_eq!(refs.schema_version, 1);
    assert_eq!(refs.workplanes, vec![1, 2, 3]);
    assert_eq!(refs.workplane_slots, vec![1, 2, 3]);
    assert_eq!(refs.sketches.len(), 1);
    let s = &refs.sketches[0];
    assert_eq!(s.id, 1);
    assert_eq!(s.slot, 4);
    assert_eq!(s.workplane, 1);
    assert_eq!(s.entities, vec![1, 2]);
    assert_eq!(s.entity_slots, vec![5, 6]);
    assert_eq!(s.constraints.len(), 1);
    assert_eq!(s.constraints[0].id, 1);
    assert!(matches!(s.constraints[0].constraint, ConstraintFile::Parallel { a: 1, b: 2 }));
    assert_eq!(refs.bodies.len(), 1);
    assert_eq!(refs.bodies[0].id, 1);
    assert_eq!(refs.bodies[0].name, "Body 1");
    assert_eq!(refs.bodies[0].features, vec![1]);
    assert_eq!(refs.body_slots, vec![7]);
    assert_eq!(refs.features.len(), 1);
    assert_eq!(refs.features[0].id, 1);
    assert_eq!(refs.features[0].slot, 8);
    assert_eq!(refs.features[0].body, 1);
    assert_eq!(refs.features[0].name, "Extrude 1");
    assert_eq!(refs.active_sketch, Some(1));
}

#[test]
fn written_references_load_back_to_the_same_slots() {
    let p = sample();
    let refs = project_to_refs(&p).unwrap();
    let loaded = load_project_refs(&refs).unwrap();
    assert_eq!(loaded.active_sketch, Some(SketchId(4)));
    assert_eq!(loaded.sketch_constraints.len(), 1);
    assert_eq!(loaded.sketch_constraints[0].len(), 1);
    assert!(loaded.sketch_constraints[0]
        .holds(&Constraint::Parallel { a: SketchEntityId(5), b: SketchEntityId(6) }));
    assert_eq!(loaded.bodies.len(), 1);
    assert_eq!(loaded.bodies[0].name, "Body 1");
    assert_eq!(loaded.bodies[0].features, vec![FeatureId(8)]);
    assert_eq!(loaded.features[0].body(), BodyId(7));
    assert_eq!(loaded.features[0].name(), "Extrude 1");
}

#[test]
fn a_sketch_on_a_missing_workplane_cannot_be_written() {
    let mut p = ProjectModel::new_untitled();
    p.sketches[0].workplane = 42;
    match project_to_refs(&p) {
        Err(ProjectIoError::DanglingReference { kind }) => assert_eq!(kind, RefKind::Workplane),
        _ => panic!("expected a dangling workplane"),
    }
}

#[test]
fn a_missing_active_sketch_cannot_be_written() {
    let mut p = ProjectModel::new_untitled();
    p.active_sketch = Some(SketchId(77));
    match project_to_refs(&p) {
        Err(ProjectIoError::DanglingReference { kind }) => assert_eq!(kind, RefKind::ActiveSketch),
        _ => panic!("expected a dangling active sketch"),
    }
}

#[test]
fn well_formedness_is_checked() {
    let p = sample();
    assert!(p.is_well_formed());
    let mut q = sample();
    q.sketches[0].entities[1].0 = SketchEntityId(5);
    assert!(!q.is_well_formed());
    let mut r = sample();
    r.next_id = 3;
    assert!(!r.is_well_formed());
}

#[test]
fn a_body_naming_a_missing_feature_cannot_be_written() {
    let mut p = sample();
    p.bodies[0].1.features.push(FeatureId(99));
    match project_to_refs(&p) {
        Err(ProjectIoError::DanglingReference { kind }) => assert_eq!(kind, RefKind::Feature),
        _ => panic!("expected a dangling feature"),
    }
}
