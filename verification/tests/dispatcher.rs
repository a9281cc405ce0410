use roncad::command::{CommandKind, SelectionEditMode};
use roncad::constraint::Constraint;
use roncad::dispatcher::{apply, Command};
use roncad::feature::FeatureKind;
use roncad::ids::{BodyId, ConstraintId, SketchEntityId, SketchId};
use roncad::project::ProjectModel;
use roncad::selection::{Selection, SelectionItem};
use roncad::solver::EntityKind;

fn item(sketch: u64, entity: u64) -> SelectionItem {
    SelectionItem::SketchEntity { sketch: SketchId(sketch), entity: SketchEntityId(entity) }
}

fn two_lines() -> (ProjectModel, Selection) {
    let mut p = ProjectModel::new_untitled();
    let mut s = Selection::new();
    let a = apply(&mut p, &mut s, &Command::AddLine { sketch: SketchId(4) });
    assert_eq!(a.new_entities, vec![SketchEntityId(5)]);
    assert_eq!(a.solve, Some(SketchId(4)));
    apply(&mut p, &mut s, &Command::AddLine { sketch: SketchId(4) });
    (p, s)
}

#[test]
fn adding_entities_gives_fresh_ids_and_solves_the_sketch() {
    let (p, _) = two_lines();
    assert_eq!(
        p.sketches[0].entities,
        vec![(SketchEntityId(5), EntityKind::Line), (SketchEntityId(6), EntityKind::Line)]
    );
    let mut p = p;
    let mut s = Selection::new();
    let a = apply(&mut p, &mut s, &Command::AddCircle { sketch: SketchId(99) });
    assert!(a.new_entities.is_empty());
    assert_eq!(a.solve, None);
}

#[test]
fn an_equal_constraint_is_not_added_twice() {
    let (mut p, mut s) = two_lines();
    let c = Constraint::Parallel { a: SketchEntityId(5), b: SketchEntityId(6) };
    apply(&mut p, &mut s, &Command::AddConstraint { sketch: SketchId(4), constraint: c });
    assert_eq!(p.sketches[0].constraints.len(), 1);
    apply(&mut p, &mut s, &Command::AddConstraint { sketch: SketchId(4), constraint: c });
    assert_eq!(p.sketches[0].constraints.len(), 1);
    let dangling = Constraint::Horizontal { entity: SketchEntityId(77) };
    apply(&mut p, &mut s, &Command::AddConstraint { sketch: SketchId(4), constraint: dangling });
    assert_eq!(p.sketches[0].constraints.len(), 1);
}

#[test]
fn deleting_an_entity_drops_its_constraints_and_selection() {
    let (mut p, mut s) = two_lines();
    let c = Constraint::Parallel { a: SketchEntityId(5), b: SketchEntityId(6) };
    apply(&mut p, &mut s, &Command::AddConstraint { sketch: SketchId(4), constraint: c });
    apply(&mut p, &mut s, &Command::SelectSingle { sketch: SketchId(4), entity: SketchEntityId(5) });
    assert!(s.contains(&item(4, 5)));
    let a = apply(&mut p, &mut s, &Command::DeleteEntity { sketch: SketchId(4), entity: SketchEntityId(5) });
    assert_eq!(a.solve, Some(SketchId(4)));
    assert_eq!(p.sketches[0].entities, vec![(SketchEntityId(6), EntityKind::Line)]);
    assert_eq!(p.sketches[0].constraints.len(), 0);
    assert!(s.is_empty());
}

#[test]
fn selecting_entities_ignores_missing_ones_and_toggles() {
    let (mut p, mut s) = two_lines();
    let ids = vec![SketchEntityId(5), SketchEntityId(42)];
    apply(&mut p, &mut s, &Command::SelectEntities { sketch: SketchId(4), entities: ids.clone(), mode: SelectionEditMode::Replace });
    assert_eq!(s.len(), 1);
    assert!(s.contains(&item(4, 5)));
    let both = vec![SketchEntityId(5), SketchEntityId(6)];
    let a = apply(&mut p, &mut s, &Command::SelectEntities { sketch: SketchId(4), entities: both, mode: SelectionEditMode::Toggle });
    assert_eq!(a.solve, None);
    assert_eq!(s.len(), 1);
    assert!(s.contains(&item(4, 6)));
    apply(&mut p, &mut s, &Command::SelectEntities { sketch: SketchId(9), entities: ids, mode: SelectionEditMode::Add });
    assert!(s.is_empty());
}

#[test]
fn selection_commands_leave_the_project_alone() {
    let (mut p, mut s) = two_lines();
    assert!(!CommandKind::ClearSelection.mutates_document());
    apply(&mut p, &mut s, &Command::SetActiveSketch(SketchId(77)));
    assert_eq!(p.active_sketch, Some(SketchId(4)));
    apply(&mut p, &mut s, &Command::ToggleSelection { sketch: SketchId(4), entity: SketchEntityId(6) });
    assert!(s.contains(&item(4, 6)));
    apply(&mut p, &mut s, &Command::ClearSelection);
    assert!(s.is_empty());
    assert_eq!(p.sketches[0].entities.len(), 2);
}

#[test]
fn sketches_are_created_activated_and_deleted() {
    let mut p = ProjectModel::new_untitled();
    let mut s = Selection::new();
    let a = apply(&mut p, &mut s, &Command::CreateSketch { name: String::from("Sketch 2"), workplane: 2 });
    assert_eq!(a.new_sketch, Some(SketchId(5)));
    assert_eq!(p.active_sketch, Some(SketchId(5)));
    let a = apply(&mut p, &mut s, &Command::CreateSketch { name: String::from("X"), workplane: 9 });
    assert_eq!(a.new_sketch, None);
    apply(&mut p, &mut s, &Command::DeleteSketch(SketchId(5)));
    assert_eq!(p.sketches.len(), 1);
    assert_eq!(p.active_sketch, Some(SketchId(4)));
}

#[test]
fn extrusion_makes_and_selects_a_body_and_delete_selection_removes_it() {
    let mut p = ProjectModel::new_untitled();
    let mut s = Selection::new();
    let a = apply(&mut p, &mut s, &Command::ExtrudeProfile { sketch: SketchId(4), usable: true, key: None });
    assert_eq!(a.new_body.map(|b| b.0), Some(BodyId(5)));
    assert_eq!(p.features[0].1.kind(), FeatureKind::Extrude);
    assert_eq!(p.features[0].1.name(), "Extrude 1");
    assert!(s.contains(&SelectionItem::Body(BodyId(5))));
    apply(&mut p, &mut s, &Command::DeleteSelection);
    assert!(p.bodies.is_empty());
    assert!(p.features.is_empty());
    assert!(s.is_empty());
    let a = apply(&mut p, &mut s, &Command::ExtrudeProfile { sketch: SketchId(4), usable: false, key: None });
    assert!(a.new_body.is_none());
}

#[test]
fn fillet_replaces_the_two_lines() {
    let (mut p, mut s) = two_lines();
    apply(&mut p, &mut s, &Command::SelectSingle { sketch: SketchId(4), entity: SketchEntityId(5) });
    let a = apply(
        &mut p,
        &mut s,
        &Command::ApplyLineFillet { sketch: SketchId(4), line_a: SketchEntityId(5), line_b: SketchEntityId(6), trims: Some(2) },
    );
    assert_eq!(a.new_entities, vec![SketchEntityId(7), SketchEntityId(8), SketchEntityId(9)]);
    assert_eq!(
        p.sketches[0].entities,
        vec![
            (SketchEntityId(7), EntityKind::Line),
            (SketchEntityId(8), EntityKind::Line),
            (SketchEntityId(9), EntityKind::Arc)
        ]
    );
    assert_eq!(s.len(), 3);
    apply(&mut p, &mut s, &Command::RemoveConstraint { sketch: SketchId(4), constraint: ConstraintId(1) });
    let a = apply(&mut p, &mut s, &Command::SetLineLength { sketch: SketchId(4), entity: SketchEntityId(7) });
    assert_eq!(a.edit, Some((SketchId(4), SketchEntityId(7))));
    let a = apply(&mut p, &mut s, &Command::SetCircleRadius { sketch: SketchId(4), entity: SketchEntityId(7) });
    assert_eq!(a.edit, None);
}

#[test]
fn selecting_entities_adds_and_removes_existing_ones() {
    let (mut p, mut s) = two_lines();
    let first = vec![SketchEntityId(5), SketchEntityId(40)];
    apply(&mut p, &mut s, &Command::SelectEntities { sketch: SketchId(4), entities: first, mode: SelectionEditMode::Add });
    assert_eq!(s.len(), 1);
    let second = vec![SketchEntityId(6)];
    apply(&mut p, &mut s, &Command::SelectEntities { sketch: SketchId(4), entities: second, mode: SelectionEditMode::Add });
    assert_eq!(s.len(), 2);
    let drop = vec![SketchEntityId(5), SketchEntityId(41)];
    apply(&mut p, &mut s, &Command::SelectEntities { sketch: SketchId(4), entities: drop, mode: SelectionEditMode::Remove });
    assert_eq!(s.len(), 1);
    assert!(s.contains(&item(4, 6)));
    assert!(!s.contains(&item(4, 40)));
}
