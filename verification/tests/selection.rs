use roncad::command::{batch_mutates_document, CommandKind, SelectionEditMode};
use roncad::constraint::{Constraint, EntityPoint};
use roncad::dispatch::{
    carry_fillet_selection, constraint_admissible, deletion_targets, forget_deleted,
    forget_entity, forget_sketch, select_bodies, select_body, select_entities, select_single,
    toggle_entity,
};
use roncad::ids::{BodyId, SketchEntityId, SketchId};
use roncad::selection::{Selection, SelectionItem};

fn entity_item(sketch: u64, entity: u64) -> SelectionItem {
    SelectionItem::SketchEntity { sketch: SketchId(sketch), entity: SketchEntityId(entity) }
}

#[test]
fn insert_remove_and_contains() {
    let mut selection = Selection::new();
    assert!(selection.is_empty());
    assert!(selection.insert(entity_item(1, 2)));
    assert!(!selection.insert(entity_item(1, 2)));
    assert_eq!(selection.len(), 1);
    assert!(selection.contains(&entity_item(1, 2)));
    assert!(!selection.contains(&entity_item(1, 3)));
    assert!(selection.remove(&entity_item(1, 2)));
    assert!(!selection.remove(&entity_item(1, 2)));
    assert!(selection.is_empty());
}

#[test]
fn iter_lists_items_in_selection_order() {
    let mut selection = Selection::default();
    selection.insert(SelectionItem::Body(BodyId(4)));
    selection.insert(SelectionItem::Sketch(SketchId(1)));
    selection.insert(SelectionItem::Body(BodyId(4)));
    assert_eq!(
        selection.iter(),
        vec![SelectionItem::Body(BodyId(4)), SelectionItem::Sketch(SketchId(1))]
    );
    selection.clear();
    assert_eq!(selection.len(), 0);
}

#[test]
fn retain_keeps_matching_items() {
    let mut selection = Selection::new();
    selection.insert(entity_item(1, 1));
    selection.insert(SelectionItem::Body(BodyId(2)));
    selection.insert(entity_item(1, 3));
    selection.retain(|item| matches!(item, SelectionItem::SketchEntity { .. }));
    assert_eq!(selection.iter(), vec![entity_item(1, 1), entity_item(1, 3)]);
}

#[test]
fn apply_edit_modes() {
    let mut selection = Selection::new();
    selection.insert(entity_item(1, 1));
    selection.apply_edit(&[entity_item(1, 2), entity_item(1, 3)], SelectionEditMode::Add);
    assert_eq!(selection.len(), 3);
    selection.apply_edit(&[entity_item(1, 1), entity_item(1, 9)], SelectionEditMode::Remove);
    assert_eq!(selection.iter(), vec![entity_item(1, 2), entity_item(1, 3)]);
    selection.apply_edit(&[entity_item(1, 3), entity_item(1, 4)], SelectionEditMode::Toggle);
    assert_eq!(selection.iter(), vec![entity_item(1, 2), entity_item(1, 4)]);
    selection.apply_edit(&[entity_item(1, 5)], SelectionEditMode::Replace);
    assert_eq!(selection.iter(), vec![entity_item(1, 5)]);
}

#[test]
fn toggling_the_same_items_twice_restores_the_selection() {
    let mut selection = Selection::new();
    selection.insert(entity_item(1, 1));
    selection.insert(SelectionItem::Body(BodyId(7)));
    let before = selection.clone();
    let picked = [entity_item(1, 1), entity_item(1, 2), entity_item(1, 2), SelectionItem::Sketch(SketchId(1))];
    selection.apply_edit(&picked, SelectionEditMode::Toggle);
    selection.apply_edit(&picked, SelectionEditMode::Toggle);
    assert_eq!(selection.len(), before.len());
    for item in before.iter() {
        assert!(selection.contains(&item));
    }
}

#[test]
fn adding_then_removing_new_items_restores_the_selection() {
    let mut selection = Selection::new();
    selection.insert(entity_item(1, 1));
    let picked = [entity_item(1, 2), entity_item(1, 3)];
    selection.apply_edit(&picked, SelectionEditMode::Add);
    selection.apply_edit(&picked, SelectionEditMode::Remove);
    assert_eq!(selection.iter(), vec![entity_item(1, 1)]);
}

#[test]
fn select_single_replaces_previous_selection() {
    let mut selection = Selection::default();
    let sketch = SketchId(1);
    let entity = SketchEntityId(10);
    selection.insert(SelectionItem::Sketch(sketch));
    select_single(&mut selection, sketch, entity, true);
    assert_eq!(selection.len(), 1);
    assert!(selection.contains(&SelectionItem::SketchEntity { sketch, entity }));
}

#[test]
fn select_single_of_missing_entity_clears() {
    let mut selection = Selection::default();
    selection.insert(SelectionItem::Sketch(SketchId(1)));
    select_single(&mut selection, SketchId(1), SketchEntityId(10), false);
    assert!(selection.is_empty());
}

#[test]
fn delete_selection_removes_selected_entities() {
    let mut selection = Selection::default();
    let sketch = SketchId(1);
    let entity = SketchEntityId(3);
    selection.insert(SelectionItem::SketchEntity { sketch, entity });
    let (entities, bodies) = deletion_targets(&selection);
    assert_eq!(entities, vec![(sketch, entity)]);
    assert!(bodies.is_empty());
    forget_deleted(&mut selection);
    assert!(selection.is_empty());
}

#[test]
fn delete_selection_keeps_selected_sketches() {
    let mut selection = Selection::default();
    selection.insert(SelectionItem::Sketch(SketchId(2)));
    selection.insert(SelectionItem::Body(BodyId(5)));
    selection.insert(entity_item(2, 8));
    let (entities, bodies) = deletion_targets(&selection);
    assert_eq!(entities, vec![(SketchId(2), SketchEntityId(8))]);
    assert_eq!(bodies, vec![BodyId(5)]);
    forget_deleted(&mut selection);
    assert_eq!(selection.iter(), vec![SelectionItem::Sketch(SketchId(2))]);
}

#[test]
fn toggle_entity_flips_existing_and_drops_missing() {
    let mut selection = Selection::new();
    toggle_entity(&mut selection, SketchId(1), SketchEntityId(2), true);
    assert!(selection.contains(&entity_item(1, 2)));
    toggle_entity(&mut selection, SketchId(1), SketchEntityId(2), true);
    assert!(selection.is_empty());
    toggle_entity(&mut selection, SketchId(1), SketchEntityId(2), false);
    assert!(selection.is_empty());
    selection.insert(entity_item(1, 2));
    toggle_entity(&mut selection, SketchId(1), SketchEntityId(2), false);
    assert!(selection.is_empty());
}

#[test]
fn select_entities_skips_missing_entities() {
    let mut selection = Selection::new();
    selection.insert(SelectionItem::Body(BodyId(1)));
    select_entities(
        &mut selection,
        SketchId(3),
        true,
        &[SketchEntityId(1), SketchEntityId(2)],
        &[true, false],
        SelectionEditMode::Add,
    );
    assert_eq!(selection.iter(), vec![SelectionItem::Body(BodyId(1)), entity_item(3, 1)]);
    select_entities(
        &mut selection,
        SketchId(3),
        true,
        &[SketchEntityId(4)],
        &[true],
        SelectionEditMode::Replace,
    );
    assert_eq!(selection.iter(), vec![entity_item(3, 4)]);
    select_entities(&mut selection, SketchId(9), false, &[], &[], SelectionEditMode::Add);
    assert!(selection.is_empty());
}

#[test]
fn select_bodies_and_single_body() {
    let mut selection = Selection::new();
    select_bodies(&mut selection, &[BodyId(1), BodyId(2)], &[true, true], SelectionEditMode::Add);
    assert_eq!(selection.len(), 2);
    select_bodies(&mut selection, &[BodyId(1), BodyId(3)], &[true, false], SelectionEditMode::Toggle);
    assert_eq!(selection.iter(), vec![SelectionItem::Body(BodyId(2))]);
    select_body(&mut selection, BodyId(8), true);
    assert_eq!(selection.iter(), vec![SelectionItem::Body(BodyId(8))]);
    select_body(&mut selection, BodyId(9), false);
    assert!(selection.is_empty());
}

#[test]
fn deleting_a_sketch_forgets_its_items() {
    let mut selection = Selection::new();
    selection.insert(SelectionItem::Sketch(SketchId(1)));
    selection.insert(entity_item(1, 4));
    selection.insert(entity_item(2, 4));
    selection.insert(SelectionItem::Body(BodyId(1)));
    forget_sketch(&mut selection, SketchId(1));
    assert_eq!(selection.iter(), vec![entity_item(2, 4), SelectionItem::Body(BodyId(1))]);
    forget_entity(&mut selection, SketchId(2), SketchEntityId(4));
    assert_eq!(selection.iter(), vec![SelectionItem::Body(BodyId(1))]);
}

#[test]
fn fillet_carries_selection_only_when_a_line_was_selected() {
    let mut selection = Selection::new();
    selection.insert(entity_item(1, 1));
    carry_fillet_selection(
        &mut selection,
        SketchId(1),
        SketchEntityId(1),
        SketchEntityId(2),
        &[SketchEntityId(1), SketchEntityId(2)],
        &[SketchEntityId(5), SketchEntityId(6), SketchEntityId(7)],
    );
    assert_eq!(selection.iter(), vec![entity_item(1, 5), entity_item(1, 6), entity_item(1, 7)]);

    let mut untouched = Selection::new();
    untouched.insert(entity_item(1, 9));
    carry_fillet_selection(
        &mut untouched,
        SketchId(1),
        SketchEntityId(1),
        SketchEntityId(2),
        &[SketchEntityId(1)],
        &[SketchEntityId(5)],
    );
    assert_eq!(untouched.iter(), vec![entity_item(1, 9)]);
}

#[test]
fn add_constraint_skips_duplicates() {
    let entity = SketchEntityId(1);
    let command = Constraint::Horizontal { entity };
    let mut constraints: Vec<Constraint> = Vec::new();
    for _ in 0..2 {
        if constraint_admissible(&[entity], &constraints, &command) {
            constraints.push(command);
        }
    }
    assert_eq!(constraints.len(), 1);
}

#[test]
fn constraints_on_missing_entities_are_refused() {
    let line = SketchEntityId(1);
    let c = Constraint::Coincident { a: EntityPoint::End(line), b: EntityPoint::Start(SketchEntityId(2)) };
    assert!(!constraint_admissible(&[line], &[], &c));
    assert!(constraint_admissible(&[line, SketchEntityId(2)], &[], &c));
}

#[test]
fn selection_commands_do_not_mark_document_dirty() {
    assert!(!CommandKind::ClearSelection.mutates_document());
    assert!(!CommandKind::NoOp.mutates_document());
}

#[test]
fn geometry_commands_mark_document_dirty_and_resolve() {
    assert!(CommandKind::AddLine.mutates_document());
    assert!(CommandKind::AddLine.resolves_sketch());
    assert!(CommandKind::DeleteSelection.mutates_document());
    assert!(!CommandKind::DeleteSelection.resolves_sketch());
    assert!(!CommandKind::SelectEntities.resolves_sketch());
    assert!(CommandKind::ExtrudeProfile.mutates_document());
    assert!(!CommandKind::ExtrudeProfile.resolves_sketch());
    assert!(!batch_mutates_document(&[CommandKind::SelectBody, CommandKind::ToggleSelection]));
    assert!(batch_mutates_document(&[CommandKind::SelectBody, CommandKind::DeleteEntity]));
    assert!(!batch_mutates_document(&[]));
}

#[test]
fn transactions_collect_commands_in_order() {
    let mut t: roncad::transaction::Transaction<CommandKind> =
        roncad::transaction::Transaction::new(String::from("Delete"));
    assert!(t.is_empty());
    t.push(CommandKind::DeleteSelection);
    t.push(CommandKind::ClearSelection);
    assert!(!t.is_empty());
    assert_eq!(t.label, "Delete");
    assert_eq!(t.commands, vec![CommandKind::DeleteSelection, CommandKind::ClearSelection]);
}
