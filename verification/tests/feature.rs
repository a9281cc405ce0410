use std::collections::HashMap;

use roncad::constraint::{Constraint, EntityPoint};
use roncad::feature::{bodies_linked_to, FeatureKind, FeatureLink};
use roncad::ids::{BodyId, ConstraintId, SketchEntityId, SketchId};
use roncad::naming::SerialCounters;
use roncad::sketch::{cascade_removals, SketchConstraints};
use roncad::tools::tool::ActiveToolKind;
use roncad::topology::{ProfileKey, ProfileSpanKey};

fn key(entity: u64) -> ProfileKey {
    ProfileKey::new(vec![ProfileSpanKey::from_quantized(SketchEntityId(entity), 0, 0, 100000)])
}

#[test]
fn new_features_start_valid_without_a_key() {
    let feature = FeatureLink::new(FeatureKind::Extrude, String::from("Extrude 1"), BodyId(3), Some(SketchId(1)));
    assert_eq!(feature.kind_name(), "Extrude");
    assert_eq!(feature.name(), "Extrude 1");
    assert_eq!(feature.body(), BodyId(3));
    assert_eq!(feature.source_sketch(), Some(SketchId(1)));
    assert!(feature.profile_key().is_none());
    assert!(feature.is_profile_valid());
    assert_eq!(FeatureKind::Revolve.kind_name(), "Revolve");
}

#[test]
fn attaching_a_key_sets_validity() {
    let mut linked = FeatureLink::new(FeatureKind::Revolve, String::from("Revolve 2"), BodyId(1), Some(SketchId(1)));
    linked.attach_profile_key(None);
    assert!(!linked.is_profile_valid());
    linked.attach_profile_key(Some(key(4)));
    assert!(linked.is_profile_valid());
    assert_eq!(linked.profile_key(), Some(&key(4)));
    let mut unlinked = FeatureLink::new(FeatureKind::Extrude, String::from("Extrude 3"), BodyId(1), None);
    unlinked.attach_profile_key(None);
    assert!(unlinked.is_profile_valid());
}

#[test]
fn rebuild_finds_the_profile_by_key() {
    let mut feature = FeatureLink::new(FeatureKind::Extrude, String::from("Extrude 1"), BodyId(1), Some(SketchId(1)));
    feature.attach_profile_key(Some(key(7)));
    assert_eq!(feature.rebuild_from_keys(&[key(3), key(7)]), Some(1));
    assert!(feature.is_profile_valid());
    assert_eq!(feature.rebuild_from_keys(&[key(3)]), None);
    assert!(!feature.is_profile_valid());
    let mut keyless = FeatureLink::new(FeatureKind::Extrude, String::from("Extrude 2"), BodyId(1), None);
    assert_eq!(keyless.rebuild_from_keys(&[key(7)]), None);
    assert!(!keyless.is_profile_valid());
}

#[test]
fn deleting_the_source_sketch_unlinks_features() {
    let mut feature = FeatureLink::new(FeatureKind::Extrude, String::from("Extrude 1"), BodyId(1), Some(SketchId(1)));
    feature.attach_profile_key(None);
    feature.clear_source_sketch_if_matches(SketchId(2));
    assert_eq!(feature.source_sketch(), Some(SketchId(1)));
    assert!(!feature.is_profile_valid());
    feature.clear_source_sketch_if_matches(SketchId(1));
    assert_eq!(feature.source_sketch(), None);
    assert!(feature.profile_key().is_none());
    assert!(feature.is_profile_valid());
}

#[test]
fn bodies_linked_to_a_sketch_are_listed_once() {
    let features = [
        (BodyId(1), Some(SketchId(5))),
        (BodyId(2), None),
        (BodyId(1), Some(SketchId(5))),
        (BodyId(3), Some(SketchId(6))),
        (BodyId(4), Some(SketchId(5))),
    ];
    assert_eq!(bodies_linked_to(&features, SketchId(5)), vec![BodyId(1), BodyId(4)]);
    assert_eq!(bodies_linked_to(&features, SketchId(7)), Vec::<BodyId>::new());
}

#[test]
fn serial_counters_name_bodies_and_features() {
    let mut counters = SerialCounters::new();
    assert_eq!(counters.allocate_body_name(), "Body 1");
    assert_eq!(counters.allocate_feature_name("Extrude"), "Extrude 1");
    assert_eq!(counters.allocate_feature_name("Revolve"), "Revolve 2");
    assert_eq!(counters.allocate_body_name(), "Body 2");
    let loaded = SerialCounters::from_names(
        &[String::from("Body 7"), String::from("Shell")],
        &[String::from("Extrude 3")],
    );
    assert_eq!(loaded.next_body_serial, 8);
    assert_eq!(loaded.next_feature_serial, 4);
}

#[test]
fn entity_removal_cascades_its_constraints() {
    let line = SketchEntityId(1);
    let other = SketchEntityId(2);
    let constraints = [
        (ConstraintId(10), Constraint::Horizontal { entity: line }),
        (ConstraintId(11), Constraint::Vertical { entity: other }),
        (ConstraintId(12), Constraint::Coincident { a: EntityPoint::End(other), b: EntityPoint::Start(line) }),
    ];
    assert_eq!(cascade_removals(&constraints, line), vec![ConstraintId(10), ConstraintId(12)]);
    assert_eq!(cascade_removals(&constraints, SketchEntityId(3)), Vec::<ConstraintId>::new());
}

#[test]
fn drawing_tools_snap_and_others_do_not() {
    assert!(ActiveToolKind::Line.uses_snap());
    assert!(ActiveToolKind::Dimension.uses_snap());
    assert!(!ActiveToolKind::Select.uses_snap());
    assert!(!ActiveToolKind::Extrude.uses_snap());
}


#[test]
fn constraint_table_adds_removes_and_cascades() {
    let line = SketchEntityId(1);
    let arc = SketchEntityId(2);
    let mut table = SketchConstraints::new();
    assert_eq!(table.len(), 0);
    let h = table.add_constraint(Constraint::Horizontal { entity: line });
    let t = table.add_constraint(Constraint::Tangent { line, curve: arc });
    let r = table.add_constraint(Constraint::EqualRadius { a: arc, b: arc });
    assert_ne!(h, t);
    assert_eq!(table.len(), 3);
    assert!(table.holds(&Constraint::Horizontal { entity: line }));
    assert_eq!(table.remove_constraint(h), Some(Constraint::Horizontal { entity: line }));
    assert_eq!(table.remove_constraint(h), None);
    assert!(!table.holds(&Constraint::Horizontal { entity: line }));
    table.remove_entity_constraints(line);
    let remaining = table.iter_constraints();
    assert_eq!(remaining, vec![(r, Constraint::EqualRadius { a: arc, b: arc })]);
}

#[test]
fn add_constraint_skips_duplicates_in_the_table() {
    let entity = SketchEntityId(1);
    let mut table = SketchConstraints::new();
    let first = table.add_if_admissible(&[entity], Constraint::Horizontal { entity });
    let second = table.add_if_admissible(&[entity], Constraint::Horizontal { entity });
    assert!(first.is_some());
    assert!(second.is_none());
    assert_eq!(table.len(), 1);
    assert!(table.add_if_admissible(&[], Constraint::Vertical { entity }).is_none());
    assert_eq!(table.len(), 1);
}

#[test]
fn features_resolve_their_file_references() {
    let bodies: HashMap<u64, u64> = [(1u64, 100u64)].into_iter().collect();
    let sketches: HashMap<u64, u64> = [(2u64, 200u64)].into_iter().collect();
    let feature = FeatureLink::from_file_refs(
        FeatureKind::Extrude,
        String::from("Extrude 1"),
        1,
        Some(2),
        &bodies,
        &sketches,
    )
    .expect("references known");
    assert_eq!(feature.body(), BodyId(100));
    assert_eq!(feature.source_sketch(), Some(SketchId(200)));
    assert!(feature.is_profile_valid());
    assert_eq!(
        FeatureLink::from_file_refs(FeatureKind::Revolve, String::from("R"), 9, Some(7), &bodies, &sketches).err(),
        Some(roncad::schema::ProjectIoError::MissingReference { kind: roncad::schema::RefKind::Body, id: 9 })
    );
    assert_eq!(
        FeatureLink::from_file_refs(FeatureKind::Revolve, String::from("R"), 1, Some(7), &bodies, &sketches).err(),
        Some(roncad::schema::ProjectIoError::MissingReference { kind: roncad::schema::RefKind::SourceSketch, id: 7 })
    );
    let to_bodies: HashMap<u64, u64> = [(100u64, 1u64)].into_iter().collect();
    let to_sketches: HashMap<u64, u64> = HashMap::new();
    assert_eq!(
        feature.file_refs(&to_bodies, &to_sketches),
        Err(roncad::schema::ProjectIoError::DanglingReference { kind: roncad::schema::RefKind::SourceSketch })
    );
    let to_sketches: HashMap<u64, u64> = [(200u64, 2u64)].into_iter().collect();
    assert_eq!(feature.file_refs(&to_bodies, &to_sketches), Ok((1, Some(2))));
}
