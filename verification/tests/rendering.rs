use roncad::ids::SketchEntityId;
use roncad::rendering::{connector_indices, edge_kind, EdgeKind, Projection};
use roncad::topology::{position_of_key, ProfileKey, ProfileSpanKey};

#[test]
fn projection_toggles_back_and_forth() {
    assert_eq!(Projection::Perspective.toggled(), Projection::Orthographic);
    assert_eq!(Projection::Orthographic.toggled(), Projection::Perspective);
    assert_eq!(Projection::Perspective.toggled().toggled(), Projection::Perspective);
}

#[test]
fn polygon_edges_are_crease_kind_and_circle_edges_border_kind() {
    assert_eq!(edge_kind(false), EdgeKind::Crease);
    assert_eq!(edge_kind(true), EdgeKind::Border);
}

#[test]
fn small_polygons_get_a_connector_at_every_point() {
    assert_eq!(connector_indices(true, 4), vec![0, 1, 2, 3]);
    assert_eq!(connector_indices(true, 12), (0..12).collect::<Vec<usize>>());
    assert_eq!(connector_indices(true, 0), Vec::<usize>::new());
}

#[test]
fn curved_and_large_outlines_get_at_most_eight_connectors() {
    assert_eq!(connector_indices(false, 64), vec![0, 8, 16, 24, 32, 40, 48, 56]);
    assert_eq!(connector_indices(true, 13), vec![0, 1, 2, 3, 4, 5, 6, 7]);
    assert_eq!(connector_indices(false, 5), vec![0, 1, 2, 3, 4]);
    assert_eq!(connector_indices(false, 20), vec![0, 2, 4, 6, 8, 10, 12, 14]);
    assert_eq!(connector_indices(false, 0), Vec::<usize>::new());
}

fn span(entity: u64, part: u32, a: i32, b: i32) -> ProfileSpanKey {
    ProfileSpanKey::from_quantized(SketchEntityId(entity), part, a, b)
}

#[test]
fn span_parameters_are_stored_low_end_first() {
    let s = span(3, 1, 900, -20);
    assert_eq!(s.start_param, -20);
    assert_eq!(s.end_param, 900);
    assert_eq!(s.part, 1);
    assert!(span(1, 0, 0, 5).precedes(&span(2, 0, 0, 1)));
    assert!(span(1, 0, 0, 5).precedes(&span(1, 1, 0, 1)));
    assert!(span(1, 0, 0, 5).precedes(&span(1, 0, 0, 6)));
    assert!(!span(1, 0, 0, 5).precedes(&span(1, 0, 0, 5)));
}

#[test]
fn profile_keys_ignore_order_and_repeats() {
    let a = ProfileKey::new(vec![span(5, 0, 0, 10), span(2, 3, 1, 2), span(5, 0, 0, 10), span(2, 1, 7, 8)]);
    let b = ProfileKey::new(vec![span(2, 1, 7, 8), span(5, 0, 0, 10), span(2, 3, 1, 2)]);
    assert_eq!(a.spans, vec![span(2, 1, 7, 8), span(2, 3, 1, 2), span(5, 0, 0, 10)]);
    assert!(a.same_as(&b));
    assert_eq!(a, b);
    let c = ProfileKey::new(vec![span(2, 1, 7, 8)]);
    assert!(!a.same_as(&c));
}

#[test]
fn profiles_are_found_by_key() {
    let keys = vec![
        ProfileKey::new(vec![span(1, 0, 0, 1)]),
        ProfileKey::new(vec![span(2, 0, 0, 1), span(3, 0, 0, 1)]),
    ];
    let wanted = ProfileKey::new(vec![span(3, 0, 1, 0), span(2, 0, 0, 1)]);
    assert_eq!(position_of_key(&keys, &wanted), Some(1));
    assert_eq!(position_of_key(&keys, &ProfileKey::new(vec![span(9, 0, 0, 1)])), None);
}
