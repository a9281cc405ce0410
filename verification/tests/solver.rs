use roncad::constraint::{Constraint, EntityPoint, FixedTarget};
use roncad::ids::SketchEntityId;
use roncad::solver::{
    inference_handles, count_diagnostics, diagnostic_kind, estimated_free_dofs, point_fits, solve_status, summarize,
    unconstrained_status, ConstraintDiagnosticKind, DofLayout, EntityKind, SolveStatus,
};

fn id(n: u64) -> SketchEntityId {
    SketchEntityId(n)
}

#[test]
fn dof_counts_per_entity_kind() {
    assert_eq!(EntityKind::Point.dof_count(), 2);
    assert_eq!(EntityKind::Line.dof_count(), 4);
    assert_eq!(EntityKind::Rectangle.dof_count(), 4);
    assert_eq!(EntityKind::Circle.dof_count(), 3);
    assert_eq!(EntityKind::Arc.dof_count(), 5);
}

#[test]
fn layout_packs_entities_back_to_back() {
    let layout = DofLayout::build(&[
        (id(7), EntityKind::Line),
        (id(3), EntityKind::Circle),
        (id(9), EntityKind::Arc),
        (id(1), EntityKind::Point),
    ]);
    assert_eq!(layout.total_dofs(), 14);
    assert_eq!(layout.range(id(7)), Some((0, EntityKind::Line)));
    assert_eq!(layout.range(id(3)), Some((4, EntityKind::Circle)));
    assert_eq!(layout.range(id(9)), Some((7, EntityKind::Arc)));
    assert_eq!(layout.range(id(1)), Some((12, EntityKind::Point)));
    assert_eq!(layout.range(id(2)), None);
    assert_eq!(DofLayout::build(&[]).total_dofs(), 0);
}

#[test]
fn points_fit_the_entities_that_have_them() {
    assert!(point_fits(EntityPoint::Point(id(1)), EntityKind::Point));
    assert!(point_fits(EntityPoint::Start(id(1)), EntityKind::Arc));
    assert!(point_fits(EntityPoint::End(id(1)), EntityKind::Line));
    assert!(point_fits(EntityPoint::Center(id(1)), EntityKind::Circle));
    assert!(point_fits(EntityPoint::CornerC(id(1)), EntityKind::Rectangle));
    assert!(!point_fits(EntityPoint::Start(id(1)), EntityKind::Circle));
    assert!(!point_fits(EntityPoint::Center(id(1)), EntityKind::Line));
    assert!(!point_fits(EntityPoint::CornerA(id(1)), EntityKind::Line));
    assert!(!point_fits(EntityPoint::Point(id(1)), EntityKind::Arc));
}

#[test]
fn invalid_constraint_is_reported_as_failed() {
    let layout = DofLayout::build(&[(id(1), EntityKind::Point)]);
    let horizontal = Constraint::Horizontal { entity: id(1) };
    assert!(!layout.evaluable(&horizontal));
    let kind = diagnostic_kind(layout.evaluable(&horizontal), false);
    assert_eq!(kind, Some(ConstraintDiagnosticKind::Failed));
    let summary = summarize(&[kind], layout.total_dofs(), 0, 0);
    assert_eq!(summary.status, SolveStatus::Failed);
    assert_eq!(summary.failed_count, 1);
    assert_eq!(summary.unsatisfied_count, 0);
    assert_eq!(summary.estimated_free_dofs, 2);
}

#[test]
fn evaluability_follows_entity_shapes() {
    let layout = DofLayout::build(&[
        (id(1), EntityKind::Line),
        (id(2), EntityKind::Line),
        (id(3), EntityKind::Circle),
        (id(4), EntityKind::Arc),
        (id(5), EntityKind::Point),
    ]);
    assert!(layout.evaluable(&Constraint::Parallel { a: id(1), b: id(2) }));
    assert!(!layout.evaluable(&Constraint::Parallel { a: id(1), b: id(3) }));
    assert!(layout.evaluable(&Constraint::Tangent { line: id(1), curve: id(4) }));
    assert!(!layout.evaluable(&Constraint::Tangent { line: id(3), curve: id(4) }));
    assert!(layout.evaluable(&Constraint::EqualRadius { a: id(3), b: id(4) }));
    assert!(layout.evaluable(&Constraint::Coincident {
        a: EntityPoint::End(id(1)),
        b: EntityPoint::Start(id(4)),
    }));
    assert!(!layout.evaluable(&Constraint::Coincident {
        a: EntityPoint::End(id(1)),
        b: EntityPoint::Start(id(3)),
    }));
    assert!(layout.evaluable(&Constraint::PointOnEntity { point: EntityPoint::Point(id(5)), entity: id(3) }));
    assert!(!layout.evaluable(&Constraint::PointOnEntity { point: EntityPoint::Point(id(5)), entity: id(5) }));
    assert!(layout.evaluable(&Constraint::FixPoint {
        point: EntityPoint::Point(id(5)),
        target: FixedTarget { x_bits: 0, y_bits: 0 },
    }));
    assert!(!layout.evaluable(&Constraint::Vertical { entity: id(42) }));
}

#[test]
fn solver_returns_underdefined_when_no_constraints() {
    assert_eq!(unconstrained_status(4), SolveStatus::Underdefined);
    assert_eq!(unconstrained_status(0), SolveStatus::Solved);
}

#[test]
fn status_precedence() {
    assert_eq!(solve_status(1, 1, 1), SolveStatus::Failed);
    assert_eq!(solve_status(0, 1, 1), SolveStatus::Conflicting);
    assert_eq!(solve_status(0, 0, 1), SolveStatus::Underdefined);
    assert_eq!(solve_status(0, 0, 0), SolveStatus::Solved);
}

#[test]
fn free_dofs_subtract_the_rank_when_measurable() {
    assert_eq!(estimated_free_dofs(4, 0, 1, 1), 3);
    assert_eq!(estimated_free_dofs(2, 0, 2, 5), 0);
    assert_eq!(estimated_free_dofs(4, 1, 1, 1), 4);
    assert_eq!(estimated_free_dofs(4, 0, 0, 3), 4);
}

#[test]
fn diagnostics_distinguish_failed_and_unsatisfied() {
    assert_eq!(diagnostic_kind(false, true), Some(ConstraintDiagnosticKind::Failed));
    assert_eq!(diagnostic_kind(true, true), Some(ConstraintDiagnosticKind::Unsatisfied));
    assert_eq!(diagnostic_kind(true, false), None);
    let kinds = [
        Some(ConstraintDiagnosticKind::Unsatisfied),
        None,
        Some(ConstraintDiagnosticKind::Unsatisfied),
    ];
    assert_eq!(count_diagnostics(&kinds, ConstraintDiagnosticKind::Unsatisfied), 2);
    assert_eq!(count_diagnostics(&kinds, ConstraintDiagnosticKind::Failed), 0);
}

#[test]
fn conflicting_constraints_are_summarised() {
    let kinds = [None, Some(ConstraintDiagnosticKind::Unsatisfied)];
    let summary = summarize(&kinds, 4, 2, 2);
    assert_eq!(summary.status, SolveStatus::Conflicting);
    assert_eq!(summary.constraint_count, 2);
    assert_eq!(summary.unsatisfied_count, 1);
    assert_eq!(summary.failed_count, 0);
    assert_eq!(summary.estimated_free_dofs, 2);
}

#[test]
fn fully_constrained_point_is_solved() {
    let summary = summarize(&[None], 2, 2, 2);
    assert_eq!(summary.status, SolveStatus::Solved);
    assert_eq!(summary.estimated_free_dofs, 0);
}

#[test]
fn inference_matches_ends_and_centers() {
    assert_eq!(
        inference_handles(id(4), EntityKind::Line),
        vec![EntityPoint::Start(id(4)), EntityPoint::End(id(4))]
    );
    assert_eq!(
        inference_handles(id(4), EntityKind::Arc),
        vec![EntityPoint::Start(id(4)), EntityPoint::End(id(4)), EntityPoint::Center(id(4))]
    );
    assert_eq!(inference_handles(id(4), EntityKind::Circle), vec![EntityPoint::Center(id(4))]);
    assert!(inference_handles(id(4), EntityKind::Rectangle).is_empty());
    assert!(inference_handles(id(4), EntityKind::Point).is_empty());
}

#[test]
fn layout_locates_points_lines_and_curves() {
    let layout = DofLayout::build(&[(id(1), EntityKind::Line), (id(2), EntityKind::Arc)]);
    assert!(layout.locates_point(EntityPoint::End(id(1))));
    assert!(layout.locates_point(EntityPoint::Center(id(2))));
    assert!(!layout.locates_point(EntityPoint::Center(id(1))));
    assert!(!layout.locates_point(EntityPoint::Start(id(3))));
    assert!(layout.locates_line(id(1)));
    assert!(!layout.locates_line(id(2)));
    assert!(layout.locates_curve(id(2)));
    assert!(!layout.locates_curve(id(1)));
}

#[test]
fn constraints_list_the_entities_they_reference() {
    let c = Constraint::PointOnEntity { point: EntityPoint::Center(id(2)), entity: id(5) };
    assert_eq!(c.referenced_entities(), vec![id(2), id(5)]);
    assert!(c.mentions(id(5)));
    assert!(!c.mentions(id(3)));
    assert_eq!(EntityPoint::CornerD(id(8)).entity(), id(8));
    let fix = Constraint::FixPoint { point: EntityPoint::Point(id(4)), target: FixedTarget { x_bits: 1, y_bits: 2 } };
    assert_eq!(fix.referenced_entities(), vec![id(4)]);
}

#[test]
fn points_and_curves_have_slots_inside_the_unknowns() {
    let layout = DofLayout::build(&[
        (id(1), EntityKind::Point),
        (id(2), EntityKind::Rectangle),
        (id(3), EntityKind::Arc),
        (id(4), EntityKind::Line),
    ]);
    assert_eq!(layout.total_dofs(), 15);
    assert_eq!(layout.point_slots(EntityPoint::Point(id(1))), Some((0, 1)));
    assert_eq!(layout.point_slots(EntityPoint::CornerB(id(2))), Some((4, 3)));
    assert_eq!(layout.point_slots(EntityPoint::CornerD(id(2))), Some((2, 5)));
    assert_eq!(layout.point_slots(EntityPoint::Center(id(3))), Some((6, 7)));
    assert_eq!(layout.point_slots(EntityPoint::Start(id(3))), None);
    assert_eq!(layout.point_slots(EntityPoint::End(id(4))), Some((13, 14)));
    assert_eq!(layout.line_slots(id(4)), Some(11));
    assert_eq!(layout.line_slots(id(3)), None);
    assert_eq!(layout.curve_slots(id(3)), Some(6));
    assert_eq!(layout.curve_slots(id(2)), None);
    let copy = layout.clone();
    assert_eq!(copy.range(id(3)), Some((6, EntityKind::Arc)));
}

#[test]
fn residual_counts_follow_constraint_kinds() {
    let layout = DofLayout::build(&[(id(1), EntityKind::Line), (id(2), EntityKind::Line)]);
    let coincident = Constraint::Coincident { a: EntityPoint::End(id(1)), b: EntityPoint::Start(id(2)) };
    let parallel = Constraint::Parallel { a: id(1), b: id(2) };
    let broken = Constraint::EqualRadius { a: id(1), b: id(2) };
    assert_eq!(layout.residual_count(&coincident), 2);
    assert_eq!(layout.residual_count(&parallel), 1);
    assert_eq!(layout.residual_count(&broken), 0);
    assert_eq!(layout.residual_total(&[coincident, parallel, broken]), 3);
    assert_eq!(layout.residual_total(&[broken]), 0);
}
