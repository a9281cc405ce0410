use roncad::command::SelectionEditMode;
use roncad::error::CoreError;
use roncad::event::AppEvent;
use roncad::hover::HoverTarget;
use roncad::ids::{BodyId, SketchEntityId, SketchId, ToolId};
use roncad::tools::phases::{circle_step_hint, line_step_hint, rectangle_step_hint, DimensionPhase};
use roncad::tools::preselection::PreselectionState;
use roncad::tools::select_tool::{select_commands, SelectTool, SelectionCommand};
use roncad::tools::snapping::{SnapAxis, SnapKind};
use roncad::tools::tool::{ActiveToolKind, Modifiers};

#[test]
fn tool_kinds_have_labels_hints_and_shortcuts() {
    assert_eq!(ActiveToolKind::Select.label(), "Select");
    assert_eq!(ActiveToolKind::Extrude.label(), "Extrude");
    assert_eq!(ActiveToolKind::Pan.hint(), "Drag to pan the viewport.");
    assert_eq!(ActiveToolKind::Line.shortcut(), Some("L"));
    assert_eq!(ActiveToolKind::Dimension.shortcut(), Some("D"));
    assert_eq!(ActiveToolKind::Pan.shortcut(), None);
    assert_eq!(ActiveToolKind::Extrude.shortcut(), None);
}

#[test]
fn snap_labels() {
    assert_eq!(SnapKind::Grid.label(), "Grid");
    assert_eq!(SnapKind::Horizontal.label(), "H Align");
    assert_eq!(SnapKind::Intersection.label(), "H/V Align");
    assert_ne!(SnapAxis::Horizontal, SnapAxis::Vertical);
}

#[test]
fn select_tool_is_named_select() {
    assert_eq!(SelectTool.id(), ToolId::new("select"));
    assert_eq!(ToolId::new("select").0, "select");
}

#[test]
fn plain_click_on_entity_toggles_selection() {
    let commands = select_commands(Some((SketchId(1), SketchEntityId(2))), Modifiers::default());
    assert_eq!(commands.len(), 1);
    assert_eq!(
        commands[0],
        SelectionCommand::ToggleSelection { sketch: SketchId(1), entity: SketchEntityId(2) }
    );
}

#[test]
fn shift_click_adds_to_selection() {
    let modifiers = Modifiers { shift: true, ..Modifiers::default() };
    let commands = select_commands(Some((SketchId(1), SketchEntityId(2))), modifiers);
    assert_eq!(
        commands,
        vec![SelectionCommand::SelectEntities {
            sketch: SketchId(1),
            entities: vec![SketchEntityId(2)],
            mode: SelectionEditMode::Add,
        }]
    );
}

#[test]
fn shift_alt_click_subtracts_from_selection() {
    let modifiers = Modifiers { shift: true, alt: true, ..Modifiers::default() };
    let commands = select_commands(Some((SketchId(1), SketchEntityId(2))), modifiers);
    assert_eq!(
        commands,
        vec![SelectionCommand::SelectEntities {
            sketch: SketchId(1),
            entities: vec![SketchEntityId(2)],
            mode: SelectionEditMode::Remove,
        }]
    );
}

#[test]
fn empty_click_clears_selection() {
    assert_eq!(select_commands(None, Modifiers::default()), vec![SelectionCommand::ClearSelection]);
    let shifted = Modifiers { shift: true, ..Modifiers::default() };
    assert!(select_commands(None, shifted).is_empty());
    let alt_only = Modifiers { alt: true, ..Modifiers::default() };
    assert!(select_commands(None, alt_only).is_empty());
    let ctrl = Modifiers { ctrl: true, ..Modifiers::default() };
    assert_eq!(select_commands(None, ctrl), vec![SelectionCommand::ClearSelection]);
}

#[test]
fn no_cursor_clears_state() {
    let mut state = PreselectionState::default();
    state.rebuild(SketchId(1), vec![SketchEntityId(3)]);
    state.clear();
    assert_eq!(state.stack_size(), 0);
    assert!(state.current().is_none());
}

#[test]
fn cycle_walks_the_overlap_stack() {
    let sketch_id = SketchId(1);
    let closer = SketchEntityId(10);
    let farther = SketchEntityId(11);
    let mut state = PreselectionState::default();
    state.rebuild(sketch_id, vec![closer, farther]);
    assert_eq!(state.current(), Some((sketch_id, closer)));
    state.cycle();
    assert_eq!(state.current(), Some((sketch_id, farther)));
    state.cycle();
    assert_eq!(state.current(), Some((sketch_id, closer)));
}

#[test]
fn cycle_is_no_op_on_empty_or_single_stack() {
    let mut state = PreselectionState::default();
    state.cycle();
    assert!(state.current().is_none());
    state.rebuild(SketchId(1), vec![SketchEntityId(4)]);
    let before = state.current();
    state.cycle();
    assert_eq!(state.current(), before);
    assert_eq!(state.index(), 0);
}

#[test]
fn preselection_notices_sketch_changes() {
    let mut state = PreselectionState::new();
    assert!(state.sketch_changed(SketchId(1)));
    state.rebuild(SketchId(1), vec![]);
    assert!(!state.sketch_changed(SketchId(1)));
    assert!(state.sketch_changed(SketchId(2)));
    assert!(state.current().is_none());
}

#[test]
fn core_errors_describe_themselves() {
    assert_eq!(CoreError::NotFound.message(), "entity not found");
    assert_eq!(
        CoreError::Invalid(String::from("radius")).message(),
        "invalid argument: radius"
    );
    assert_eq!(
        CoreError::StateViolation(String::from("no sketch")).message(),
        "state violation: no sketch"
    );
}

#[test]
fn events_compare_by_payload() {
    assert_eq!(AppEvent::FeatureRebuilt(SketchId(1)), AppEvent::FeatureRebuilt(SketchId(1)));
    assert_ne!(AppEvent::MeshInvalidated(BodyId(1)), AppEvent::MeshInvalidated(BodyId(2)));
    assert_ne!(AppEvent::DocumentDirtyChanged(true), AppEvent::SelectionChanged);
}


#[test]
fn dimension_clicks_anchor_lock_and_restart() {
    let first = DimensionPhase::Idle.after_click(false);
    assert_eq!(first, DimensionPhase::Anchored);
    assert_eq!(first.after_click(true), DimensionPhase::Anchored);
    let second = first.after_click(false);
    assert_eq!(second, DimensionPhase::Locked);
    assert_eq!(second.after_click(false), DimensionPhase::Anchored);
    assert_eq!(
        DimensionPhase::Locked.step_hint(),
        "Measurement locked. Click anywhere to start a new one. Esc clears."
    );
    assert_eq!(
        DimensionPhase::Idle.step_hint(),
        "Click first point to start measuring. Shortcut: D. Esc clears."
    );
}

#[test]
fn drawing_tool_hints_follow_their_phase() {
    assert_eq!(line_step_hint(false), "Click first point. Shortcut: L. Right-click or Esc clears.");
    assert_eq!(
        line_step_hint(true),
        "Type length, Tab, angle, Enter — or click next point. Shift locks axis."
    );
    assert_eq!(rectangle_step_hint(false), "Click first corner. Shortcut: R. Right-click or Esc cancels.");
    assert_eq!(
        circle_step_hint(true),
        "Type radius and press Enter — or click rim. Right-click or Esc cancels."
    );
}

#[test]
fn hover_targets_tell_entities_from_profiles() {
    let entity: HoverTarget<u32> = HoverTarget::sketch_entity(SketchId(1), SketchEntityId(2));
    let profile: HoverTarget<u32> = HoverTarget::profile(SketchId(3), 7);
    assert_eq!(entity.sketch_id(), SketchId(1));
    assert_eq!(profile.sketch_id(), SketchId(3));
    assert_eq!(entity.as_sketch_entity(), Some((SketchId(1), SketchEntityId(2))));
    assert_eq!(profile.as_sketch_entity(), None);
    assert_eq!(profile.as_profile(), Some(&7));
    assert_eq!(entity.as_profile(), None);
    assert!(entity.matches_sketch_entity(SketchId(1), SketchEntityId(2)));
    assert!(!entity.matches_sketch_entity(SketchId(1), SketchEntityId(3)));
    assert!(!profile.matches_sketch_entity(SketchId(3), SketchEntityId(2)));
}
