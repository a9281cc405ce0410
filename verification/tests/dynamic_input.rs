use roncad::tools::dynamic_input::{
    append_typed_char, visual_state, BufferShape, DynamicFieldVisualState, DynamicInputState,
};

#[test]
fn cycle_back_wraps_to_last_field() {
    let mut state = DynamicInputState::default();
    state.sync(3);

    state.cycle_back();
    assert_eq!(state.active_index(), 2);
    state.cycle_back();
    assert_eq!(state.active_index(), 1);
}

#[test]
fn append_typed_chars_accepts_single_decimal_and_leading_minus() {
    let mut state = DynamicInputState::default();
    state.sync(1);
    state.append_typed_chars(&['-', '1', '2', '.', '5', '.', '-']);

    assert_eq!(state.buffer_text(0), Some("-12.5"));
}

#[test]
fn append_typed_chars_ignores_non_numeric_input() {
    let mut state = DynamicInputState::default();
    state.sync(1);
    state.append_typed_chars(&['x', '3', ' ', '+', '4']);

    assert_eq!(state.buffer_text(0), Some("34"));
}

#[test]
fn backspace_active_removes_last_character() {
    let mut state = DynamicInputState::default();
    state.sync(1);
    let typed: Vec<char> = "12".chars().collect();
    state.append_typed_chars(&typed);

    assert!(state.backspace_active());
    assert_eq!(state.buffer_text(0), Some("1"));
}

#[test]
fn cycle_then_cycle_back_returns_to_the_same_field() {
    let mut state = DynamicInputState::default();
    state.sync(3);
    for _ in 0..3 {
        let start = state.active_index();
        state.cycle();
        state.cycle_back();
        assert_eq!(state.active_index(), start);
        state.cycle();
    }
    state.cycle();
    state.cycle();
    assert_eq!(state.active_index(), 2);
    state.cycle();
    assert_eq!(state.active_index(), 0);
}

#[test]
fn typing_a_digit_then_backspace_restores_the_buffer() {
    let mut state = DynamicInputState::default();
    state.sync(2);
    state.append_typed_chars(&['7', '.']);
    state.append_typed_chars(&['4']);
    assert_eq!(state.buffer_text(0), Some("7.4"));
    assert!(state.backspace_active());
    assert_eq!(state.buffer_text(0), Some("7."));
}

#[test]
fn sync_resets_only_when_the_field_count_changes() {
    let mut state = DynamicInputState::default();
    state.sync(2);
    state.append_typed_chars(&['5']);
    state.cycle();
    state.sync(2);
    assert_eq!(state.active_index(), 1);
    assert_eq!(state.buffer_text(0), Some("5"));
    state.sync(3);
    assert_eq!(state.active_index(), 0);
    assert_eq!(state.buffer_text(0), Some(""));
    assert_eq!(state.buffer_text(2), Some(""));
    assert_eq!(state.buffer_text(3), None);
}

#[test]
fn empty_and_text_queries() {
    let mut state = DynamicInputState::default();
    assert!(state.is_empty());
    assert!(!state.has_any_text());
    state.sync(2);
    assert!(state.is_empty());
    state.cycle();
    state.append_typed_chars(&['9']);
    assert!(!state.is_empty());
    assert!(state.has_any_text());
    assert!(state.clear_active_buffer());
    assert!(!state.clear_active_buffer());
    assert!(state.is_empty());
    state.clear();
    assert_eq!(state.buffer_text(0), None);
    assert_eq!(state.active_index(), 0);
}

#[test]
fn operations_without_fields_do_nothing() {
    let mut state = DynamicInputState::default();
    state.cycle();
    state.cycle_back();
    state.append_typed_chars(&['1']);
    assert!(!state.backspace_active());
    assert!(!state.clear_active_buffer());
    assert_eq!(state.active_index(), 0);
}

#[test]
fn append_typed_char_keeps_numbers_well_formed() {
    let mut buffer = String::new();
    append_typed_char(&mut buffer, '.');
    append_typed_char(&mut buffer, '-');
    append_typed_char(&mut buffer, '5');
    append_typed_char(&mut buffer, '.');
    append_typed_char(&mut buffer, 'e');
    assert_eq!(buffer, ".5");
    let mut minus = String::new();
    append_typed_char(&mut minus, '-');
    append_typed_char(&mut minus, '-');
    assert_eq!(minus, "-");
}

#[test]
fn buffer_shapes_classify_partial_numbers() {
    let mut state = DynamicInputState::default();
    state.sync(5);
    state.append_typed_chars(&['-']);
    state.cycle();
    state.append_typed_chars(&['.']);
    state.cycle();
    state.append_typed_chars(&['-', '.']);
    state.cycle();
    state.append_typed_chars(&['-', '.', '5']);
    assert_eq!(state.buffer_shape(0), Some(BufferShape::Incomplete));
    assert_eq!(state.buffer_shape(1), Some(BufferShape::Incomplete));
    assert_eq!(state.buffer_shape(2), Some(BufferShape::Incomplete));
    assert_eq!(state.buffer_shape(3), Some(BufferShape::Number));
    assert_eq!(state.buffer_shape(4), Some(BufferShape::Empty));
    assert_eq!(state.buffer_shape(5), None);
}

#[test]
fn visual_states_follow_shape_and_validity() {
    assert_eq!(visual_state(BufferShape::Empty, false, false), DynamicFieldVisualState::Preview);
    assert_eq!(
        visual_state(BufferShape::Incomplete, true, true),
        DynamicFieldVisualState::Incomplete
    );
    assert_eq!(
        visual_state(BufferShape::Number, false, true),
        DynamicFieldVisualState::InvalidParse
    );
    assert_eq!(visual_state(BufferShape::Number, true, true), DynamicFieldVisualState::Valid);
    assert_eq!(
        visual_state(BufferShape::Number, true, false),
        DynamicFieldVisualState::InvalidGeometry
    );
}

#[test]
fn field_views_show_preview_for_empty_buffers() {
    let mut state = DynamicInputState::default();
    state.sync(2);
    state.cycle();
    state.append_typed_chars(&['4', '5']);
    let first = state.field_view(0, "Length", "mm", String::from("5.000"), false, false);
    assert_eq!(first.text, "5.000");
    assert_eq!(first.label, "Length");
    assert_eq!(first.unit, "mm");
    assert!(!first.active);
    assert_eq!(first.state, DynamicFieldVisualState::Preview);
    let second = state.field_view(1, "Angle", "deg", String::from("53.1"), true, true);
    assert_eq!(second.text, "45");
    assert!(second.active);
    assert_eq!(second.state, DynamicFieldVisualState::Valid);
}

#[test]
fn commit_requires_every_buffer_empty_or_accepted() {
    let mut state = DynamicInputState::default();
    state.sync(2);
    assert!(state.accepts(&[false, false]));
    state.append_typed_chars(&['5']);
    assert!(state.accepts(&[true, false]));
    assert!(!state.accepts(&[false, true]));
    state.cycle();
    state.append_typed_chars(&['-']);
    assert!(!state.accepts(&[true, true]));
}

#[test]
fn clones_keep_buffers_and_active_field() {
    let mut state = DynamicInputState::default();
    state.sync(2);
    state.cycle();
    state.append_typed_chars(&['3']);
    let copy = state.clone();
    assert_eq!(copy.active_index(), 1);
    assert_eq!(copy.buffer_text(1), Some("3"));
}

#[test]
fn prepare_follows_the_tool_fields() {
    let mut state = DynamicInputState::default();
    assert!(!state.prepare(0));
    assert!(state.prepare(2));
    state.append_typed_chars(&['1']);
    assert!(state.prepare(2));
    assert_eq!(state.buffer_text(0), Some("1"));
    assert!(!state.prepare(0));
    assert_eq!(state.buffer_text(0), None);
}

#[test]
fn escape_clears_text_before_cancelling() {
    let mut state = DynamicInputState::default();
    state.sync(2);
    state.append_typed_chars(&['8']);
    assert!(state.escape());
    assert_eq!(state.buffer_text(0), Some(""));
    assert_eq!(state.buffer_text(1), Some(""));
    assert!(!state.escape());
    assert_eq!(state.buffer_text(0), None);
}

#[test]
fn clicks_commit_only_typed_values() {
    let mut state = DynamicInputState::default();
    state.sync(2);
    assert!(!state.click_commits(2));
    state.append_typed_chars(&['3']);
    assert!(state.click_commits(2));
    assert!(!state.click_commits(0));
}

#[test]
fn a_frame_of_keys_types_then_erases_then_moves() {
    let mut state = DynamicInputState::default();
    state.sync(3);
    state.apply_keys(&['1', '2'], true, false, true);
    assert_eq!(state.buffer_text(0), Some("1"));
    assert_eq!(state.active_index(), 1);
    state.apply_keys(&['5'], false, true, true);
    assert_eq!(state.buffer_text(1), Some("5"));
    assert_eq!(state.active_index(), 0);
    state.apply_keys(&[], false, false, false);
    assert_eq!(state.active_index(), 0);
}
