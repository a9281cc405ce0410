use roncad::naming::{
    next_body_serial, next_feature_serial, parse_prefixed_serial, parse_trailing_serial,
    serial_name_string,
};
use roncad::text::{chars_of, decimal_string, parse_usize, string_of};

#[test]
fn prefixed_serials_need_prefix_space_and_number() {
    assert_eq!(parse_prefixed_serial("Body 3", "Body"), Some(3));
    assert_eq!(parse_prefixed_serial("Body 012", "Body"), Some(12));
    assert_eq!(parse_prefixed_serial("Body +4", "Body"), Some(4));
    assert_eq!(parse_prefixed_serial("Body", "Body"), None);
    assert_eq!(parse_prefixed_serial("Body3", "Body"), None);
    assert_eq!(parse_prefixed_serial("Body x", "Body"), None);
    assert_eq!(parse_prefixed_serial("Bodies 3", "Body"), None);
    assert_eq!(parse_prefixed_serial("Body -3", "Body"), None);
}

#[test]
fn trailing_serials_read_after_the_last_space() {
    assert_eq!(parse_trailing_serial("Extrude 12"), Some(12));
    assert_eq!(parse_trailing_serial("My Revolve 7"), Some(7));
    assert_eq!(parse_trailing_serial("Extrude"), None);
    assert_eq!(parse_trailing_serial("Extrude 7 "), None);
    assert_eq!(parse_trailing_serial("Extrude 1a"), None);
}

#[test]
fn next_serials_pass_the_largest_and_the_count() {
    let bodies = vec![String::from("Body 4"), String::from("Custom"), String::from("Body 2")];
    assert_eq!(next_body_serial(&bodies), 5);
    let renamed = vec![String::from("Left"), String::from("Right")];
    assert_eq!(next_body_serial(&renamed), 3);
    assert_eq!(next_body_serial(&[]), 1);
    let features = vec![String::from("Extrude 1"), String::from("Revolve 9")];
    assert_eq!(next_feature_serial(&features), 10);
    assert_eq!(next_feature_serial(&[String::from("Cut")]), 2);
}

#[test]
fn serial_names_read_back_as_their_serial() {
    let name = serial_name_string("Body", 42);
    assert_eq!(name, "Body 42");
    assert_eq!(parse_prefixed_serial(&name, "Body"), Some(42));
    let feature = serial_name_string("Extrude", 0);
    assert_eq!(feature, "Extrude 0");
    assert_eq!(parse_trailing_serial(&feature), Some(0));
}

#[test]
fn new_body_name_is_not_taken() {
    let bodies = vec![String::from("Body 1"), String::from("Body 2")];
    let next = serial_name_string("Body", next_body_serial(&bodies));
    assert_eq!(next, "Body 3");
    assert!(!bodies.contains(&next));
}

#[test]
fn decimal_text_helpers() {
    assert_eq!(decimal_string(0), "0");
    assert_eq!(decimal_string(1907), "1907");
    assert_eq!(decimal_string(u64::MAX), u64::MAX.to_string());
    assert_eq!(parse_usize(&chars_of("1907")), Some(1907));
    assert_eq!(parse_usize(&chars_of("")), None);
    assert_eq!(parse_usize(&chars_of("+")), None);
    assert_eq!(parse_usize(&chars_of("99999999999999999999999")), None);
    assert_eq!(parse_usize(&chars_of(&usize::MAX.to_string())), Some(usize::MAX));
    assert_eq!(string_of(&['a', 'b']), "ab");
}
