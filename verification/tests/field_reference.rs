use protodefc::field_reference::FieldReference;

#[test]
fn without_up() {
    let parsed = FieldReference::parse("some_field").unwrap();
    assert_eq!(parsed.up, 0);
    assert_eq!(parsed.name, "some_field");
}

#[test]
fn invalid_characters() {
    assert_eq!(FieldReference::parse("some-field"), None);
    assert_eq!(FieldReference::parse("some.field"), None);
}

#[test]
fn with_up() {
    let parsed = FieldReference::parse("../some_field").unwrap();
    assert_eq!(parsed.up, 1);
    assert_eq!(parsed.name, "some_field");

    let parsed = FieldReference::parse("../../../something").unwrap();
    assert_eq!(parsed.up, 3);
    assert_eq!(parsed.name, "something");
}

#[test]
fn empty_name_after_steps() {
    let parsed = FieldReference::parse("../../").unwrap();
    assert_eq!(parsed.up, 2);
    assert_eq!(parsed.name, "");
}

#[test]
fn step_in_the_middle_is_refused() {
    assert_eq!(FieldReference::parse("a/../b"), None);
    assert_eq!(FieldReference::parse("..a"), None);
}

#[test]
fn non_ascii_letters_are_refused() {
    assert_eq!(FieldReference::parse("caf\u{e9}"), None);
    let parsed = FieldReference::parse("Abc_09").unwrap();
    assert_eq!(parsed.name, "Abc_09");
}
