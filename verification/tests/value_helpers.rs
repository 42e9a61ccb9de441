use protodefc::frontend::protocol_spec::ast::value_helpers::ValidateError;
use protodefc::frontend::protocol_spec::ast::{Block, Ident, Item, ItemArg, Value};

fn test_arg(tag: Option<String>) -> ItemArg {
    ItemArg {
        tag: tag,
        value: Value::String {
            string: "".into(),
            is_block: false,
        },
    }
}

fn proper() -> Item {
    Item {
        name: Ident::Simple("".into()),
        args: vec![
            test_arg(None),
            test_arg(None),
            test_arg(None),
            test_arg(Some("foo".into())),
            test_arg(Some("bar".into())),
        ],
        block: Block::empty(),
    }
}

#[test]
fn tag_validators() {
    let proper = proper();

    let improper = Item {
        name: Ident::Simple("".into()),
        args: vec![
            test_arg(None),
            test_arg(Some("foo".into())),
            test_arg(None),
            test_arg(Some("bar".into())),
        ],
        block: Block::empty(),
    };

    assert!(proper.validate(3, &["foo", "bar", "baz"], &["foo"]).is_ok());
    assert!(proper.validate(3, &["foo", "baz"], &["foo"]).is_err());
    assert!(proper.validate(3, &["foo", "bar", "baz"], &["baz"]).is_err());
    assert!(proper.validate(2, &["foo", "bar", "baz"], &["foo"]).is_err());
    assert!(improper.validate(1, &["foo", "bar"], &["foo"]).is_err());
    assert!(improper.validate(2, &["foo", "bar"], &["foo"]).is_err());
}

#[test]
fn tag_getters() {
    let proper = proper();

    assert!(proper.get_num(1).is_some());
    assert!(proper.get_num(4).is_some());
    assert!(proper.get_num(8).is_none());
    assert!(proper.get_tagged("foo").is_some());
    assert!(proper.get_tagged("baz").is_none());
}

#[test]
fn validate_reports_each_error() {
    let proper = proper();
    match proper.validate(2, &["foo", "bar"], &[]) {
        Err(ValidateError::WrongUntaggedCount { expected, found }) => {
            assert_eq!(expected, 2);
            assert_eq!(found, 3);
        }
        other => panic!("{:?}", other),
    }
    match proper.validate(3, &["foo"], &[]) {
        Err(ValidateError::TagNotAccepted { tag }) => assert_eq!(tag, "bar"),
        other => panic!("{:?}", other),
    }
    match proper.validate(3, &["foo", "bar"], &["foo", "baz"]) {
        Err(ValidateError::MissingRequiredTags { found }) => assert_eq!(found, vec!["foo".to_owned()]),
        other => panic!("{:?}", other),
    }
    let twice = Item {
        name: Ident::Simple("x".into()),
        args: vec![test_arg(Some("foo".into())), test_arg(Some("foo".into()))],
        block: Block::empty(),
    };
    match twice.validate(0, &["foo"], &["foo"]) {
        Err(ValidateError::DuplicateTag { tag }) => assert_eq!(tag, "foo"),
        other => panic!("{:?}", other),
    }
    assert!(twice.validate(0, &["foo"], &[]).is_ok());
    let late = Item {
        name: Ident::Simple("x".into()),
        args: vec![test_arg(Some("foo".into())), test_arg(None)],
        block: Block::empty(),
    };
    assert!(matches!(late.validate(1, &["foo"], &[]), Err(ValidateError::UntaggedNotLeading)));
}

#[test]
fn tagged_lookup_finds_first() {
    let item = Item {
        name: Ident::Simple("x".into()),
        args: vec![
            ItemArg::with_tag("t".into(), Value::String { string: "one".into(), is_block: false }),
            ItemArg::with_tag("t".into(), Value::String { string: "two".into(), is_block: false }),
        ],
        block: Block::empty(),
    };
    assert_eq!(item.tagged_arg("t").unwrap().string(), Some("one"));
    assert!(item.arg(1).is_some());
    assert!(!item.is_name_only());
    let bare = Item { name: Ident::RootNs(vec!["a".into()]), args: vec![], block: Block::empty() };
    assert!(bare.is_name_only());
    assert_eq!(bare.name.simple_str(), None);
}

#[test]
fn field_reference_of_values() {
    let v = Value::String { string: "../len".into(), is_block: false };
    let r = v.field_reference().unwrap();
    assert_eq!(r.up, 1);
    assert_eq!(r.name, "len");
    let bad = Value::String { string: "a.b".into(), is_block: false };
    assert!(bad.field_reference().is_none());
    let arg: ItemArg = Value::String { string: "x".into(), is_block: false }.into();
    assert!(arg.tag.is_none());
}

#[test]
fn validated_arguments_are_found() {
    let item = proper();
    assert!(item.validate(3, &["foo", "bar"], &["bar", "foo"]).is_ok());
    assert!(item.get_tagged("foo").is_some());
    assert!(item.get_tagged("bar").is_some());
    assert!(item.get_num(0).is_some());
    assert!(item.get_num(2).is_some());
    assert!(item.validate(3, &["foo", "bar"], &["foo", "foo"]).is_err());
}
