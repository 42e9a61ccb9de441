use protodefc::frontend::protocol_spec::ast::parser::parse;
use protodefc::frontend::protocol_spec::to_ir::native_type::{
    block_to_args, NativeTypeError, ReferenceAccessTime,
};
use protodefc::frontend::protocol_spec::to_ir::type_spec::{
    items_to_type_spec, parse_binary_spec, parse_integer_spec, BinaryEncoding, BinarySpec,
    IntegerSize, IntegerSpec, IntegerSpecError, TypeSpecError, TypeSpecVariant,
};

fn first_items(src: &str) -> Vec<protodefc::frontend::protocol_spec::ast::Value> {
    let mut block = parse(src).unwrap();
    block.statements.remove(0).items
}

#[test]
fn integer_specs() {
    assert_eq!(
        parse_integer_spec("u8").unwrap(),
        IntegerSpec { signed: false, size: IntegerSize::AtLeast(8) }
    );
    assert_eq!(
        parse_integer_spec("i32").unwrap(),
        IntegerSpec { signed: true, size: IntegerSize::AtLeast(32) }
    );
    assert_eq!(
        parse_integer_spec("usize").unwrap(),
        IntegerSpec { signed: false, size: IntegerSize::IndexSize }
    );
    assert!(matches!(
        parse_integer_spec(""),
        Err(TypeSpecError::Integer(IntegerSpecError::TooShort))
    ));
    assert!(matches!(
        parse_integer_spec("f32"),
        Err(TypeSpecError::Integer(IntegerSpecError::NoSignLetter))
    ));
    assert!(matches!(
        parse_integer_spec("uabc"),
        Err(TypeSpecError::Integer(IntegerSpecError::InvalidPrecision))
    ));
}

#[test]
fn binary_specs() {
    assert_eq!(parse_binary_spec("raw").unwrap(), BinarySpec { encoding: BinaryEncoding::Raw });
    assert_eq!(parse_binary_spec("utf8").unwrap(), BinarySpec { encoding: BinaryEncoding::Utf8 });
    match parse_binary_spec("latin1") {
        Err(TypeSpecError::UnknownEncoding(s)) => assert_eq!(s, "latin1"),
        _ => panic!("expected an unknown encoding"),
    }
}

#[test]
fn type_spec_items() {
    assert_eq!(
        items_to_type_spec(&first_items("integer(\"u16\");")).unwrap(),
        TypeSpecVariant::Integer(IntegerSpec { signed: false, size: IntegerSize::AtLeast(16) })
    );
    assert_eq!(
        items_to_type_spec(&first_items("binary(\"utf8\");")).unwrap(),
        TypeSpecVariant::Binary(BinarySpec { encoding: BinaryEncoding::Utf8 })
    );
    assert_eq!(items_to_type_spec(&first_items("boolean;")).unwrap(), TypeSpecVariant::Boolean);
    assert_eq!(items_to_type_spec(&first_items("opaque;")).unwrap(), TypeSpecVariant::Opaque);
    assert!(matches!(items_to_type_spec(&[]), Err(TypeSpecError::ExpectedItem)));
    assert!(matches!(
        items_to_type_spec(&first_items("\"text\";")),
        Err(TypeSpecError::NotAnItem)
    ));
    assert!(matches!(
        items_to_type_spec(&first_items("::ns::integer;")),
        Err(TypeSpecError::NamespacedName)
    ));
    assert!(matches!(
        items_to_type_spec(&first_items("integer;")),
        Err(TypeSpecError::Validate(_))
    ));
    assert!(matches!(
        items_to_type_spec(&first_items("integer(u8);")),
        Err(TypeSpecError::IntegerArgumentNotString)
    ));
    assert!(matches!(
        items_to_type_spec(&first_items("binary(utf8);")),
        Err(TypeSpecError::BinaryArgumentNotString)
    ));
    match items_to_type_spec(&first_items("float;")) {
        Err(TypeSpecError::Unsupported(s)) => assert_eq!(s, "float"),
        _ => panic!("expected an unsupported type"),
    }
}

#[test]
fn native_type_arguments() {
    let src = "def_native(\"sized_string\") {\n    argument(\"size\", stage: \"read\") => integer(\"usize\");\n    argument(\"out\", stage: \"read_write\") => boolean;\n};";
    let block = parse(src).unwrap();
    let item = block.statements[0].items[0].item().unwrap();
    let args = block_to_args(&item.block).unwrap();
    assert_eq!(args.len(), 2);
    assert_eq!(args[0].name, "size");
    assert_eq!(args[0].access_time, ReferenceAccessTime::Read);
    assert_eq!(
        args[0].type_spec,
        TypeSpecVariant::Integer(IntegerSpec { signed: false, size: IntegerSize::IndexSize })
    );
    assert_eq!(args[1].name, "out");
    assert_eq!(args[1].access_time, ReferenceAccessTime::ReadWrite);
    assert_eq!(args[1].type_spec, TypeSpecVariant::Boolean);
}

#[test]
fn native_type_argument_errors() {
    let errors = |src: &str| {
        let block = parse(src).unwrap();
        let item = block.statements[0].items[0].item().unwrap();
        block_to_args(&item.block).unwrap_err()
    };
    assert!(matches!(errors("n {\"x\"; };"), NativeTypeError::RootNotItem));
    assert!(matches!(errors("n { ::a; };"), NativeTypeError::RootNamespaced));
    assert!(matches!(errors("n { field(\"x\"); };"), NativeTypeError::InvalidRootName));
    assert!(matches!(errors("n { argument(\"x\"); };"), NativeTypeError::Validate(_)));
    assert!(matches!(
        errors("n { argument(x, stage: \"read\") => boolean; };"),
        NativeTypeError::NameNotString
    ));
    assert!(matches!(
        errors("n { argument(\"x\", stage: read) => boolean; };"),
        NativeTypeError::StageNotString
    ));
    assert!(matches!(
        errors("n { argument(\"x\", stage: \"write\") => boolean; };"),
        NativeTypeError::BadStage
    ));
    assert!(matches!(
        errors("n { argument(\"x\", stage: \"read\") => float; };"),
        NativeTypeError::TypeSpec(_)
    ));
}
