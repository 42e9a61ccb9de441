use protodefc::backend::common::formatter::Formatter;
use protodefc::context::compilation_unit::{
    CompilationUnit, CompilationUnitError, CompilationUnitNS, NSPath, NamedType, TypePath,
};

fn named(path: TypePath, id: u64) -> NamedType<()> {
    NamedType { path: path, typ: (), type_id: id }
}

#[test]
fn paths_display() {
    assert_eq!(NSPath::new().display_string(), "");
    assert_eq!(
        NSPath::with_path(vec!["a".to_owned(), "b".to_owned()]).display_string(),
        "::a::b::"
    );
    assert_eq!(TypePath::with_no_ns("u8".to_owned()).display_string(), "u8");
    assert_eq!(
        TypePath::with_ns(vec!["types".to_owned()], "pos".to_owned()).display_string(),
        "::types::pos"
    );
    assert!(TypePath::with_no_ns("x".to_owned()).same_as(&TypePath::with_no_ns("x".to_owned())));
    assert!(!NSPath::new().same_as(&NSPath::with_path(vec![])));
}

#[test]
fn added_types_are_found() {
    let mut ns: CompilationUnitNS<()> = CompilationUnitNS::new(NSPath::new());
    assert!(ns.add_type(named(TypePath::with_no_ns("u8".to_owned()), 1)).is_ok());
    assert!(ns.add_type(named(TypePath::with_no_ns("u16".to_owned()), 2)).is_ok());
    match ns.add_type(named(TypePath::with_no_ns("u8".to_owned()), 3)) {
        Err(CompilationUnitError::DuplicateType(p)) => assert_eq!(p.display_string(), "u8"),
        _ => panic!("expected a duplicate type"),
    }
    let mut other: CompilationUnitNS<()> =
        CompilationUnitNS::new(NSPath::with_path(vec!["types".to_owned()]));
    assert!(other
        .add_type(named(TypePath::with_ns(vec!["types".to_owned()], "pos".to_owned()), 7))
        .is_ok());

    let mut cu: CompilationUnit<()> = CompilationUnit::new();
    assert!(cu.add_namespace(ns).is_ok());
    assert!(cu.add_namespace(other).is_ok());
    assert_eq!(cu.get_type_id(&TypePath::with_no_ns("u16".to_owned())).unwrap(), 2);
    assert_eq!(
        cu.get_type_id(&TypePath::with_ns(vec!["types".to_owned()], "pos".to_owned())).unwrap(),
        7
    );
    assert!(matches!(
        cu.get_type_id(&TypePath::with_no_ns("u32".to_owned())),
        Err(CompilationUnitError::TypeNotFound(_))
    ));
    assert!(matches!(
        cu.get_type_id(&TypePath::with_ns(vec!["x".to_owned()], "y".to_owned())),
        Err(CompilationUnitError::NoNamespace(_))
    ));
    assert!(matches!(
        cu.add_namespace(CompilationUnitNS::new(NSPath::new())),
        Err(CompilationUnitError::DuplicateNamespace(_))
    ));
}

#[test]
fn each_type_visits_in_order_and_stops() {
    let mut ns: CompilationUnitNS<()> = CompilationUnitNS::new(NSPath::new());
    ns.add_type(named(TypePath::with_no_ns("a".to_owned()), 1)).unwrap();
    ns.add_type(named(TypePath::with_no_ns("b".to_owned()), 2)).unwrap();
    let mut cu: CompilationUnit<()> = CompilationUnit::new();
    cu.add_namespace(ns).unwrap();
    assert!(cu.each_type(|_t: &NamedType<()>| -> Result<(), u64> { Ok(()) }).is_ok());
    let res = cu.each_type(|t: &NamedType<()>| if t.type_id == 2 { Err(t.type_id) } else { Ok(()) });
    match res {
        Err(w) => assert_eq!(w.error, 2),
        Ok(()) => panic!("expected an error"),
    }
}

#[test]
fn formatter_pads_text_pushed_after_a_started_line() {
    let mut f = Formatter { out: String::new(), indent_count: 2, level: 0, line_started: false };
    f.push("a");
    f.line();
    f.indent_down();
    f.push("b");
    f.push("c");
    f.line();
    f.indent_up();
    assert_eq!(f.level, 0);
    f.push("d");
    assert_eq!(f.out, "a\nb  c\nd");
    let mut g = Formatter { out: String::new(), indent_count: 4, level: 1, line_started: true };
    g.push("x");
    assert_eq!(g.out, "    x");
}
