use protodefc::frontend::protocol_spec::ast::parser::{parse, parse_ident};
use protodefc::frontend::protocol_spec::ast::{Ident, Value};

#[test]
fn parse_statement() {
    let a = "some => thing(\"testing\", woo: \"hoo\") => else {} => woo(\"\"\"woo\nhoo\"\"\") {};";
    let block = parse(a).unwrap();
    assert_eq!(block.statements.len(), 1);
    let items = &block.statements[0].items;
    assert_eq!(items.len(), 4);
    match &items[1] {
        Value::Item(item) => {
            assert_eq!(item.name.simple_str(), Some("thing"));
            assert_eq!(item.args.len(), 2);
            assert_eq!(item.args[0].tag, None);
            assert_eq!(item.args[0].value.string(), Some("testing"));
            assert_eq!(item.args[1].tag.as_deref(), Some("woo"));
            assert_eq!(item.args[1].value.string(), Some("hoo"));
        }
        _ => panic!("expected an item"),
    }
    match &items[3] {
        Value::Item(item) => {
            match &item.args[0].value {
                Value::String { string, is_block } => {
                    assert_eq!(string, "woo\nhoo");
                    assert!(*is_block);
                }
                _ => panic!("expected a string"),
            }
        }
        _ => panic!("expected an item"),
    }
}

#[test]
fn parse_root() {
    let a = r#"

@doc "woohoo"
namespace("thing") {

    def_type("something") {
        shadow_field("arr_len") => u8;
        field("test") => array("arr_len") => u8;
    };

};
"#;
    let block = parse(a).unwrap();
    assert_eq!(block.statements.len(), 1);
    let stmt = &block.statements[0];
    assert_eq!(stmt.attributes.len(), 1);
    assert_eq!(stmt.attributes[0].0, "doc");
    assert_eq!(stmt.attribute("doc").unwrap()[0].string(), Some("woohoo"));
    let ns = stmt.items[0].item().unwrap();
    assert_eq!(ns.name.simple_str(), Some("namespace"));
    let inner = &ns.block.statements[0].items[0].item().unwrap().block;
    assert_eq!(inner.statements.len(), 2);
    assert_eq!(inner.statements[1].items.len(), 3);
}

#[test]
fn empty_text_is_an_empty_file() {
    assert_eq!(parse("").unwrap().statements.len(), 0);
    assert!(parse("  \n\t ").is_err());
}

#[test]
fn missing_terminator_is_reported_at_end() {
    let err = parse("def(\"a\") => u8").unwrap_err();
    assert_eq!(err.position, 14);
}

#[test]
fn empty_string_is_refused() {
    let err = parse("def(\"\");").unwrap_err();
    assert_eq!(err.position, 5);
}

#[test]
fn unclosed_block_is_refused() {
    assert!(parse("a { b;").is_err());
    assert!(parse("a(b").is_err());
    assert!(parse("a();").is_err());
}

#[test]
fn root_paths_and_repeated_attributes() {
    let block = parse("@doc \"x\"\n@doc \"y\"\n@type integer(\"u8\")\nfield(\"a\") => ::test_ns::inner;").unwrap();
    let stmt = &block.statements[0];
    assert_eq!(stmt.attributes.len(), 2);
    assert_eq!(stmt.attributes[0].0, "doc");
    assert_eq!(stmt.attribute("doc").unwrap()[0].string(), Some("y"));
    assert_eq!(stmt.attributes[1].0, "type");
    match &stmt.items[1].item().unwrap().name {
        Ident::RootNs(path) => assert_eq!(path, &vec!["test_ns".to_owned(), "inner".to_owned()]),
        _ => panic!("expected a root path"),
    }
}

#[test]
fn parse_ident_forms() {
    match parse_ident("some_name rest").unwrap() {
        Ident::Simple(s) => assert_eq!(s, "some_name"),
        _ => panic!(),
    }
    match parse_ident("  ::a ::b :: c").unwrap() {
        Ident::RootNs(p) => assert_eq!(p, vec!["a".to_owned(), "b".to_owned()]),
        _ => panic!(),
    }
    assert_eq!(parse_ident("  name").unwrap_err().position, 2);
    assert_eq!(parse_ident("").unwrap_err().position, 0);
}

#[test]
fn non_ascii_letters_are_not_name_characters() {
    assert!(parse("\u{161};").is_err());
    assert!(parse("ab\u{161};").is_err());
    match parse_ident("ab\u{161}").unwrap() {
        Ident::Simple(s) => assert_eq!(s, "ab"),
        _ => panic!("expected a simple identifier"),
    }
}

#[test]
fn whitespace_alone_is_not_a_file() {
    assert_eq!(parse("").unwrap().statements.len(), 0);
    assert!(parse("  ").is_err());
    assert!(parse("\n\t").is_err());
    assert_eq!(parse("a;\n  ").unwrap().statements.len(), 1);
    assert_eq!(parse("  a;").unwrap().statements.len(), 1);
}

#[test]
fn a_block_needs_its_brace_right_away_or_a_statement() {
    assert!(parse("a {};").is_ok());
    assert!(parse("a { };").is_err());
    assert!(parse("a {\n};").is_err());
    assert!(parse("a { b; };").is_ok());
}

#[test]
fn strings_stand_where_the_grammar_allows_them() {
    assert!(parse("\"x\";").is_ok());
    assert!(parse("a =>\"x\";").is_ok());
    assert!(parse("a => \"x\";").is_err());
    assert!(parse(" \"x\";").is_err());
    assert!(parse("f( \"x\", t:  \"y\");").is_ok());
    assert!(parse("@doc   \"x\"\na;").is_ok());
    assert!(parse("@doc \"x\"\n\"y\";").is_err());
}
