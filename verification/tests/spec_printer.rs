use protodefc::frontend::protocol_spec::ast::parser::parse;
use protodefc::frontend::protocol_spec::ast::printer::print;
use protodefc::frontend::protocol_spec::ast::{Block, Ident, Item, ItemArg, Statement, Value};

fn simple(name: &str) -> Value {
    Value::Item(Item {
        name: Ident::Simple(name.to_owned()),
        args: vec![],
        block: Block::empty(),
    })
}

fn string(s: &str) -> Value {
    Value::String { string: s.to_owned(), is_block: false }
}

#[test]
fn print_single_statement() {
    let block = Block {
        statements: vec![Statement { attributes: vec![], items: vec![simple("u8")] }],
    };
    assert_eq!(print(&block), "u8;\n");
}

#[test]
fn print_chain_args_and_tags() {
    let item = Value::Item(Item {
        name: Ident::Simple("field".to_owned()),
        args: vec![
            ItemArg::new(string("x")),
            ItemArg::with_tag("stage".to_owned(), string("read")),
        ],
        block: Block::empty(),
    });
    let block = Block {
        statements: vec![Statement { attributes: vec![], items: vec![item, simple("u8")] }],
    };
    assert_eq!(print(&block), "field(\"x\", stage: \"read\") => u8;\n");
}

#[test]
fn print_attributes_and_nested_block() {
    let inner = Block {
        statements: vec![Statement {
            attributes: vec![],
            items: vec![
                Value::Item(Item {
                    name: Ident::Simple("field".to_owned()),
                    args: vec![ItemArg::new(string("x"))],
                    block: Block::empty(),
                }),
                Value::Item(Item {
                    name: Ident::RootNs(vec!["types".to_owned(), "f64".to_owned()]),
                    args: vec![],
                    block: Block::empty(),
                }),
            ],
        }],
    };
    let block = Block {
        statements: vec![Statement {
            attributes: vec![("doc".to_owned(), vec![string("a position")])],
            items: vec![
                Value::Item(Item {
                    name: Ident::Simple("def".to_owned()),
                    args: vec![ItemArg::new(string("position"))],
                    block: Block::empty(),
                }),
                Value::Item(Item {
                    name: Ident::Simple("container".to_owned()),
                    args: vec![],
                    block: inner,
                }),
            ],
        }],
    };
    assert_eq!(
        print(&block),
        "@doc \"a position\"\ndef(\"position\") => container {\n    field(\"x\") => ::types::f64;\n};\n"
    );
}

#[test]
fn print_empty_block() {
    assert_eq!(print(&Block::empty()), "");
}

#[test]
fn printed_text_parses_back() {
    let source = r#"
@doc "a position"
@export "pos"
def("position") => container {
    field("x") => ::types::f64;
    field("y", stage: "read") => array(count: "x") {
        inner => u8;
    };
};
def_native("u8");
"#;
    let first = parse(source).unwrap();
    let printed = print(&first);
    let second = parse(&printed).unwrap();
    assert_eq!(print(&second), printed);
    assert_eq!(second.statements.len(), 2);
    assert_eq!(second.statements[0].attributes.len(), 2);
    assert_eq!(second.statements[0].attributes[1].0, "export");
    assert_eq!(second.statements[0].items.len(), 2);
}

#[test]
fn bare_root_path_before_root_item_does_not_read_back() {
    let block = Block {
        statements: vec![Statement {
            attributes: vec![(
                "type".to_owned(),
                vec![Value::Item(Item {
                    name: Ident::RootNs(vec!["a".to_owned()]),
                    args: vec![],
                    block: Block::empty(),
                })],
            )],
            items: vec![Value::Item(Item {
                name: Ident::RootNs(vec!["b".to_owned()]),
                args: vec![],
                block: Block::empty(),
            })],
        }],
    };
    let printed = print(&block);
    assert_eq!(printed, "@type ::a\n::b;\n");
    assert!(parse(&printed).is_err());
}

#[test]
fn string_after_arrow_does_not_read_back() {
    let block = Block {
        statements: vec![Statement { attributes: vec![], items: vec![simple("a"), string("x")] }],
    };
    let printed = print(&block);
    assert_eq!(printed, "a => \"x\";\n");
    assert!(parse(&printed).is_err());
}
