use protodefc::backend::rust::builder::{Block, MatchCase, Statement, ToRust};

fn render<T: ToRust>(t: &T, level: u64) -> String {
    let mut out = String::new();
    t.to_rust(&mut out, level);
    out
}

#[test]
fn rust_function_with_for() {
    let mut body = Block::new();
    body.assign("count".to_owned(), "count + size".to_owned());
    let mut f = Block::new();
    f.let_assign("count".to_owned(), "0".to_owned());
    f.for_("x in input.iter()".to_owned(), body);
    let mut b = Block::new();
    b.decl_fun("size_of(input: &[u8])".to_owned(), f);
    assert_eq!(
        render(&b, 0),
        "fn size_of(input: &[u8]) {\n    let count = 0;\n    for x in input.iter() {\n        count = count + size;\n    }\n}\n"
    );
}

#[test]
fn rust_match_arms() {
    let mut one = Block::new();
    one.expr("a()".to_owned());
    let mut two = Block::new();
    two.expr("b()".to_owned());
    let mut b = Block::new();
    b.match_(
        "tag".to_owned(),
        vec![
            MatchCase { pattern: "0".to_owned(), block: one },
            MatchCase { pattern: "_".to_owned(), block: two },
        ],
    );
    assert_eq!(
        render(&b, 0),
        "match tag {\n    0 => {\n        a();\n    },\n    _ => {\n        b();\n    },\n};\n"
    );
}

#[test]
fn rust_block_and_inline() {
    let mut scoped = Block::new();
    scoped.expr("x".to_owned());
    let mut inline = Block::new();
    inline.expr("y".to_owned());
    let mut b = Block::new();
    b.block(scoped);
    b.inline(inline);
    assert_eq!(render(&b, 1), "    {\n        x;\n    };\n    y;\n");
}

#[test]
fn rust_module_and_assign_block() {
    let mut rhs = Block::new();
    rhs.expr("1".to_owned());
    let s = Statement::AssignBlock { is_let: true, lhs: "v".to_owned(), rhs };
    assert_eq!(render(&s, 0), "let v = {    1;\n};\n");
    let mut inner = Block::new();
    inner.expr("z".to_owned());
    let m = Statement::Module { name: "m".to_owned(), block: inner };
    assert_eq!(render(&m, 0), "mod m {\n    z;\n}\n");
}
