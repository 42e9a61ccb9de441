use protodefc::backend::javascript::builder::{AssignVariant, Block, Expr, Statement, ToJavascript};

fn to_string<T>(block: T) -> String
where
    T: ToJavascript,
{
    let mut out = String::new();
    block.to_javascript(&mut out, 0);
    out
}

#[test]
fn simple_expr() {
    let mut b = Block::new();
    b.expr("some_call(1)".into());
    assert_eq!(to_string(b), "some_call(1);\n");
}

#[test]
fn simple_if() {
    let mut b = Block::new();
    b.if_("test == 0".into(), {
        let mut b = Block::new();
        b.assign("test".into(), "1".into());
        b
    });
    assert_eq!(to_string(b), "if (test == 0) {\n    test = 1;\n}\n");
}

#[test]
fn function_with_arguments() {
    let mut inner = Block::new();
    inner.var_assign("x".to_owned(), "a + b".into());
    inner.return_("x".into());
    let mut b = Block::new();
    b.decl_fun("add".to_owned(), vec!["a".to_owned(), "b".to_owned()], inner);
    assert_eq!(
        to_string(b),
        "function add(a, b) {\n    var x = a + b;\n    return x;\n}\n"
    );
}

#[test]
fn function_without_arguments() {
    let mut b = Block::new();
    b.decl_fun("f".to_owned(), vec![], Block::new());
    assert_eq!(to_string(b), "function f() {\n}\n");
}

#[test]
fn if_chain_with_else() {
    let mut first = Block::new();
    first.let_assign("y".to_owned(), "1".into());
    let mut second = Block::new();
    second.comment("nothing".to_owned());
    let mut otherwise = Block::new();
    otherwise.expr("fail()".into());
    let stmt = Statement::If {
        conds: vec![(Expr::from("a"), first), (Expr::from("b"), second)],
        else_: Some(otherwise),
    };
    let mut out = String::new();
    stmt.to_javascript(&mut out, 1);
    assert_eq!(
        out,
        "    if (a) {\n        let y = 1;\n    } else if (b) {\n        // nothing\n    } else {\n        fail();\n    }\n"
    );
}

#[test]
fn for_scope_and_inline_block() {
    let mut body = Block::new();
    body.expr("f(i)".into());
    let mut inline = Block::new();
    inline.assign("z".to_owned(), "0".into());
    let mut scoped = Block::new();
    scoped.expr("g()".into());
    let mut b = Block::new();
    b.for_("var i = 0".into(), "i < n".into(), "i++".into(), body);
    b.block(inline);
    b.scope(scoped);
    assert_eq!(
        to_string(b),
        "for (var i = 0; i < n; i++) {\n    f(i);\n}\nz = 0;\n{\n    g();\n}\n"
    );
}

#[test]
fn const_assignment_statement() {
    let stmt = Statement::Assign {
        variant: AssignVariant::Const,
        name: "k".to_owned(),
        expr: Expr::from("3".to_owned()),
    };
    let mut out = String::new();
    stmt.to_javascript(&mut out, 2);
    assert_eq!(out, "        const k = 3;\n");
}

#[test]
fn one_more_level_indents_every_line() {
    let make = || {
        let mut inner = Block::new();
        inner.var_assign("x".to_owned(), "1".into());
        inner.comment("note".to_owned());
        let mut body = Block::new();
        body.if_("a".into(), inner);
        body.return_("x".into());
        let mut b = Block::new();
        b.decl_fun("f".to_owned(), vec!["a".to_owned()], body);
        b.for_("var i = 0".into(), "i < 2".into(), "i++".into(), Block::new());
        b
    };
    let mut level0 = String::new();
    make().to_javascript(&mut level0, 0);
    let mut level1 = String::new();
    make().to_javascript(&mut level1, 1);
    let shifted: String = level0.lines().map(|x| "    ".to_string() + x + "\n").collect();
    assert_eq!(level1, shifted);
}
