use protodefc::backend::python::builder::{Block, Expr, Statement, ToPython};

fn render<T: ToPython>(t: &T, level: u64) -> String {
    let mut out = String::new();
    t.to_python(&mut out, level);
    out
}

#[test]
fn python_function_with_body() {
    let mut body = Block::new();
    body.assign("count".to_owned(), "0".into());
    body.return_("count".into());
    let mut b = Block::new();
    b.decl_fun("size_of".to_owned(), vec!["input".to_owned()], body);
    assert_eq!(render(&b, 0), "def size_of(input):\n    count = 0\n    return count\n");
}

#[test]
fn python_if_elif_else() {
    let mut a = Block::new();
    a.expr("f()".into());
    let mut c = Block::new();
    c.comment("second".to_owned());
    let mut e = Block::new();
    e.expr("g()".into());
    let mut b = Block::new();
    b.if_chain(vec![(Expr::from("x == 0"), a), (Expr::from("x == 1"), c)], Some(e));
    assert_eq!(
        render(&b, 0),
        "if x == 0:\n    f()\nelif x == 1:\n    # second\nelse:\n    g()\n"
    );
}

#[test]
fn python_empty_chain_keeps_else_only() {
    let mut e = Block::new();
    e.expr("g()".into());
    let mut b = Block::new();
    b.if_chain(vec![], Some(e));
    assert_eq!(render(&b, 1), "    g()\n");
    let mut nothing = Block::new();
    nothing.if_chain(vec![], None);
    assert_eq!(render(&nothing, 0), "");
}

#[test]
fn python_for_and_if() {
    let mut inner = Block::new();
    inner.expr("print(i)".into());
    let mut guard = Block::new();
    guard.for_("i in range(3)".into(), inner);
    let mut b = Block::new();
    b.if_("ok".into(), guard);
    assert_eq!(render(&b, 0), "if ok:\n    for i in range(3):\n        print(i)\n");
}

#[test]
fn python_statement_at_level() {
    let s = Statement::Expr { expr: Expr("x".to_owned()) };
    assert_eq!(render(&s, 2), "        x\n");
}
