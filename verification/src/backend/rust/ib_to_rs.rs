//! Writes the imperative form of generated code as Rust statements.
//!
//! Names of container fields and union variants are written in PascalCase.

use vstd::prelude::*;

use super::builder::{Block, MatchCase, Statement, block_text, stmts_text};
use crate::backend::imperative_base as ib;
use crate::text::{pascal_case, push_pascal};

verus! {

/// The Rust text of an expression. Binary sizes have no Rust form.
pub open spec fn rust_expr_text(e: ib::Expr) -> Seq<char> {
    match e {
        ib::Expr::InputData => "input"@,
        ib::Expr::Var(v) => v@,
        ib::Expr::Literal(ib::Literal::Number(n)) => n@,
        ib::Expr::ContainerField { input_var, field } => input_var@ + "."@ + pascal_case(field@),
        ib::Expr::ArrayLength(a) => a@ + ".len()"@,
        ib::Expr::BinarySize(_, _) => Seq::empty(),
    }
}

/// The operations that give a Rust statement; the others are left out.
pub open spec fn emits_rust(op: ib::Operation) -> bool {
    match op {
        ib::Operation::ThrowError => true,
        ib::Operation::Declare { .. } => true,
        ib::Operation::Assign { .. } => true,
        ib::Operation::AddCount(_) => true,
        ib::Operation::Block(_) => true,
        ib::Operation::ControlFlow { variant: ib::ControlFlowVariant::ForEachArray { .. }, .. } => true,
        ib::Operation::ControlFlow { variant: ib::ControlFlowVariant::MatchUnionTag { .. }, .. } => true,
        _ => false,
    }
}

/// The loop header that walks an array with its index.
pub open spec fn for_each_condition(index: Seq<char>, value: Seq<char>, input: Seq<char>) -> Seq<
    char,
> {
    "&("@ + index + ", ref "@ + value + ") in "@ + input + ".iter().enumerate()"@
}

/// `out` holds the Rust statements written for the operations of `b`.
pub open spec fn rust_block_built(b: ib::Block, out: Seq<Statement>) -> bool
    decreases b, 1nat,
{
    proof {
        assert(decreases_to!(b => b.0));
    }
    rust_ops_built(b.0@, out)
}

/// `out` holds, in order, the statement of each operation of `ops` that gives one.
pub open spec fn rust_ops_built(ops: Seq<ib::Operation>, out: Seq<Statement>) -> bool
    decreases ops, 0nat,
{
    if ops.len() == 0 {
        out.len() == 0
    } else if emits_rust(ops.last()) {
        &&& out.len() > 0
        &&& rust_op_built(ops.last(), out.last())
        &&& rust_ops_built(ops.drop_last(), out.drop_last())
    } else {
        rust_ops_built(ops.drop_last(), out)
    }
}

/// `st` is the Rust statement written for `op`.
pub open spec fn rust_op_built(op: ib::Operation, st: Statement) -> bool
    decreases op, 0nat,
{
    match op {
        ib::Operation::ThrowError => st matches Statement::Expr { inner } && inner@ == "panic!()"@,
        ib::Operation::Declare { var } => st matches Statement::Expr { inner } && inner@ == "let "@
            + var@,
        ib::Operation::Assign { output_var, value, declare } => st matches Statement::Assign {
            is_let,
            lhs,
            rhs,
        } && is_let == declare && lhs@ == output_var@ && rhs@ == rust_expr_text(value),
        ib::Operation::AddCount(var) => st matches Statement::Assign { is_let, lhs, rhs } && !is_let
            && lhs@ == "count"@ && rhs@ == "count + "@ + var@,
        ib::Operation::Block(inner) => st matches Statement::Inline { block } && rust_block_built(
            inner,
            block@,
        ),
        ib::Operation::ControlFlow {
            input_var,
            variant: ib::ControlFlowVariant::ForEachArray { loop_index_var, loop_value_var, inner },
        } => st matches Statement::For { condition, block } && condition@ == for_each_condition(
            loop_index_var@,
            loop_value_var@,
            input_var@,
        ) && rust_block_built(inner, block@),
        ib::Operation::ControlFlow {
            input_var,
            variant: ib::ControlFlowVariant::MatchUnionTag { cases, .. },
        } => st matches Statement::Match { input, cases: arms } && input@ == input_var@
            && arms@.len() == cases@.len() && forall|k: int|
            0 <= k < cases@.len() ==> rust_case_built(#[trigger] cases@[k], arms@[k]),
        _ => false,
    }
}

/// The arm written for a union-tag case: `TODO::variant` and the case's statements.
pub open spec fn rust_case_built(c: ib::UnionTagCase, arm: MatchCase) -> bool
    decreases c, 0nat,
{
    &&& arm.pattern@ == "TODO::"@ + pascal_case(c.variant_name@)
    &&& arm.block@.len() == 1
    &&& arm.block@[0] matches Statement::Inline { block } && rust_block_built(c.block, block@)
}

/// Every expression that the writer reads has a Rust form.
pub open spec fn rust_block_supported(b: ib::Block) -> bool
    decreases b, 1nat,
{
    proof {
        assert(decreases_to!(b => b.0));
    }
    forall|k: int| 0 <= k < b.0@.len() ==> rust_op_supported(#[trigger] b.0@[k])
}

pub open spec fn rust_op_supported(op: ib::Operation) -> bool
    decreases op, 0nat,
{
    match op {
        ib::Operation::Assign { value, .. } => !(value is BinarySize),
        ib::Operation::Block(inner) => rust_block_supported(inner),
        ib::Operation::ControlFlow {
            variant: ib::ControlFlowVariant::ForEachArray { inner, .. },
            ..
        } => rust_block_supported(inner),
        ib::Operation::ControlFlow {
            variant: ib::ControlFlowVariant::MatchUnionTag { cases, .. },
            ..
        } => forall|k: int| 0 <= k < cases@.len() ==> rust_block_supported(#[trigger] cases@[k].block),
        _ => true,
    }
}

/// The number of Rust statements written for a list of operations.
pub open spec fn rust_ops_count(ops: Seq<ib::Operation>) -> nat
    decreases ops.len(),
{
    if ops.len() == 0 {
        0
    } else {
        rust_ops_count(ops.drop_last()) + if emits_rust(ops.last()) {
            1nat
        } else {
            0nat
        }
    }
}

/// Every operation of `ops` has a Rust form for what the writer reads.
pub open spec fn rust_ops_supported(ops: Seq<ib::Operation>) -> bool {
    forall|k: int| 0 <= k < ops.len() ==> rust_op_supported(#[trigger] ops[k])
}

proof fn lemma_rust_ops_len(ops: Seq<ib::Operation>, out: Seq<Statement>)
    requires
        rust_ops_built(ops, out),
    ensures
        out.len() == rust_ops_count(ops),
    decreases ops.len(),
{
    if ops.len() > 0 {
        if emits_rust(ops.last()) {
            lemma_rust_ops_len(ops.drop_last(), out.drop_last());
        } else {
            lemma_rust_ops_len(ops.drop_last(), out);
        }
    }
}

/// Each operation is written on its own and in order: the statements written
/// for two lists of operations one after the other are those written for the
/// first list followed by those written for the second, and the joined list
/// can be written exactly when both lists can.
pub proof fn law_rust_blocks_concatenate(
    ops1: Seq<ib::Operation>,
    ops2: Seq<ib::Operation>,
    out1: Seq<Statement>,
    out2: Seq<Statement>,
)
    requires
        rust_ops_built(ops1, out1),
        rust_ops_built(ops2, out2),
    ensures
        rust_ops_built(ops1 + ops2, out1 + out2),
        rust_ops_supported(ops1 + ops2) <==> rust_ops_supported(ops1) && rust_ops_supported(ops2),
    decreases ops2.len(),
{
    let ops = ops1 + ops2;
    let out = out1 + out2;
    if ops2.len() == 0 {
        assert(ops =~= ops1);
        assert(out =~= out1);
    } else {
        assert(ops.last() == ops2.last());
        assert(ops.drop_last() =~= ops1 + ops2.drop_last());
        if emits_rust(ops2.last()) {
            law_rust_blocks_concatenate(ops1, ops2.drop_last(), out1, out2.drop_last());
            assert(out.drop_last() =~= out1 + out2.drop_last());
            assert(out.last() == out2.last());
        } else {
            law_rust_blocks_concatenate(ops1, ops2.drop_last(), out1, out2);
        }
    }
    assert(rust_ops_supported(ops) ==> rust_ops_supported(ops1) && rust_ops_supported(ops2)) by {
        if rust_ops_supported(ops) {
            assert forall|k: int| 0 <= k < ops1.len() implies rust_op_supported(#[trigger] ops1[k]) by {
                assert(ops[k] == ops1[k]);
            }
            assert forall|k: int| 0 <= k < ops2.len() implies rust_op_supported(#[trigger] ops2[k]) by {
                assert(ops[ops1.len() + k] == ops2[k]);
            }
        }
    }
    assert(rust_ops_supported(ops1) && rust_ops_supported(ops2) ==> rust_ops_supported(ops)) by {
        if rust_ops_supported(ops1) && rust_ops_supported(ops2) {
            assert forall|k: int| 0 <= k < ops.len() implies rust_op_supported(#[trigger] ops[k]) by {
                if k < ops1.len() {
                    assert(ops[k] == ops1[k]);
                } else {
                    assert(ops[k] == ops2[k - ops1.len()]);
                }
            }
        }
    }
}

/// The statements written for two lists of operations one after the other
/// split into those written for each list.
pub proof fn law_rust_blocks_split(
    ops1: Seq<ib::Operation>,
    ops2: Seq<ib::Operation>,
    out: Seq<Statement>,
)
    requires
        rust_ops_built(ops1 + ops2, out),
    ensures
        out.len() == rust_ops_count(ops1) + rust_ops_count(ops2),
        rust_ops_built(ops1, out.subrange(0, rust_ops_count(ops1) as int)),
        rust_ops_built(ops2, out.subrange(rust_ops_count(ops1) as int, out.len() as int)),
    decreases ops2.len(),
{
    let ops = ops1 + ops2;
    lemma_rust_ops_len(ops, out);
    let c1 = rust_ops_count(ops1) as int;
    if ops2.len() == 0 {
        assert(ops =~= ops1);
        assert(out.subrange(0, c1) =~= out);
        lemma_rust_ops_len(ops1, out);
        assert(out.subrange(c1, out.len() as int) =~= Seq::<Statement>::empty());
    } else {
        assert(ops.last() == ops2.last());
        assert(ops.drop_last() =~= ops1 + ops2.drop_last());
        let tail2 = out.subrange(c1, out.len() as int);
        if emits_rust(ops2.last()) {
            let head = out.drop_last();
            law_rust_blocks_split(ops1, ops2.drop_last(), head);
            lemma_rust_ops_len(ops.drop_last(), head);
            assert(head.subrange(0, c1) =~= out.subrange(0, c1));
            assert(head.subrange(c1, head.len() as int) =~= tail2.drop_last());
            assert(tail2.last() == out.last());
        } else {
            law_rust_blocks_split(ops1, ops2.drop_last(), out);
        }
    }
}

/// Writes the operations of `block` as Rust statements.
pub fn build_block(block: &ib::Block) -> (res: Block)
    requires
        rust_block_supported(*block),
    ensures
        rust_block_built(*block, res@),
    decreases block, 1nat,
{
    let ghost ops = block.0@;
    let mut b = Block::new();
    let mut i: usize = 0;
    while i < block.0.len()
        invariant
            ops == block.0@,
            rust_block_supported(*block),
            i <= ops.len(),
            rust_ops_built(ops.take(i as int), b@),
        decreases ops.len() - i,
    {
        build_operation(&block.0[i], &mut b);
        proof {
            assert(ops.take(i + 1).drop_last() =~= ops.take(i as int));
            assert(ops.take(i + 1).last() == ops[i as int]);
        }
        i += 1;
    }
    proof {
        assert(ops.take(i as int) =~= ops);
    }
    b
}

/// Appends the Rust statement of one operation to `b`, when it has one.
#[verifier::loop_isolation(false)]
pub fn build_operation(operation: &ib::Operation, b: &mut Block)
    requires
        rust_op_supported(*operation),
    ensures
        emits_rust(*operation) ==> {
            &&& final(b)@.len() == old(b)@.len() + 1
            &&& final(b)@.drop_last() == old(b)@
            &&& rust_op_built(*operation, final(b)@.last())
        },
        !emits_rust(*operation) ==> final(b)@ == old(b)@,
    decreases operation, 1nat,
{
    match operation {
        ib::Operation::ThrowError => {
            b.expr("panic!()".to_owned());
        },
        ib::Operation::Declare { var } => {
            let mut s = "let ".to_owned();
            s.append(var.str());
            b.expr(s);
        },
        ib::Operation::Assign { output_var, value, declare } => {
            let rhs = build_expr(value);
            if *declare {
                b.let_assign(output_var.string(), rhs);
            } else {
                b.assign(output_var.string(), rhs);
            }
        },
        ib::Operation::AddCount(var) => {
            let mut s = "count + ".to_owned();
            s.append(var.str());
            b.assign("count".to_owned(), s);
        },
        ib::Operation::Block(inner_block) => {
            b.inline(build_block(inner_block));
        },
        ib::Operation::ControlFlow {
            input_var,
            variant: ib::ControlFlowVariant::ForEachArray { loop_index_var, loop_value_var, inner },
        } => {
            let mut cond = "&(".to_owned();
            cond.append(loop_index_var.str());
            cond.append(", ref ");
            cond.append(loop_value_var.str());
            cond.append(") in ");
            cond.append(input_var.str());
            cond.append(".iter().enumerate()");
            b.for_(cond, build_block(inner));
        },
        ib::Operation::ControlFlow {
            input_var,
            variant: ib::ControlFlowVariant::MatchUnionTag { cases, .. },
        } => {
            let mut arms: Vec<MatchCase> = Vec::new();
            let mut i: usize = 0;
            while i < cases.len()
                invariant
                    forall|k: int|
                        0 <= k < cases@.len() ==> rust_block_supported(#[trigger] cases@[k].block),
                    i <= cases@.len(),
                    arms@.len() == i,
                    forall|k: int| 0 <= k < i ==> rust_case_built(#[trigger] cases@[k], arms@[k]),
                decreases cases@.len() - i,
            {
                let case = &cases[i];
                let built = build_block(&case.block);
                let mut inner = Block::new();
                inner.inline(built);
                let mut pattern = "TODO::".to_owned();
                push_pascal(&mut pattern, case.variant_name.as_str());
                arms.push(MatchCase { pattern: pattern, block: inner });
                i += 1;
            }
            b.match_(input_var.string(), arms);
        },
        _ => {},
    }
}

/// The Rust text of an expression.
pub fn build_expr(expr: &ib::Expr) -> (res: String)
    requires
        !(*expr is BinarySize),
    ensures
        res@ == rust_expr_text(*expr),
{
    match expr {
        ib::Expr::InputData => "input".to_owned(),
        ib::Expr::Var(var) => var.0.clone(),
        ib::Expr::Literal(ib::Literal::Number(num)) => num.clone(),
        ib::Expr::ContainerField { input_var, field } => {
            let mut s = input_var.string();
            s.append(".");
            push_pascal(&mut s, field.as_str());
            s
        },
        ib::Expr::ArrayLength(array) => {
            let mut s = array.string();
            s.append(".len()");
            s
        },
        ib::Expr::BinarySize(_, _) => String::new(),
    }
}

/// A block operation is written inline: the text printed for it at any level is
/// the text of the statements written for its inner block at that same level,
/// with no braces around them, so what the inner block declares stays in scope
/// for the operations after it.
pub proof fn law_rust_block_operation_inline(inner: ib::Block, out: Seq<Statement>, level: nat)
    requires
        rust_ops_built(seq![ib::Operation::Block(inner)], out),
    ensures
        exists|b: Block| #[trigger] rust_block_built(inner, b@) && stmts_text(out, level) == block_text(b, level),
{
    let ops = seq![ib::Operation::Block(inner)];
    assert(ops.len() == 1);
    assert(ops.last() == ib::Operation::Block(inner));
    assert(emits_rust(ops.last()));
    assert(ops.drop_last() =~= Seq::<ib::Operation>::empty());
    assert(rust_op_built(ops.last(), out.last()));
    assert(rust_ops_built(ops.drop_last(), out.drop_last()));
    assert(out.drop_last().len() == 0);
    assert(out.drop_last() =~= Seq::<Statement>::empty());
    match out.last() {
        Statement::Inline { block } => {
            assert(stmts_text(out, level) == stmts_text(out.drop_last(), level) + super::builder::stmt_text(out.last(), level));
            assert(stmts_text(out, level) =~= block_text(block, level));
            assert(rust_block_built(inner, block@));
        },
        _ => {},
    }
}

} // verus!
