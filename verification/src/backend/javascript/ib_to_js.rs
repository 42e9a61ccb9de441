//! Writes the imperative form of generated code as JavaScript statements.
//!
//! Names of container fields and union tags are written in snake_case. The
//! JavaScript builder has no `switch` statement, so blocks that branch on a
//! union tag or a literal cannot be written.

use vstd::prelude::*;

use super::builder::{Block, Expr, Statement};
use crate::backend::imperative_base as ib;
use crate::text::{decimal_text, join, push_decimal, push_snake, snake_case};

verus! {

/// The JavaScript text of an expression.
pub open spec fn js_expr_text(e: ib::Expr) -> Seq<char> {
    match e {
        ib::Expr::InputData => "input"@,
        ib::Expr::Var(v) => v@,
        ib::Expr::Literal(ib::Literal::Number(n)) => n@,
        ib::Expr::ContainerField { input_var, field } => input_var@ + "[\""@ + snake_case(field@)
            + "\"]"@,
        ib::Expr::ArrayLength(a) => a@ + ".length"@,
        ib::Expr::BinarySize(b, _) => "Buffer.byteLength("@ + b@ + ", 'utf8')"@,
    }
}

/// The names of a list of variables.
pub open spec fn var_views(vs: Seq<ib::Var>) -> Seq<Seq<char>> {
    vs.map_values(|v: ib::Var| v@)
}

/// Extra call arguments: `", a, b"`, or nothing.
pub open spec fn arguments_text(args: Seq<ib::Var>) -> Seq<char> {
    if args.len() > 0 {
        ", "@ + join(var_views(args), ", "@)
    } else {
        Seq::empty()
    }
}

/// The call of a type's generated size-of, serialize or deserialize function.
pub open spec fn call_text(
    typ: ib::CallType,
    function_name: Seq<char>,
    input: Seq<char>,
    args: Seq<ib::Var>,
) -> Seq<char> {
    match typ {
        ib::CallType::SizeOf(_) => "sizeOf_"@ + function_name + "("@ + input + arguments_text(args)
            + ")"@,
        ib::CallType::Serialize => "serialize_"@ + function_name + "("@ + input + ", buffer, offset"@
            + arguments_text(args) + ")"@,
        ib::CallType::Deserialize(_) => "deserialize_"@ + function_name + "("@ + input + ", offset"@
            + arguments_text(args) + ")"@,
    }
}

/// The generated name of a named type: its id and its name.
pub open spec fn type_function_name(t: ib::NamedTypeRef) -> Seq<char> {
    decimal_text(t.type_id as nat) + "_"@ + t.path.name@
}

/// The fields of a constructed container: `name: var` each.
pub open spec fn field_texts(fields: Seq<(String, ib::Var)>) -> Seq<Seq<char>> {
    fields.map_values(|f: (String, ib::Var)| snake_case(f.0@) + ": "@ + f.1@)
}

/// The name of the index variable of a constructed array.
pub open spec fn array_index_var(ident: u64) -> Seq<char> {
    "array_"@ + decimal_text(ident as nat) + "_index"@
}

/// `st` is `var name = value;`.
pub open spec fn var_assign_stmt(st: Statement, name: Seq<char>, value: Seq<char>) -> bool {
    st matches Statement::Assign { variant, name: n, expr } && variant is Var && n@ == name && expr@
        == value
}

/// `st` is `name = value;`.
pub open spec fn plain_assign_stmt(st: Statement, name: Seq<char>, value: Seq<char>) -> bool {
    st matches Statement::Assign { variant, name: n, expr } && variant is Plain && n@ == name
        && expr@ == value
}

/// `st` is the expression statement `value;`.
pub open spec fn expr_stmt(st: Statement, value: Seq<char>) -> bool {
    st matches Statement::Expr { expr } && expr@ == value
}

/// The number of JavaScript statements written for an operation.
pub open spec fn js_count(op: ib::Operation) -> nat {
    match op {
        ib::Operation::Declare { .. } => 0,
        ib::Operation::ControlFlow { variant: ib::ControlFlowVariant::ForEachArray { .. }, .. } => 2,
        ib::Operation::Construct { variant: ib::ConstructVariant::Array { .. }, .. } => 2,
        ib::Operation::TypeCall { call_type: ib::CallType::Deserialize(_), .. } => 3,
        _ => 1,
    }
}

/// `out` holds the JavaScript statements written for the operations of `b`.
pub open spec fn js_block_built(b: ib::Block, out: Seq<Statement>) -> bool
    decreases b, 1nat,
{
    proof {
        assert(decreases_to!(b => b.0));
    }
    js_ops_built(b.0@, out)
}

/// `out` holds, in order, the statements written for each operation of `ops`.
pub open spec fn js_ops_built(ops: Seq<ib::Operation>, out: Seq<Statement>) -> bool
    decreases ops, 0nat,
{
    if ops.len() == 0 {
        out.len() == 0
    } else {
        let n = js_count(ops.last()) as int;
        &&& out.len() >= n
        &&& js_op_built(ops.last(), out.subrange(out.len() - n, out.len() as int))
        &&& js_ops_built(ops.drop_last(), out.subrange(0, out.len() - n))
    }
}

/// `sts` are the JavaScript statements written for `op`.
pub open spec fn js_op_built(op: ib::Operation, sts: Seq<Statement>) -> bool
    decreases op, 0nat,
{
    match op {
        ib::Operation::ThrowError => expr_stmt(sts[0], "throw new Error(\"protodef error\")"@),
        ib::Operation::Declare { .. } => true,
        ib::Operation::Assign { output_var, value, .. } => var_assign_stmt(
            sts[0],
            output_var@,
            js_expr_text(value),
        ),
        ib::Operation::AddCount(var) => plain_assign_stmt(sts[0], "count"@, "count + "@ + var@),
        ib::Operation::Block(inner) => sts[0] matches Statement::Scope { block } && js_block_built(
            inner,
            block@,
        ),
        ib::Operation::ControlFlow {
            input_var,
            variant: ib::ControlFlowVariant::ForEachArray { loop_index_var, loop_value_var, inner },
        } => {
            let length_var = loop_index_var@ + "_length"@;
            &&& var_assign_stmt(sts[0], length_var, input_var@ + ".length"@)
            &&& match sts[1] {
                Statement::For { init, cond, incr, block } => {
                    &&& init@ == "var "@ + loop_index_var@ + " = 0"@
                    &&& cond@ == loop_index_var@ + " < "@ + length_var
                    &&& incr@ == loop_index_var@ + "++"@
                    &&& block@.len() == 2
                    &&& var_assign_stmt(
                        block@[0],
                        loop_value_var@,
                        input_var@ + "["@ + loop_index_var@ + "]"@,
                    )
                    &&& match block@[1] {
                        Statement::Scope { block: inner_out } => js_block_built(inner, inner_out@),
                        _ => false,
                    }
                },
                _ => false,
            }
        },
        ib::Operation::Construct {
            output_var,
            variant: ib::ConstructVariant::Container { fields },
        } => var_assign_stmt(sts[0], output_var@, "{ "@ + join(field_texts(fields@), ", "@) + " }"@),
        ib::Operation::Construct {
            output_var,
            variant: ib::ConstructVariant::Array {
                array_node_ident,
                count_input_var,
                inner_result_var,
                inner,
            },
        } => {
            let index = array_index_var(array_node_ident);
            &&& var_assign_stmt(sts[0], output_var@, "[]"@)
            &&& match sts[1] {
                Statement::For { init, cond, incr, block } => {
                    &&& init@ == "var "@ + index + " = 0"@
                    &&& cond@ == index + " < "@ + count_input_var@
                    &&& incr@ == index + "++"@
                    &&& block@.len() == 2
                    &&& match block@[0] {
                        Statement::Block { block: inner_out } => js_block_built(inner, inner_out@),
                        _ => false,
                    }
                    &&& expr_stmt(block@[1], output_var@ + ".push("@ + inner_result_var@ + ")"@)
                },
                _ => false,
            }
        },
        ib::Operation::Construct {
            output_var,
            variant: ib::ConstructVariant::Union { union_tag, variant_inner_var, .. },
        } => var_assign_stmt(
            sts[0],
            output_var@,
            "{ tag: \""@ + snake_case(union_tag@) + "\", data: "@ + variant_inner_var@ + " }"@,
        ),
        ib::Operation::TypeCall { input_var, call_type, named_type, arguments, .. } => {
            let call = call_text(
                call_type,
                type_function_name(named_type),
                input_var@,
                arguments@,
            );
            match call_type {
                ib::CallType::SizeOf(output) => var_assign_stmt(sts[0], output@, call),
                ib::CallType::Serialize => var_assign_stmt(sts[0], "offset"@, call),
                ib::CallType::Deserialize(output) => {
                    &&& var_assign_stmt(sts[0], "call_out"@, call)
                    &&& var_assign_stmt(sts[1], output@, "call_out.value"@)
                    &&& var_assign_stmt(sts[2], "offset"@, "call_out.size"@)
                },
            }
        },
        _ => false,
    }
}

/// Every operation of `b` that the writer visits can be written: none
/// branches on a union tag or a literal.
pub open spec fn js_block_supported(b: ib::Block) -> bool
    decreases b, 1nat,
{
    proof {
        assert(decreases_to!(b => b.0));
    }
    forall|k: int| 0 <= k < b.0@.len() ==> js_op_supported(#[trigger] b.0@[k])
}

pub open spec fn js_op_supported(op: ib::Operation) -> bool
    decreases op, 0nat,
{
    match op {
        ib::Operation::Block(inner) => js_block_supported(inner),
        ib::Operation::ControlFlow {
            variant: ib::ControlFlowVariant::ForEachArray { inner, .. },
            ..
        } => js_block_supported(inner),
        ib::Operation::ControlFlow { .. } => false,
        ib::Operation::Construct {
            variant: ib::ConstructVariant::Array { inner, .. },
            ..
        } => js_block_supported(inner),
        _ => true,
    }
}

/// The number of JavaScript statements written for a list of operations.
pub open spec fn js_ops_count(ops: Seq<ib::Operation>) -> nat
    decreases ops.len(),
{
    if ops.len() == 0 {
        0
    } else {
        js_ops_count(ops.drop_last()) + js_count(ops.last())
    }
}

/// Every operation of `ops` can be written.
pub open spec fn js_ops_supported(ops: Seq<ib::Operation>) -> bool {
    forall|k: int| 0 <= k < ops.len() ==> js_op_supported(#[trigger] ops[k])
}

proof fn lemma_js_ops_len(ops: Seq<ib::Operation>, out: Seq<Statement>)
    requires
        js_ops_built(ops, out),
    ensures
        out.len() == js_ops_count(ops),
    decreases ops.len(),
{
    if ops.len() > 0 {
        let n = js_count(ops.last()) as int;
        lemma_js_ops_len(ops.drop_last(), out.subrange(0, out.len() - n));
    }
}

/// Each operation is written on its own and in order: the statements written
/// for two lists of operations one after the other are those written for the
/// first list followed by those written for the second, and the joined list
/// can be written exactly when both lists can.
pub proof fn law_js_blocks_concatenate(
    ops1: Seq<ib::Operation>,
    ops2: Seq<ib::Operation>,
    out1: Seq<Statement>,
    out2: Seq<Statement>,
)
    requires
        js_ops_built(ops1, out1),
        js_ops_built(ops2, out2),
    ensures
        js_ops_built(ops1 + ops2, out1 + out2),
        js_ops_supported(ops1 + ops2) <==> js_ops_supported(ops1) && js_ops_supported(ops2),
    decreases ops2.len(),
{
    let ops = ops1 + ops2;
    let out = out1 + out2;
    if ops2.len() == 0 {
        assert(ops =~= ops1);
        assert(out =~= out1);
    } else {
        let n = js_count(ops2.last()) as int;
        let rest2 = out2.subrange(0, out2.len() - n);
        law_js_blocks_concatenate(ops1, ops2.drop_last(), out1, rest2);
        assert(ops.last() == ops2.last());
        assert(ops.drop_last() =~= ops1 + ops2.drop_last());
        assert(out.subrange(out.len() - n, out.len() as int) =~= out2.subrange(
            out2.len() - n,
            out2.len() as int,
        ));
        assert(out.subrange(0, out.len() - n) =~= out1 + rest2);
    }
    assert(js_ops_supported(ops1 + ops2) ==> js_ops_supported(ops1) && js_ops_supported(ops2)) by {
        if js_ops_supported(ops1 + ops2) {
            assert forall|k: int| 0 <= k < ops1.len() implies js_op_supported(#[trigger] ops1[k]) by {
                assert(ops[k] == ops1[k]);
            }
            assert forall|k: int| 0 <= k < ops2.len() implies js_op_supported(#[trigger] ops2[k]) by {
                assert(ops[ops1.len() + k] == ops2[k]);
            }
        }
    }
    assert(js_ops_supported(ops1) && js_ops_supported(ops2) ==> js_ops_supported(ops)) by {
        if js_ops_supported(ops1) && js_ops_supported(ops2) {
            assert forall|k: int| 0 <= k < ops.len() implies js_op_supported(#[trigger] ops[k]) by {
                if k < ops1.len() {
                    assert(ops[k] == ops1[k]);
                } else {
                    assert(ops[k] == ops2[k - ops1.len()]);
                }
            }
        }
    }
}

/// The statements written for two lists of operations one after the other
/// split into those written for each list.
pub proof fn law_js_blocks_split(
    ops1: Seq<ib::Operation>,
    ops2: Seq<ib::Operation>,
    out: Seq<Statement>,
)
    requires
        js_ops_built(ops1 + ops2, out),
    ensures
        out.len() == js_ops_count(ops1) + js_ops_count(ops2),
        js_ops_built(ops1, out.subrange(0, js_ops_count(ops1) as int)),
        js_ops_built(ops2, out.subrange(js_ops_count(ops1) as int, out.len() as int)),
    decreases ops2.len(),
{
    let ops = ops1 + ops2;
    lemma_js_ops_len(ops, out);
    if ops2.len() == 0 {
        assert(ops =~= ops1);
        assert(out.subrange(0, js_ops_count(ops1) as int) =~= out);
        lemma_js_ops_len(ops1, out);
        assert(out.subrange(js_ops_count(ops1) as int, out.len() as int) =~= Seq::<Statement>::empty());
    } else {
        let n = js_count(ops2.last()) as int;
        assert(ops.last() == ops2.last());
        assert(ops.drop_last() =~= ops1 + ops2.drop_last());
        let head = out.subrange(0, out.len() - n);
        law_js_blocks_split(ops1, ops2.drop_last(), head);
        lemma_js_ops_len(ops.drop_last(), head);
        let c1 = js_ops_count(ops1) as int;
        assert(head.subrange(0, c1) =~= out.subrange(0, c1));
        let tail2 = out.subrange(c1, out.len() as int);
        assert(head.subrange(c1, head.len() as int) =~= tail2.subrange(0, tail2.len() - n));
        assert(tail2.subrange(tail2.len() - n, tail2.len() as int) =~= out.subrange(
            out.len() - n,
            out.len() as int,
        ));
    }
}

/// Writes the operations of `block` as JavaScript statements.
///
/// Control flow that branches on a union tag or on a literal is not written:
/// it needs a `switch` statement, which the JavaScript builder does not have.
/// Every other operation is written; a declaration alone writes nothing.
pub fn build_block(block: &ib::Block) -> (res: Block)
    requires
        js_block_supported(*block),
    ensures
        js_block_built(*block, res@),
    decreases block, 1nat,
{
    let ghost ops = block.0@;
    let mut b = Block::new();
    let mut i: usize = 0;
    while i < block.0.len()
        invariant
            ops == block.0@,
            js_block_supported(*block),
            i <= ops.len(),
            js_ops_built(ops.take(i as int), b@),
        decreases ops.len() - i,
    {
        let ghost before = b@;
        build_operation(&block.0[i], &mut b);
        proof {
            assert(ops.take(i + 1).drop_last() =~= ops.take(i as int));
            assert(ops.take(i + 1).last() == ops[i as int]);
            let n = js_count(ops[i as int]) as int;
            assert(b@.subrange(0, b@.len() - n) =~= before);
        }
        i += 1;
    }
    proof {
        assert(ops.take(i as int) =~= ops);
    }
    b
}

/// Appends the JavaScript statements of one operation to `b`.
#[verifier::loop_isolation(false)]
#[verifier::rlimit(40)]
fn build_operation(operation: &ib::Operation, b: &mut Block)
    requires
        js_op_supported(*operation),
    ensures
        final(b)@.len() == old(b)@.len() + js_count(*operation),
        final(b)@.subrange(0, old(b)@.len() as int) == old(b)@,
        js_op_built(
            *operation,
            final(b)@.subrange(old(b)@.len() as int, final(b)@.len() as int),
        ),
    decreases operation, 1nat,
{
    let ghost start = b@;
    match operation {
        ib::Operation::ThrowError => {
            b.expr(Expr::from("throw new Error(\"protodef error\")"));
            proof {
                assert(b@.subrange(0, start.len() as int) =~= start);
            }
        },
        ib::Operation::Declare { .. } => {
            proof {
                assert(b@.subrange(0, start.len() as int) =~= start);
            }
        },
        ib::Operation::Assign { output_var, value, .. } => {
            b.var_assign(output_var.string(), build_expr(value));
            proof {
                assert(b@.subrange(0, start.len() as int) =~= start);
            }
        },
        ib::Operation::AddCount(var) => {
            let mut s = "count + ".to_owned();
            s.append(var.str());
            b.assign("count".to_owned(), Expr::from(s));
            proof {
                assert(b@.subrange(0, start.len() as int) =~= start);
            }
        },
        ib::Operation::Block(inner_block) => {
            b.scope(build_block(inner_block));
            proof {
                assert(b@.subrange(0, start.len() as int) =~= start);
            }
        },
        ib::Operation::ControlFlow {
            input_var,
            variant: ib::ControlFlowVariant::ForEachArray { loop_index_var, loop_value_var, inner },
        } => {
            let mut length_var = loop_index_var.string();
            length_var.append("_length");
            let mut ib = Block::new();
            let mut element = input_var.string();
            element.append("[");
            element.append(loop_index_var.str());
            element.append("]");
            ib.var_assign(loop_value_var.string(), Expr::from(element));
            ib.scope(build_block(inner));
            let mut length = input_var.string();
            length.append(".length");
            b.var_assign(length_var.clone(), Expr::from(length));
            let mut init = "var ".to_owned();
            init.append(loop_index_var.str());
            init.append(" = 0");
            let mut cond = loop_index_var.string();
            cond.append(" < ");
            cond.append(length_var.as_str());
            let mut incr = loop_index_var.string();
            incr.append("++");
            b.for_(Expr::from(init), Expr::from(cond), Expr::from(incr), ib);
            proof {
                assert(b@.subrange(0, start.len() as int) =~= start);
            }
        },
        ib::Operation::Construct {
            output_var,
            variant: ib::ConstructVariant::Container { fields },
        } => {
            let mut parts: Vec<String> = Vec::new();
            let mut i: usize = 0;
            while i < fields.len()
                invariant
                    i <= fields@.len(),
                    crate::text::string_views(parts@) =~= field_texts(fields@.take(i as int)),
                decreases fields@.len() - i,
            {
                let mut part = String::new();
                push_snake(&mut part, fields[i].0.as_str());
                part.append(": ");
                part.append(fields[i].1.str());
                let ghost prev = parts@;
                parts.push(part);
                proof {
                    let want = field_texts(fields@.take(i + 1));
                    assert forall|k: int| 0 <= k < parts@.len() implies crate::text::string_views(
                        parts@,
                    )[k] == want[k] by {
                        if k < i {
                            assert(parts@[k] == prev[k]);
                            assert(crate::text::string_views(prev)[k] == field_texts(
                                fields@.take(i as int),
                            )[k]);
                        }
                    }
                    assert(crate::text::string_views(parts@) =~= want);
                }
                i += 1;
            }
            proof {
                assert(fields@.take(i as int) =~= fields@);
            }
            let mut obj = "{ ".to_owned();
            crate::text::push_joined(&mut obj, &parts, ", ");
            obj.append(" }");
            b.var_assign(output_var.string(), Expr::from(obj));
            proof {
                assert(b@.subrange(0, start.len() as int) =~= start);
            }
        },
        ib::Operation::Construct {
            output_var,
            variant: ib::ConstructVariant::Array {
                array_node_ident,
                count_input_var,
                inner_result_var,
                inner,
            },
        } => {
            let mut index_var = "array_".to_owned();
            push_decimal(&mut index_var, *array_node_ident);
            index_var.append("_index");
            let mut ib = Block::new();
            ib.block(build_block(inner));
            let mut push = output_var.string();
            push.append(".push(");
            push.append(inner_result_var.str());
            push.append(")");
            ib.expr(Expr::from(push));
            b.var_assign(output_var.string(), Expr::from("[]"));
            let mut init = "var ".to_owned();
            init.append(index_var.as_str());
            init.append(" = 0");
            let mut cond = index_var.clone();
            cond.append(" < ");
            cond.append(count_input_var.str());
            let mut incr = index_var.clone();
            incr.append("++");
            b.for_(Expr::from(init), Expr::from(cond), Expr::from(incr), ib);
            proof {
                assert(b@.subrange(0, start.len() as int) =~= start);
            }
        },
        ib::Operation::Construct {
            output_var,
            variant: ib::ConstructVariant::Union { union_tag, variant_inner_var, .. },
        } => {
            let mut obj = "{ tag: \"".to_owned();
            push_snake(&mut obj, union_tag.as_str());
            obj.append("\", data: ");
            obj.append(variant_inner_var.str());
            obj.append(" }");
            b.var_assign(output_var.string(), Expr::from(obj));
            proof {
                assert(b@.subrange(0, start.len() as int) =~= start);
            }
        },
        ib::Operation::TypeCall { input_var, call_type, named_type, arguments, .. } => {
            let mut name = String::new();
            push_decimal(&mut name, named_type.type_id);
            name.append("_");
            name.append(named_type.path.name.as_str());
            let call = call_for(call_type, name, input_var.str(), arguments.as_slice());
            match call_type {
                ib::CallType::SizeOf(output) => {
                    b.var_assign(output.string(), Expr::from(call));
                },
                ib::CallType::Serialize => {
                    b.var_assign("offset".to_owned(), Expr::from(call));
                },
                ib::CallType::Deserialize(output) => {
                    b.var_assign("call_out".to_owned(), Expr::from(call));
                    b.var_assign(output.string(), Expr::from("call_out.value"));
                    b.var_assign("offset".to_owned(), Expr::from("call_out.size"));
                },
            }
            proof {
                assert(b@.subrange(0, start.len() as int) =~= start);
            }
        },
        ib::Operation::ControlFlow { .. } => {},
    }
}

/// The call of a type's generated size-of, serialize or deserialize function
/// on `input`, with `arguments` after the fixed ones.
pub fn call_for(typ: &ib::CallType, function_name: String, input: &str, arguments: &[ib::Var]) -> (res:
    String)
    ensures
        res@ == call_text(*typ, function_name@, input@, arguments@),
{
    let mut names: Vec<String> = Vec::new();
    let mut i: usize = 0;
    while i < arguments.len()
        invariant
            i <= arguments@.len(),
            names@.len() == i,
            crate::text::string_views(names@) =~= var_views(arguments@.take(i as int)),
        decreases arguments@.len() - i,
    {
        let ghost prev = names@;
        names.push(arguments[i].string());
        proof {
            let want = var_views(arguments@.take(i + 1));
            assert forall|k: int| 0 <= k < names@.len() implies crate::text::string_views(
                names@,
            )[k] == want[k] by {
                if k < i {
                    assert(names@[k] == prev[k]);
                    assert(crate::text::string_views(prev)[k] == var_views(
                        arguments@.take(i as int),
                    )[k]);
                }
            }
            assert(crate::text::string_views(names@) =~= want);
        }
        i += 1;
    }
    proof {
        assert(arguments@.take(i as int) =~= arguments@);
    }
    let mut arguments_str = String::new();
    if arguments.len() > 0 {
        arguments_str.append(", ");
        crate::text::push_joined(&mut arguments_str, &names, ", ");
    }
    let mut out = match typ {
        ib::CallType::SizeOf(_) => "sizeOf_".to_owned(),
        ib::CallType::Serialize => "serialize_".to_owned(),
        ib::CallType::Deserialize(_) => "deserialize_".to_owned(),
    };
    out.append(function_name.as_str());
    out.append("(");
    out.append(input);
    match typ {
        ib::CallType::SizeOf(_) => {},
        ib::CallType::Serialize => {
            out.append(", buffer, offset");
        },
        ib::CallType::Deserialize(_) => {
            out.append(", offset");
        },
    }
    out.append(arguments_str.as_str());
    out.append(")");
    proof {
        assert(out@ =~= call_text(*typ, function_name@, input@, arguments@));
    }
    out
}

/// The JavaScript text of an expression.
pub fn build_expr(expr: &ib::Expr) -> (res: Expr)
    ensures
        res@ == js_expr_text(*expr),
{
    let res = match expr {
        ib::Expr::InputData => "input".to_owned(),
        ib::Expr::Var(var) => var.0.clone(),
        ib::Expr::Literal(ib::Literal::Number(num)) => num.clone(),
        ib::Expr::ContainerField { input_var, field } => {
            let mut s = input_var.string();
            s.append("[\"");
            push_snake(&mut s, field.as_str());
            s.append("\"]");
            s
        },
        ib::Expr::ArrayLength(array) => {
            let mut s = array.string();
            s.append(".length");
            s
        },
        ib::Expr::BinarySize(binary, _) => {
            let mut s = "Buffer.byteLength(".to_owned();
            s.append(binary.str());
            s.append(", 'utf8')");
            s
        },
    };
    Expr::from(res)
}

/// The statements in the body of a `for` loop; nothing for another statement.
pub open spec fn loop_body(st: Statement) -> Seq<Statement> {
    match st {
        Statement::For { block, .. } => block@,
        _ => Seq::empty(),
    }
}

/// In the loop written for an array construction, the statements of the inner
/// block come first and the push of the inner result comes after them, so each
/// element is computed before it is added to the array.
pub proof fn law_js_array_element_before_push(op: ib::Operation, sts: Seq<Statement>)
    requires
        js_op_built(op, sts),
    ensures
        match op {
            ib::Operation::Construct {
                output_var,
                variant: ib::ConstructVariant::Array { inner_result_var, .. },
            } => {
                &&& sts[1] is For
                &&& loop_body(sts[1]).len() == 2
                &&& loop_body(sts[1])[0] is Block
                &&& loop_body(sts[1])[1] matches Statement::Expr { expr } && expr@ == output_var@
                    + ".push("@ + inner_result_var@ + ")"@
            },
            _ => true,
        },
{
}

/// The loop written for each element of an array first declares the length
/// of the array, then, in its body, reads the element into the loop's value
/// variable before the statements of the inner block run in a scope of their
/// own.
pub proof fn law_js_for_each_reads_element_first(op: ib::Operation, sts: Seq<Statement>)
    requires
        js_op_built(op, sts),
    ensures
        match op {
            ib::Operation::ControlFlow {
                input_var,
                variant: ib::ControlFlowVariant::ForEachArray { loop_index_var, loop_value_var, .. },
            } => {
                &&& sts[0] matches Statement::Assign { name, expr, .. } && name@ == loop_index_var@
                    + "_length"@ && expr@ == input_var@ + ".length"@
                &&& sts[1] is For
                &&& loop_body(sts[1]).len() == 2
                &&& loop_body(sts[1])[0] matches Statement::Assign { name, expr, .. } && name@
                    == loop_value_var@ && expr@ == input_var@ + "["@ + loop_index_var@ + "]"@
                &&& loop_body(sts[1])[1] is Scope
            },
            _ => true,
        },
{
}

} // verus!
