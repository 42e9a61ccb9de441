use protodefc::backend::imperative_base::{
    Block as IbBlock, CallType, ConstructVariant, ControlFlowVariant, Expr as IbExpr, Literal,
    NamedTypeRef, Operation, UnionTagCase, Var,
};
use protodefc::backend::imperative_base::utils::{input_for, output_for, var_for};
use protodefc::backend::javascript::builder::ToJavascript;
use protodefc::backend::javascript::ib_to_js;
use protodefc::backend::rust::builder::ToRust;
use protodefc::backend::rust::ib_to_rs;
use protodefc::context::compilation_unit::TypePath;
use protodefc::frontend::protocol_spec::to_ir::compilation_unit::sequence;
use protodefc::frontend::protocol_spec::to_ir::type_spec::BinaryEncoding;

fn var(s: &str) -> Var {
    Var(s.to_owned())
}

fn js_text(b: protodefc::backend::javascript::builder::Block) -> String {
    let mut out = String::new();
    b.to_javascript(&mut out, 0);
    out
}

fn rs_text(b: protodefc::backend::rust::builder::Block) -> String {
    let mut out = String::new();
    b.to_rust(&mut out, 0);
    out
}

#[test]
fn call_type_short_names() {
    assert_eq!(CallType::SizeOf(var("s")).short(), "size_of");
    assert_eq!(CallType::Serialize.short(), "serialize");
    assert_eq!(CallType::Deserialize(var("d")).short(), "deserialize");
}

#[test]
fn var_accessors_and_conversions() {
    let v = Var::from("abc".to_owned());
    assert_eq!(v.string(), "abc");
    assert_eq!(v.str(), "abc");
    let b = IbBlock::from(Operation::ThrowError);
    assert_eq!(b.0.len(), 1);
}

#[test]
fn sequence_cases() {
    assert_eq!(sequence::<u8, u8>(Some(Ok(3))), Ok(Some(3)));
    assert_eq!(sequence::<u8, u8>(Some(Err(4))), Err(4));
    assert_eq!(sequence::<u8, u8>(None), Ok(None));
}

#[test]
fn rust_expressions() {
    assert_eq!(ib_to_rs::build_expr(&IbExpr::InputData), "input");
    assert_eq!(ib_to_rs::build_expr(&IbExpr::Var(var("a"))), "a");
    assert_eq!(ib_to_rs::build_expr(&IbExpr::Literal(Literal::Number("12".to_owned()))), "12");
    assert_eq!(
        ib_to_rs::build_expr(&IbExpr::ContainerField { input_var: var("c"), field: "woo".to_owned() }),
        "c.Woo"
    );
    assert_eq!(
        ib_to_rs::build_expr(&IbExpr::ContainerField {
            input_var: var("c"),
            field: "field_name".to_owned()
        }),
        "c.FieldName"
    );
    assert_eq!(ib_to_rs::build_expr(&IbExpr::ArrayLength(var("arr"))), "arr.len()");
}

#[test]
fn rust_block_of_operations() {
    let inner = IbBlock(vec![Operation::AddCount(var("n"))]);
    let block = IbBlock(vec![
        Operation::Declare { var: var("x") },
        Operation::Assign { output_var: var("x"), value: IbExpr::InputData, declare: false },
        Operation::Assign { output_var: var("y"), value: IbExpr::ArrayLength(var("x")), declare: true },
        Operation::ControlFlow {
            input_var: var("x"),
            variant: ControlFlowVariant::ForEachArray {
                loop_index_var: var("i"),
                loop_value_var: var("v"),
                inner: inner,
            },
        },
        Operation::Construct {
            output_var: var("z"),
            variant: ConstructVariant::Union {
                union_name: "u".to_owned(),
                union_tag: "t".to_owned(),
                variant_inner_var: var("w"),
            },
        },
        Operation::ThrowError,
    ]);
    let built = ib_to_rs::build_block(&block);
    assert_eq!(
        rs_text(built),
        "let x;\nx = input;\nlet y = x.len();\nfor &(i, ref v) in x.iter().enumerate() {\n    count = count + n;\n}\npanic!();\n"
    );
}

#[test]
fn rust_union_match() {
    let block = IbBlock(vec![Operation::ControlFlow {
        input_var: var("input"),
        variant: ControlFlowVariant::MatchUnionTag {
            cases: vec![UnionTagCase {
                variant_name: "one_more".to_owned(),
                variant_var: None,
                block: IbBlock(vec![Operation::ThrowError]),
            }],
            default: (None, IbBlock(vec![])),
        },
    }]);
    let built = ib_to_rs::build_block(&block);
    assert_eq!(rs_text(built), "match input {\n    TODO::OneMore => {\n        panic!();\n    },\n};\n");
}

#[test]
fn js_calls() {
    let args = vec![var("a"), var("b")];
    assert_eq!(
        ib_to_js::call_for(&CallType::SizeOf(var("s")), "3_u8".to_owned(), "x", &[]),
        "sizeOf_3_u8(x)"
    );
    assert_eq!(
        ib_to_js::call_for(&CallType::Serialize, "3_u8".to_owned(), "x", &args),
        "serialize_3_u8(x, buffer, offset, a, b)"
    );
    assert_eq!(
        ib_to_js::call_for(&CallType::Deserialize(var("d")), "7_pos".to_owned(), "buf", &args[..1]),
        "deserialize_7_pos(buf, offset, a)"
    );
}

#[test]
fn js_expressions() {
    let text = |e: IbExpr| {
        let mut b = protodefc::backend::javascript::builder::Block::new();
        b.expr(ib_to_js::build_expr(&e));
        js_text(b)
    };
    assert_eq!(text(IbExpr::InputData), "input;\n");
    assert_eq!(text(IbExpr::Var(var("a"))), "a;\n");
    assert_eq!(text(IbExpr::Literal(Literal::Number("5".to_owned()))), "5;\n");
    assert_eq!(
        text(IbExpr::ContainerField { input_var: var("c"), field: "woo".to_owned() }),
        "c[\"woo\"];\n"
    );
    assert_eq!(
        text(IbExpr::ContainerField { input_var: var("c"), field: "FieldName".to_owned() }),
        "c[\"field_name\"];\n"
    );
    assert_eq!(text(IbExpr::ArrayLength(var("arr"))), "arr.length;\n");
    assert_eq!(
        text(IbExpr::BinarySize(var("s"), BinaryEncoding::Utf8)),
        "Buffer.byteLength(s, 'utf8');\n"
    );
}

#[test]
fn js_block_of_operations() {
    let block = IbBlock(vec![
        Operation::Declare { var: var("x") },
        Operation::Assign { output_var: var("x"), value: IbExpr::InputData, declare: true },
        Operation::AddCount(var("x")),
        Operation::Construct {
            output_var: var("obj"),
            variant: ConstructVariant::Container {
                fields: vec![("foo".to_owned(), var("a")), ("BarBaz".to_owned(), var("b"))],
            },
        },
        Operation::Construct {
            output_var: var("u"),
            variant: ConstructVariant::Union {
                union_name: "un".to_owned(),
                union_tag: "Zero".to_owned(),
                variant_inner_var: var("d"),
            },
        },
        Operation::Block(IbBlock(vec![Operation::ThrowError])),
    ]);
    assert_eq!(
        js_text(ib_to_js::build_block(&block)),
        "var x = input;\ncount = count + x;\nvar obj = { foo: a, bar_baz: b };\nvar u = { tag: \"zero\", data: d };\n{\n    throw new Error(\"protodef error\");\n}\n"
    );
}

#[test]
fn js_loops() {
    let block = IbBlock(vec![
        Operation::ControlFlow {
            input_var: var("arr"),
            variant: ControlFlowVariant::ForEachArray {
                loop_index_var: var("i"),
                loop_value_var: var("v"),
                inner: IbBlock(vec![Operation::AddCount(var("v"))]),
            },
        },
        Operation::Construct {
            output_var: var("out"),
            variant: ConstructVariant::Array {
                array_node_ident: 42,
                count_input_var: var("n"),
                inner_result_var: var("r"),
                inner: IbBlock(vec![]),
            },
        },
    ]);
    assert_eq!(
        js_text(ib_to_js::build_block(&block)),
        "var i_length = arr.length;\nfor (var i = 0; i < i_length; i++) {\n    var v = arr[i];\n    {\n        count = count + v;\n    }\n}\nvar out = [];\nfor (var array_42_index = 0; array_42_index < n; array_42_index++) {\n    out.push(r);\n}\n"
    );
}

#[test]
fn js_type_calls() {
    let call = |call_type: CallType| {
        IbBlock(vec![Operation::TypeCall {
            input_var: var("x"),
            call_type: call_type,
            named_type: NamedTypeRef { type_id: 105, path: TypePath::with_no_ns("pos".to_owned()) },
            type_path: TypePath::with_no_ns("pos".to_owned()),
            arguments: vec![var("len")],
        }])
    };
    assert_eq!(
        js_text(ib_to_js::build_block(&call(CallType::SizeOf(var("size"))))),
        "var size = sizeOf_105_pos(x, len);\n"
    );
    assert_eq!(
        js_text(ib_to_js::build_block(&call(CallType::Serialize))),
        "var offset = serialize_105_pos(x, buffer, offset, len);\n"
    );
    assert_eq!(
        js_text(ib_to_js::build_block(&call(CallType::Deserialize(var("res"))))),
        "var call_out = deserialize_105_pos(x, offset, len);\nvar res = call_out.value;\nvar offset = call_out.size;\n"
    );
}

#[test]
fn variable_names_for_type_nodes() {
    assert_eq!(var_for("length", 12), "type_12_length");
    assert_eq!(input_for(0), "type_var_0");
    assert_eq!(output_for(907), "type_var_907");
    assert_eq!(input_for(18446744073709551615), "type_var_18446744073709551615");
}

#[test]
fn joined_operation_lists_give_joined_statements() {
    let first = || vec![Operation::AddCount(var("a")), Operation::Declare { var: var("d") }];
    let second = || {
        vec![
            Operation::Assign { output_var: var("x"), value: IbExpr::InputData, declare: true },
            Operation::ThrowError,
        ]
    };
    let mut both = first();
    both.extend(second());
    let js_both = js_text(ib_to_js::build_block(&IbBlock(both)));
    let js_parts = js_text(ib_to_js::build_block(&IbBlock(first())))
        + &js_text(ib_to_js::build_block(&IbBlock(second())));
    assert_eq!(js_both, js_parts);
    let mut both = first();
    both.extend(second());
    let rs_both = rs_text(ib_to_rs::build_block(&IbBlock(both)));
    let rs_parts = rs_text(ib_to_rs::build_block(&IbBlock(first())))
        + &rs_text(ib_to_rs::build_block(&IbBlock(second())));
    assert_eq!(rs_both, rs_parts);
}
