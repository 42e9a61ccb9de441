//! The imperative form of the generated code: operations on named variables,
//! which each backend writes out in its own language.

use vstd::prelude::*;

pub mod utils;

use crate::context::compilation_unit::TypePath;
use crate::frontend::protocol_spec::to_ir::type_spec::BinaryEncoding;

verus! {

/// A sequence of operations.
#[derive(Debug)]
pub struct Block(pub Vec<Operation>);

/// A block that leaves its result in `result_var`.
#[derive(Debug)]
pub struct ResultBlock {
    pub block: Block,
    pub result_var: Var,
}

/// The named type that a type call goes to: its id and its path.
#[derive(Debug)]
pub struct NamedTypeRef {
    pub type_id: u64,
    pub path: TypePath,
}

/// One step of generated code.
#[derive(Debug)]
pub enum Operation {
    /// A nested block of operations.
    Block(Block),
    /// Stops with an error.
    ThrowError,
    /// Declares a variable without giving it a value.
    Declare { var: Var },
    /// Assigns the value of an expression; `declare` when the assignment also
    /// declares the variable.
    Assign { output_var: Var, value: Expr, declare: bool },
    /// Adds a variable to the running count.
    AddCount(Var),
    /// Branches or loops on a value.
    ControlFlow { input_var: Var, variant: ControlFlowVariant },
    /// Builds a value from variables.
    Construct { output_var: Var, variant: ConstructVariant },
    /// Calls the size-of, serialize or deserialize function of a named type.
    TypeCall {
        input_var: Var,
        call_type: CallType,
        named_type: NamedTypeRef,
        type_path: TypePath,
        arguments: Vec<Var>,
    },
}

/// The kinds of control flow.
#[derive(Debug)]
pub enum ControlFlowVariant {
    /// Branches on the tag of a union value.
    MatchUnionTag { cases: Vec<UnionTagCase>, default: (Option<Var>, Block) },
    /// Branches on a literal value.
    MatchLiteral { cases: Vec<LiteralCase>, default: Block },
    /// Runs `inner` for each element of an array.
    ForEachArray { loop_index_var: Var, loop_value_var: Var, inner: Block },
}

/// The kinds of constructed values.
#[derive(Debug)]
pub enum ConstructVariant {
    /// A container with named fields.
    Container { fields: Vec<(String, Var)> },
    /// A union value with its tag.
    Union { union_name: String, union_tag: String, variant_inner_var: Var },
    /// An array filled by running `inner` once per element.
    Array {
        /// The identifier of the array node, used to name variables uniquely.
        array_node_ident: u64,
        /// The number of iterations.
        count_input_var: Var,
        /// The result of each iteration.
        inner_result_var: Var,
        inner: Block,
    },
}

/// A literal value.
#[derive(Debug)]
pub enum Literal {
    Number(String),
}

/// An expression over variables and the input.
#[derive(Debug)]
pub enum Expr {
    InputData,
    Var(Var),
    Literal(Literal),
    ContainerField { input_var: Var, field: String },
    ArrayLength(Var),
    BinarySize(Var, BinaryEncoding),
}

/// A case of a union-tag match.
#[derive(Debug)]
pub struct UnionTagCase {
    pub variant_name: String,
    pub variant_var: Option<Var>,
    pub block: Block,
}

/// A case of a literal match.
#[derive(Debug)]
pub struct LiteralCase {
    pub value: Literal,
    pub block: Block,
}

/// What a type call computes; `SizeOf` and `Deserialize` carry the variable
/// that receives the result.
#[derive(Debug, Clone)]
pub enum CallType {
    SizeOf(Var),
    Serialize,
    Deserialize(Var),
}

/// The short name of a call type, as used in generated function names.
pub open spec fn call_type_name(t: CallType) -> Seq<char> {
    match t {
        CallType::SizeOf(_) => "size_of"@,
        CallType::Serialize => "serialize"@,
        CallType::Deserialize(_) => "deserialize"@,
    }
}

impl CallType {
    pub fn short(&self) -> (res: &str)
        ensures
            res@ == call_type_name(*self),
    {
        match self {
            CallType::SizeOf(_) => "size_of",
            CallType::Serialize => "serialize",
            CallType::Deserialize(_) => "deserialize",
        }
    }
}

/// The name of a variable of the generated code.
#[derive(Debug, Clone)]
pub struct Var(pub String);

impl View for Var {
    type V = Seq<char>;

    open spec fn view(&self) -> Seq<char> {
        self.0@
    }
}

impl Var {
    pub fn string(&self) -> (res: String)
        ensures
            res@ == self@,
    {
        self.0.clone()
    }

    pub fn str(&self) -> (res: &str)
        ensures
            res@ == self@,
    {
        self.0.as_str()
    }
}

impl From<String> for Var {
    fn from(input: String) -> (res: Var) {
        Var(input)
    }
}

impl vstd::std_specs::convert::FromSpecImpl<String> for Var {
    open spec fn obeys_from_spec() -> bool {
        true
    }

    open spec fn from_spec(input: String) -> Var {
        Var(input)
    }
}

impl From<Operation> for Block {
    fn from(op: Operation) -> (res: Block)
        ensures
            res.0@ == seq![op],
    {
        Block(vec![op])
    }
}

/// A `Vec` cannot be built in the specification language, so this conversion
/// is specified by the `ensures` of `from` alone.
impl vstd::std_specs::convert::FromSpecImpl<Operation> for Block {
    open spec fn obeys_from_spec() -> bool {
        false
    }

    closed spec fn from_spec(op: Operation) -> Block {
        arbitrary()
    }
}

} // verus!
