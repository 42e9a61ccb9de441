//! The arguments declared in the block of a native type.

use vstd::prelude::*;

use super::type_spec::{
    TypeSpecError, TypeSpecVariant, integer_argument_ascii, items_to_type_spec, type_spec_of,
};
use crate::frontend::protocol_spec::ast::value_helpers::{
    ValidateError, strs_view, tag_scan, validate_ok,
};
use crate::frontend::protocol_spec::ast::{
    Block, Ident, Statement, Value, lemma_tag_position, opt_view, tag_position,
};

verus! {

/// When a native type reads an argument.
#[derive(Debug, Clone, Copy, PartialEq, Eq, Structural)]
pub enum ReferenceAccessTime {
    Read,
    ReadWrite,
}

/// An argument that a native type takes.
#[derive(Debug)]
pub struct NamedTypeArgument {
    pub name: String,
    pub access_time: ReferenceAccessTime,
    pub type_spec: TypeSpecVariant,
}

/// Why the block of a native type does not declare valid arguments.
#[derive(Debug)]
pub enum NativeTypeError {
    /// A statement starts with a string.
    RootNotItem,
    /// A statement starts with a root path.
    RootNamespaced,
    /// A statement starts with something other than `argument`.
    InvalidRootName,
    /// The arguments of `argument` do not have the expected shape.
    Validate(ValidateError),
    /// The name of the argument is not a string.
    NameNotString,
    /// The `stage` of the argument is not a string.
    StageNotString,
    /// The `stage` is neither `read` nor `read_write`.
    BadStage,
    /// The type specification after the argument is not valid.
    TypeSpec(TypeSpecError),
}

/// The kinds of [`NativeTypeError`].
#[derive(Debug, Clone, Copy, PartialEq, Eq, Structural)]
pub enum ArgumentFailure {
    RootNotItem,
    RootNamespaced,
    InvalidRootName,
    Validate,
    NameNotString,
    StageNotString,
    BadStage,
    TypeSpec,
}

/// The kind of a native type error.
pub open spec fn failure_kind(e: NativeTypeError) -> ArgumentFailure {
    match e {
        NativeTypeError::RootNotItem => ArgumentFailure::RootNotItem,
        NativeTypeError::RootNamespaced => ArgumentFailure::RootNamespaced,
        NativeTypeError::InvalidRootName => ArgumentFailure::InvalidRootName,
        NativeTypeError::Validate(_) => ArgumentFailure::Validate,
        NativeTypeError::NameNotString => ArgumentFailure::NameNotString,
        NativeTypeError::StageNotString => ArgumentFailure::StageNotString,
        NativeTypeError::BadStage => ArgumentFailure::BadStage,
        NativeTypeError::TypeSpec(_) => ArgumentFailure::TypeSpec,
    }
}

/// The access time named by a `stage` value.
pub open spec fn stage_text(s: Seq<char>) -> Option<ReferenceAccessTime> {
    if s == "read"@ {
        Some(ReferenceAccessTime::Read)
    } else if s == "read_write"@ {
        Some(ReferenceAccessTime::ReadWrite)
    } else {
        None
    }
}

/// What the statement `argument("name", stage: "..") => type spec` declares:
/// the argument's name, its access time and its type specification.
pub open spec fn argument_outcome(stmt: Statement) -> Result<
    (Seq<char>, ReferenceAccessTime, TypeSpecVariant),
    ArgumentFailure,
> {
    match stmt.items@[0] {
        Value::String { .. } => Err(ArgumentFailure::RootNotItem),
        Value::Item(item) => match item.name {
            Ident::RootNs(_) => Err(ArgumentFailure::RootNamespaced),
            Ident::Simple(n) => if n@ != "argument"@ {
                Err(ArgumentFailure::InvalidRootName)
            } else if !validate_ok(item.args@, 1, seq!["stage"@], seq!["stage"@]) {
                Err(ArgumentFailure::Validate)
            } else {
                match item.args@[0].value {
                    Value::Item(_) => Err(ArgumentFailure::NameNotString),
                    Value::String { string: name, .. } => match tag_position(
                        item.args@,
                        "stage"@,
                    ) {
                        Some(p) => match item.args@[p].value {
                            Value::Item(_) => Err(ArgumentFailure::StageNotString),
                            Value::String { string: stage, .. } => match stage_text(stage@) {
                                None => Err(ArgumentFailure::BadStage),
                                Some(access) => match type_spec_of(stmt.items@.skip(1)) {
                                    Some(t) => Ok((name@, access, t)),
                                    None => Err(ArgumentFailure::TypeSpec),
                                },
                            },
                        },
                        None => Err(ArgumentFailure::Validate),
                    },
                }
            },
        },
    }
}

/// The statement can be examined without a panic: it has a first value, and
/// an `integer` type specification after it does not start with a non-ASCII character.
pub open spec fn argument_readable(stmt: Statement) -> bool {
    stmt.items@.len() > 0 && integer_argument_ascii(stmt.items@.skip(1))
}

fn str_eq(a: &str, b: &str) -> (res: bool)
    ensures
        res == (a@ == b@),
{
    a.to_owned() == b.to_owned()
}

fn read_argument(stmt: &Statement) -> (res: Result<NamedTypeArgument, NativeTypeError>)
    requires
        argument_readable(*stmt),
    ensures
        match argument_outcome(*stmt) {
            Ok((n, a, t)) => res matches Ok(arg) && arg.name@ == n && arg.access_time == a
                && arg.type_spec == t,
            Err(k) => res matches Err(e) && failure_kind(e) == k,
        },
{
    let root_item = match stmt.items[0].item() {
        Some(item) => item,
        None => {
            return Err(NativeTypeError::RootNotItem);
        },
    };
    let root_name = match root_item.name.simple_str() {
        Some(n) => n,
        None => {
            return Err(NativeTypeError::RootNamespaced);
        },
    };
    if !str_eq(root_name, "argument") {
        return Err(NativeTypeError::InvalidRootName);
    }
    let stage_list: [&str; 1] = ["stage"];
    proof {
        assert(strs_view(stage_list@) =~= seq!["stage"@]);
    }
    match root_item.validate(1, &stage_list, &stage_list) {
        Ok(()) => {},
        Err(e) => {
            return Err(NativeTypeError::Validate(e));
        },
    }
    proof {
        crate::frontend::protocol_spec::ast::value_helpers::lemma_leading_untagged(root_item.args@);
        lemma_validated_tag_present(root_item.args@);
    }
    let argument_name = match root_item.arg(0).unwrap().string() {
        Some(n) => n,
        None => {
            return Err(NativeTypeError::NameNotString);
        },
    };
    let access_time_str = match root_item.tagged_arg("stage").unwrap().string() {
        Some(s) => s,
        None => {
            return Err(NativeTypeError::StageNotString);
        },
    };
    let access_time = if str_eq(access_time_str, "read") {
        ReferenceAccessTime::Read
    } else if str_eq(access_time_str, "read_write") {
        ReferenceAccessTime::ReadWrite
    } else {
        return Err(NativeTypeError::BadStage);
    };
    let (_, rest) = stmt.items.as_slice().split_at(1);
    let type_spec = match items_to_type_spec(rest) {
        Ok(t) => t,
        Err(e) => {
            return Err(NativeTypeError::TypeSpec(e));
        },
    };
    Ok(NamedTypeArgument { name: argument_name.to_owned(), access_time: access_time, type_spec: type_spec })
}

spec fn tag_scan_found(args: Seq<crate::frontend::protocol_spec::ast::ItemArg>) -> Seq<Seq<char>> {
    tag_scan(args, seq!["stage"@], seq!["stage"@])->Ok_0
}

proof fn lemma_validated_tag_present(args: Seq<crate::frontend::protocol_spec::ast::ItemArg>)
    requires
        validate_ok(args, 1, seq!["stage"@], seq!["stage"@]),
    ensures
        tag_position(args, "stage"@) is Some,
{
    crate::frontend::protocol_spec::ast::value_helpers::lemma_tag_scan_found(
        args,
        seq!["stage"@],
        seq!["stage"@],
    );
    let found = tag_scan_found(args);
    assert(found.len() == 1);
    assert(seq!["stage"@].contains(found[0]));
    assert(seq!["stage"@][0] == "stage"@);
}

/// Reads the `argument(..)` declarations of a native type's block, in order.
/// Stops at the first statement that is not a valid declaration.
pub fn block_to_args(block: &Block) -> (res: Result<Vec<NamedTypeArgument>, NativeTypeError>)
    requires
        forall|k: int|
            0 <= k < block.statements@.len() && (forall|j: int|
                0 <= j < k ==> argument_outcome(#[trigger] block.statements@[j]) is Ok)
                ==> argument_readable(#[trigger] block.statements@[k]),
    ensures
        res matches Ok(args) ==> args@.len() == block.statements@.len() && forall|k: int|
            0 <= k < args@.len() ==> (argument_outcome(#[trigger] block.statements@[k]) matches Ok(
                (n, a, t),
            ) && args@[k].name@ == n && args@[k].access_time == a && args@[k].type_spec == t),
        res is Ok <==> forall|k: int|
            0 <= k < block.statements@.len() ==> argument_outcome(#[trigger] block.statements@[k]) is Ok,
        res matches Err(e) ==> exists|k: int|
            0 <= k < block.statements@.len() && argument_outcome(#[trigger] block.statements@[k])
                == Err::<(Seq<char>, ReferenceAccessTime, TypeSpecVariant), ArgumentFailure>(
                failure_kind(e),
            ) && forall|j: int| 0 <= j < k ==> argument_outcome(#[trigger] block.statements@[j]) is Ok,
{
    let mut arguments: Vec<NamedTypeArgument> = Vec::new();
    let mut i: usize = 0;
    while i < block.statements.len()
        invariant
            i <= block.statements@.len(),
            arguments@.len() == i,
            forall|k: int|
                0 <= k < block.statements@.len() && (forall|j: int|
                    0 <= j < k ==> argument_outcome(#[trigger] block.statements@[j]) is Ok)
                    ==> argument_readable(#[trigger] block.statements@[k]),
            forall|k: int|
                0 <= k < i ==> (argument_outcome(#[trigger] block.statements@[k]) matches Ok((n, a, t))
                    && arguments@[k].name@ == n && arguments@[k].access_time == a
                    && arguments@[k].type_spec == t),
        decreases block.statements@.len() - i,
    {
        match read_argument(&block.statements[i]) {
            Ok(arg) => {
                arguments.push(arg);
            },
            Err(e) => {
                return Err(e);
            },
        }
        i += 1;
    }
    Ok(arguments)
}

/// The string given as the `stage` tag of the statement's first item, if it
/// has one.
pub open spec fn stage_string(stmt: Statement) -> Option<Seq<char>> {
    match stmt.items@[0] {
        Value::Item(item) => match tag_position(item.args@, "stage"@) {
            Some(p) => match item.args@[p].value {
                Value::String { string, .. } => Some(string@),
                Value::Item(_) => None,
            },
            None => None,
        },
        Value::String { .. } => None,
    }
}

/// The access time of a declared argument is given by its `stage` string
/// alone: `"read"` reads it, `"read_write"` reads and writes it, whatever its
/// type specification.
pub proof fn law_access_time_follows_stage(stmt: Statement)
    ensures
        argument_outcome(stmt) matches Ok((n, a, t)) ==> stage_string(stmt) == Some(
            if a == ReferenceAccessTime::Read {
                "read"@
            } else {
                "read_write"@
            },
        ),
{
}

} // verus!
