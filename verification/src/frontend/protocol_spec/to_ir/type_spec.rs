//! Type specifications: what a native type is known to be.

use vstd::prelude::*;

use crate::frontend::protocol_spec::ast::value_helpers::{
    ValidateError, lemma_leading_untagged, strs_view, validate_ok,
};
use crate::frontend::protocol_spec::ast::{Ident, Value, ItemArg};

verus! {

/// How binary data is encoded.
#[derive(Debug, Clone, Copy, PartialEq, Eq, Structural)]
pub enum BinaryEncoding {
    Raw,
    Utf8,
}

/// A binary type and its encoding.
#[derive(Debug, Clone, Copy, PartialEq, Eq, Structural)]
pub struct BinarySpec {
    pub encoding: BinaryEncoding,
}

/// The width of an integer type: that of an index, or at least a number of bits.
#[derive(Debug, Clone, Copy, PartialEq, Eq, Structural)]
pub enum IntegerSize {
    IndexSize,
    AtLeast(usize),
}

/// An integer type.
#[derive(Debug, Clone, Copy, PartialEq, Eq, Structural)]
pub struct IntegerSpec {
    pub signed: bool,
    pub size: IntegerSize,
}

/// What a type is known to be.
#[derive(Debug, Clone, Copy, PartialEq, Eq, Structural)]
pub enum TypeSpecVariant {
    Integer(IntegerSpec),
    Binary(BinarySpec),
    Boolean,
    Opaque,
}

/// Why an integer specification such as `u8` or `isize` is not valid.
#[derive(Debug, Clone, Copy, PartialEq, Eq, Structural)]
pub enum IntegerSpecError {
    /// The text is empty.
    TooShort,
    /// The text does not start with `i` or `u`.
    NoSignLetter,
    /// What follows the letter is neither `size` nor a decimal number.
    InvalidPrecision,
}

/// Why a type specification could not be read.
#[derive(Debug)]
pub enum TypeSpecError {
    /// There is no value to read.
    ExpectedItem,
    /// The value is a string, not an item.
    NotAnItem,
    /// The item's name is a root path.
    NamespacedName,
    /// The item's arguments do not have the expected shape.
    Validate(ValidateError),
    /// The argument of `integer` is not a string.
    IntegerArgumentNotString,
    /// The argument of `binary` is not a string.
    BinaryArgumentNotString,
    /// The argument of `integer` is not a valid integer specification.
    Integer(IntegerSpecError),
    /// The argument of `binary` names no known encoding.
    UnknownEncoding(String),
    /// The item names no known type specification.
    Unsupported(String),
}

/// A decimal digit.
pub open spec fn is_digit(c: char) -> bool {
    '0' <= c && c <= '9'
}

/// The number written by the decimal digits `ds`.
pub open spec fn digits_value(ds: Seq<char>) -> nat
    decreases ds.len(),
{
    if ds.len() == 0 {
        0
    } else {
        digits_value(ds.drop_last()) * 10 + ((ds.last() as int) - ('0' as int)) as nat
    }
}

/// The number written by `t`: an optional `+` followed by one or more decimal digits.
pub open spec fn unsigned_text(t: Seq<char>) -> Option<nat> {
    let ds = if t.len() > 0 && t[0] == '+' {
        t.skip(1)
    } else {
        t
    };
    if ds.len() > 0 && forall|k: int| 0 <= k < ds.len() ==> is_digit(#[trigger] ds[k]) {
        Some(digits_value(ds))
    } else {
        None
    }
}

/// The `usize` that `str::parse` reads from `t`, if any.
pub open spec fn usize_text(t: Seq<char>) -> Option<usize> {
    match unsigned_text(t) {
        Some(v) => if v <= usize::MAX {
            Some(v as usize)
        } else {
            None
        },
        None => None,
    }
}

/// Reads a `usize` written in decimal (std's `str::parse::<usize>`): an
/// optional `+` and one or more ASCII digits, with a value that fits.
#[verifier::external_body]
fn parse_usize(t: &str) -> (res: Option<usize>)
    ensures
        res == usize_text(t@),
{
    t.parse::<usize>().ok()
}

/// The first character of `s` is not ASCII.
pub open spec fn starts_with_non_ascii(s: Seq<char>) -> bool {
    s.len() > 0 && s[0] as int >= 128
}

/// The integer specification written by `s`: `i` (signed) or `u` (unsigned),
/// followed by `size` or by a number of bits.
pub open spec fn integer_spec_text(s: Seq<char>) -> Result<IntegerSpec, IntegerSpecError> {
    if s.len() == 0 {
        Err(IntegerSpecError::TooShort)
    } else if s[0] != 'i' && s[0] != 'u' {
        Err(IntegerSpecError::NoSignLetter)
    } else {
        let signed = s[0] == 'i';
        let tail = s.skip(1);
        if tail == "size"@ {
            Ok(IntegerSpec { signed, size: IntegerSize::IndexSize })
        } else {
            match usize_text(tail) {
                Some(n) => Ok(IntegerSpec { signed, size: IntegerSize::AtLeast(n) }),
                None => Err(IntegerSpecError::InvalidPrecision),
            }
        }
    }
}

/// The binary encoding named by `s`.
pub open spec fn binary_encoding_text(s: Seq<char>) -> Option<BinaryEncoding> {
    if s == "raw"@ {
        Some(BinaryEncoding::Raw)
    } else if s == "utf8"@ {
        Some(BinaryEncoding::Utf8)
    } else {
        None
    }
}

fn str_eq(a: &str, b: &str) -> (res: bool)
    ensures
        res == (a@ == b@),
{
    a.to_owned() == b.to_owned()
}

/// Reads a binary specification: `raw` or `utf8`.
pub fn parse_binary_spec(input: &str) -> (res: Result<BinarySpec, TypeSpecError>)
    ensures
        match binary_encoding_text(input@) {
            Some(e) => res == Ok::<BinarySpec, TypeSpecError>(BinarySpec { encoding: e }),
            None => res matches Err(TypeSpecError::UnknownEncoding(t)) && t@ == input@,
        },
{
    let encoding = if str_eq(input, "raw") {
        BinaryEncoding::Raw
    } else if str_eq(input, "utf8") {
        BinaryEncoding::Utf8
    } else {
        return Err(TypeSpecError::UnknownEncoding(input.to_owned()));
    };
    Ok(BinarySpec { encoding: encoding })
}

/// Reads an integer specification such as `u8`, `i32` or `usize`.
pub fn parse_integer_spec(input: &str) -> (res: Result<IntegerSpec, TypeSpecError>)
    requires
        !starts_with_non_ascii(input@),
    ensures
        match integer_spec_text(input@) {
            Ok(spec) => res == Ok::<IntegerSpec, TypeSpecError>(spec),
            Err(e) => res matches Err(TypeSpecError::Integer(f)) && f == e,
        },
{
    if input.unicode_len() == 0 {
        return Err(TypeSpecError::Integer(IntegerSpecError::TooShort));
    }
    let head_char = input.get_char(0);
    let tail = input.substring_char(1, input.unicode_len());
    proof {
        assert(tail@ =~= input@.skip(1));
    }
    let signed = if head_char == 'i' {
        true
    } else if head_char == 'u' {
        false
    } else {
        return Err(TypeSpecError::Integer(IntegerSpecError::NoSignLetter));
    };
    let size = if str_eq(tail, "size") {
        IntegerSize::IndexSize
    } else {
        match parse_usize(tail) {
            Some(precision) => IntegerSize::AtLeast(precision),
            None => {
                return Err(TypeSpecError::Integer(IntegerSpecError::InvalidPrecision));
            },
        }
    };
    Ok(IntegerSpec { signed: signed, size: size })
}

/// The value is an item with a simple name.
pub open spec fn simple_item_named(v: Value, name: Seq<char>) -> bool {
    v matches Value::Item(item) && item.name matches Ident::Simple(n) && n@ == name
}

/// The string argument of an `integer` item does not start with a non-ASCII character.
pub open spec fn integer_argument_ascii(values: Seq<Value>) -> bool {
    values.len() > 0 && simple_item_named(values[0], "integer"@) ==> match values[0] {
        Value::Item(item) => item.args@.len() > 0 ==> match item.args@[0].value {
            Value::String { string, .. } => !starts_with_non_ascii(string@),
            _ => true,
        },
        _ => true,
    }
}

/// The type specification that the first of `values` describes, if it is a valid one.
pub open spec fn type_spec_of(values: Seq<Value>) -> Option<TypeSpecVariant> {
    if values.len() == 0 {
        None
    } else {
        match values[0] {
            Value::String { .. } => None,
            Value::Item(item) => match item.name {
                Ident::RootNs(_) => None,
                Ident::Simple(n) => if n@ == "integer"@ || n@ == "binary"@ {
                    if !validate_ok(item.args@, 1, seq![], seq![]) {
                        None
                    } else {
                        match item.args@[0].value {
                            Value::Item(_) => None,
                            Value::String { string, .. } => if n@ == "integer"@ {
                                match integer_spec_text(string@) {
                                    Ok(spec) => Some(TypeSpecVariant::Integer(spec)),
                                    Err(_) => None,
                                }
                            } else {
                                match binary_encoding_text(string@) {
                                    Some(e) => Some(
                                        TypeSpecVariant::Binary(BinarySpec { encoding: e }),
                                    ),
                                    None => None,
                                }
                            },
                        }
                    }
                } else if n@ == "boolean"@ {
                    Some(TypeSpecVariant::Boolean)
                } else if n@ == "opaque"@ {
                    Some(TypeSpecVariant::Opaque)
                } else {
                    None
                },
            },
        }
    }
}

/// Reads a type specification from the first value: `integer("..")`,
/// `binary("..")`, `boolean` or `opaque`.
pub fn items_to_type_spec(values: &[Value]) -> (res: Result<TypeSpecVariant, TypeSpecError>)
    requires
        integer_argument_ascii(values@),
    ensures
        values@.len() == 0 ==> res matches Err(TypeSpecError::ExpectedItem),
        values@.len() > 0 ==> match values@[0] {
            Value::String { .. } => res matches Err(TypeSpecError::NotAnItem),
            Value::Item(item) => match item.name {
                Ident::RootNs(_) => res matches Err(TypeSpecError::NamespacedName),
                Ident::Simple(n) => if n@ == "integer"@ || n@ == "binary"@ {
                    if !validate_ok(item.args@, 1, seq![], seq![]) {
                        res matches Err(TypeSpecError::Validate(_))
                    } else {
                        match item.args@[0].value {
                            Value::Item(_) => if n@ == "integer"@ {
                                res matches Err(TypeSpecError::IntegerArgumentNotString)
                            } else {
                                res matches Err(TypeSpecError::BinaryArgumentNotString)
                            },
                            Value::String { string, .. } => if n@ == "integer"@ {
                                match integer_spec_text(string@) {
                                    Ok(spec) => res == Ok::<TypeSpecVariant, TypeSpecError>(
                                        TypeSpecVariant::Integer(spec),
                                    ),
                                    Err(e) => res matches Err(TypeSpecError::Integer(f)) && f == e,
                                }
                            } else {
                                match binary_encoding_text(string@) {
                                    Some(e) => res == Ok::<TypeSpecVariant, TypeSpecError>(
                                        TypeSpecVariant::Binary(BinarySpec { encoding: e }),
                                    ),
                                    None => res matches Err(TypeSpecError::UnknownEncoding(t))
                                        && t@ == string@,
                                }
                            },
                        }
                    }
                } else if n@ == "boolean"@ {
                    res == Ok::<TypeSpecVariant, TypeSpecError>(TypeSpecVariant::Boolean)
                } else if n@ == "opaque"@ {
                    res == Ok::<TypeSpecVariant, TypeSpecError>(TypeSpecVariant::Opaque)
                } else {
                    res matches Err(TypeSpecError::Unsupported(t)) && t@ == n@
                },
            },
        },
{
    if values.len() == 0 {
        return Err(TypeSpecError::ExpectedItem);
    }
    let head_val = &values[0];
    let item = match head_val.item() {
        Some(item) => item,
        None => {
            return Err(TypeSpecError::NotAnItem);
        },
    };
    let name_str = match item.name.simple_str() {
        Some(n) => n,
        None => {
            return Err(TypeSpecError::NamespacedName);
        },
    };
    let is_integer = str_eq(name_str, "integer");
    if is_integer || str_eq(name_str, "binary") {
        let none: &[&str] = &[];
        proof {
            assert(none@.len() == 0);
            assert(strs_view(none@) =~= seq![]);
        }
        match item.validate(1, none, none) {
            Ok(()) => {},
            Err(e) => {
                return Err(TypeSpecError::Validate(e));
            },
        }
        proof {
            lemma_leading_untagged(item.args@);
        }
        let inner = match item.arg(0).unwrap().string() {
            Some(s) => s,
            None => {
                return if is_integer {
                    Err(TypeSpecError::IntegerArgumentNotString)
                } else {
                    Err(TypeSpecError::BinaryArgumentNotString)
                };
            },
        };
        if is_integer {
            match parse_integer_spec(inner) {
                Ok(spec) => Ok(TypeSpecVariant::Integer(spec)),
                Err(e) => Err(e),
            }
        } else {
            match parse_binary_spec(inner) {
                Ok(spec) => Ok(TypeSpecVariant::Binary(spec)),
                Err(e) => Err(e),
            }
        }
    } else if str_eq(name_str, "boolean") {
        Ok(TypeSpecVariant::Boolean)
    } else if str_eq(name_str, "opaque") {
        Ok(TypeSpecVariant::Opaque)
    } else {
        Err(TypeSpecError::Unsupported(name_str.to_owned()))
    }
}

} // verus!
