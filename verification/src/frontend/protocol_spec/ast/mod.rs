//! The syntax tree of a PDS file.
//!
//! A file is a block of statements. A statement is a list of attributes
//! (`@name value => value`) followed by a chain of values joined by `=>`.
//! A value is a string (`"..."` or a block string `"""..."""`) or an item:
//! an identifier with optional arguments in parentheses and an optional
//! block in braces.

use vstd::prelude::*;

use crate::field_reference::{FieldReference, strip_up, count_up, is_field_name};

pub mod grammar;
pub mod parser;
pub mod printer;
pub mod roundtrip;
pub mod value_helpers;

verus! {

/// A sequence of statements.
#[derive(Debug)]
pub struct Block {
    pub statements: Vec<Statement>,
}

/// Attributes followed by a chain of values. In a parsed file each attribute
/// name occurs once per statement (`grammar::lemma_parsed_attribute_names_distinct`).
#[derive(Debug)]
pub struct Statement {
    pub attributes: Vec<(String, Vec<Value>)>,
    pub items: Vec<Value>,
}

/// A string or an item.
#[derive(Debug)]
pub enum Value {
    String { string: String, is_block: bool },
    Item(Item),
}

/// An identifier with its arguments and block.
#[derive(Debug)]
pub struct Item {
    pub name: Ident,
    pub args: Vec<ItemArg>,
    pub block: Block,
}

/// An argument of an item, optionally tagged (`tag: value`).
#[derive(Debug)]
pub struct ItemArg {
    pub tag: Option<String>,
    pub value: Value,
}

/// A plain name, or a path from the root namespace (`::a::b`).
#[derive(Debug)]
pub enum Ident {
    Simple(String),
    RootNs(Vec<String>),
}

/// The mathematical form of an [`Ident`].
pub enum SpecIdent {
    Simple(Seq<char>),
    RootNs(Seq<Seq<char>>),
}

/// The mathematical form of a [`Value`].
pub enum SpecValue {
    Str { string: Seq<char>, is_block: bool },
    Item(SpecItem),
}

/// The mathematical form of an [`Item`].
pub struct SpecItem {
    pub name: SpecIdent,
    pub args: Seq<SpecArg>,
    pub block: SpecBlock,
}

/// The mathematical form of an [`ItemArg`].
pub struct SpecArg {
    pub tag: Option<Seq<char>>,
    pub value: SpecValue,
}

/// The mathematical form of a [`Block`].
pub struct SpecBlock {
    pub statements: Seq<SpecStatement>,
}

/// The mathematical form of a [`Statement`].
pub struct SpecStatement {
    pub attributes: Seq<(Seq<char>, Seq<SpecValue>)>,
    pub items: Seq<SpecValue>,
}

/// The views of a list of strings.
pub open spec fn names_view(v: Seq<String>) -> Seq<Seq<char>> {
    v.map_values(|s: String| s@)
}

pub open spec fn ident_view(i: Ident) -> SpecIdent {
    match i {
        Ident::Simple(s) => SpecIdent::Simple(s@),
        Ident::RootNs(p) => SpecIdent::RootNs(names_view(p@)),
    }
}

pub open spec fn value_view(v: Value) -> SpecValue
    decreases v, 0nat,
{
    match v {
        Value::String { string, is_block } => SpecValue::Str { string: string@, is_block },
        Value::Item(item) => SpecValue::Item(item_view(item)),
    }
}

pub open spec fn item_view(i: Item) -> SpecItem
    decreases i, 0nat,
{
    SpecItem { name: ident_view(i.name), args: args_view(i.args@), block: block_view(i.block) }
}

pub open spec fn args_view(args: Seq<ItemArg>) -> Seq<SpecArg>
    decreases args, 0nat,
{
    if args.len() == 0 {
        Seq::empty()
    } else {
        args_view(args.drop_last()).push(
            SpecArg { tag: opt_view(args.last().tag), value: value_view(args.last().value) },
        )
    }
}

pub open spec fn opt_view(t: Option<String>) -> Option<Seq<char>> {
    match t {
        Some(s) => Some(s@),
        None => None,
    }
}

pub open spec fn values_view(vs: Seq<Value>) -> Seq<SpecValue>
    decreases vs, 0nat,
{
    if vs.len() == 0 {
        Seq::empty()
    } else {
        values_view(vs.drop_last()).push(value_view(vs.last()))
    }
}

pub open spec fn block_view(b: Block) -> SpecBlock
    decreases b, 0nat,
{
    SpecBlock { statements: statements_view(b.statements@) }
}

pub open spec fn statements_view(ss: Seq<Statement>) -> Seq<SpecStatement>
    decreases ss, 0nat,
{
    if ss.len() == 0 {
        Seq::empty()
    } else {
        statements_view(ss.drop_last()).push(statement_view(ss.last()))
    }
}

pub open spec fn statement_view(s: Statement) -> SpecStatement
    decreases s, 0nat,
{
    SpecStatement { attributes: attributes_view(s.attributes@), items: values_view(s.items@) }
}

pub open spec fn attributes_view(attrs: Seq<(String, Vec<Value>)>) -> Seq<(Seq<char>, Seq<SpecValue>)>
    decreases attrs, 0nat,
{
    if attrs.len() == 0 {
        Seq::empty()
    } else {
        attributes_view(attrs.drop_last()).push((attrs.last().0@, values_view(attrs.last().1@)))
    }
}

impl View for Ident {
    type V = SpecIdent;

    open spec fn view(&self) -> SpecIdent {
        ident_view(*self)
    }
}

impl View for Value {
    type V = SpecValue;

    open spec fn view(&self) -> SpecValue {
        value_view(*self)
    }
}

impl View for Item {
    type V = SpecItem;

    open spec fn view(&self) -> SpecItem {
        item_view(*self)
    }
}

impl View for ItemArg {
    type V = SpecArg;

    open spec fn view(&self) -> SpecArg {
        SpecArg { tag: opt_view(self.tag), value: value_view(self.value) }
    }
}

impl View for Block {
    type V = SpecBlock;

    open spec fn view(&self) -> SpecBlock {
        block_view(*self)
    }
}

impl View for Statement {
    type V = SpecStatement;

    open spec fn view(&self) -> SpecStatement {
        statement_view(*self)
    }
}

pub proof fn lemma_attributes_view_index(v: Seq<(String, Vec<Value>)>)
    ensures
        attributes_view(v).len() == v.len(),
        forall|k: int|
            0 <= k < v.len() ==> #[trigger] attributes_view(v)[k] == (v[k].0@, values_view(v[k].1@)),
    decreases v.len(),
{
    if v.len() > 0 {
        lemma_attributes_view_index(v.drop_last());
        assert forall|k: int| 0 <= k < v.len() - 1 implies v.drop_last()[k] == v[k] by {}
    }
}

pub proof fn lemma_values_view_index(v: Seq<Value>)
    ensures
        values_view(v).len() == v.len(),
        forall|k: int| 0 <= k < v.len() ==> #[trigger] values_view(v)[k] == v[k]@,
    decreases v.len(),
{
    if v.len() > 0 {
        lemma_values_view_index(v.drop_last());
        assert forall|k: int| 0 <= k < v.len() - 1 implies v.drop_last()[k] == v[k] by {}
    }
}

pub proof fn lemma_args_view_index(v: Seq<ItemArg>)
    ensures
        args_view(v).len() == v.len(),
        forall|k: int| 0 <= k < v.len() ==> #[trigger] args_view(v)[k] == v[k]@,
    decreases v.len(),
{
    if v.len() > 0 {
        lemma_args_view_index(v.drop_last());
        assert forall|k: int| 0 <= k < v.len() - 1 implies v.drop_last()[k] == v[k] by {}
    }
}

pub proof fn lemma_statements_view_index(v: Seq<Statement>)
    ensures
        statements_view(v).len() == v.len(),
        forall|k: int| 0 <= k < v.len() ==> #[trigger] statements_view(v)[k] == v[k]@,
    decreases v.len(),
{
    if v.len() > 0 {
        lemma_statements_view_index(v.drop_last());
        assert forall|k: int| 0 <= k < v.len() - 1 implies v.drop_last()[k] == v[k] by {}
    }
}

/// The position of the first argument of `args` tagged `tag`.
pub open spec fn tag_position(args: Seq<ItemArg>, tag: Seq<char>) -> Option<int>
    decreases args.len(),
{
    if args.len() == 0 {
        None
    } else {
        match tag_position(args.drop_last(), tag) {
            Some(i) => Some(i),
            None => if opt_view(args.last().tag) == Some(tag) {
                Some(args.len() - 1)
            } else {
                None
            },
        }
    }
}

/// The position of the first attribute of `attrs` named `name`.
pub open spec fn attribute_position(attrs: Seq<(String, Vec<Value>)>, name: Seq<char>) -> Option<int>
    decreases attrs.len(),
{
    if attrs.len() == 0 {
        None
    } else {
        match attribute_position(attrs.drop_last(), name) {
            Some(i) => Some(i),
            None => if attrs.last().0@ == name {
                Some(attrs.len() - 1)
            } else {
                None
            },
        }
    }
}

pub proof fn lemma_tag_position(args: Seq<ItemArg>, tag: Seq<char>)
    ensures
        tag_position(args, tag) is None <==> forall|i: int|
            0 <= i < args.len() ==> opt_view(#[trigger] args[i].tag) != Some(tag),
        tag_position(args, tag) matches Some(i) ==> 0 <= i < args.len() && opt_view(args[i].tag)
            == Some(tag) && forall|j: int| 0 <= j < i ==> opt_view(#[trigger] args[j].tag) != Some(tag),
    decreases args.len(),
{
    if args.len() > 0 {
        lemma_tag_position(args.drop_last(), tag);
        assert forall|i: int| 0 <= i < args.len() - 1 implies args.drop_last()[i] == args[i] by {}
    }
}

pub proof fn lemma_attribute_position(attrs: Seq<(String, Vec<Value>)>, name: Seq<char>)
    ensures
        attribute_position(attrs, name) is None <==> forall|i: int|
            0 <= i < attrs.len() ==> (#[trigger] attrs[i]).0@ != name,
        attribute_position(attrs, name) matches Some(i) ==> 0 <= i < attrs.len() && attrs[i].0@
            == name && forall|j: int| 0 <= j < i ==> (#[trigger] attrs[j]).0@ != name,
    decreases attrs.len(),
{
    if attrs.len() > 0 {
        lemma_attribute_position(attrs.drop_last(), name);
        assert forall|i: int| 0 <= i < attrs.len() - 1 implies attrs.drop_last()[i] == attrs[i] by {}
    }
}

fn str_eq(a: &str, b: &str) -> (res: bool)
    ensures
        res == (a@ == b@),
{
    a.to_owned() == b.to_owned()
}

impl Block {
    /// A block without statements.
    pub fn empty() -> (res: Block)
        ensures
            res.statements@ == Seq::<Statement>::empty(),
    {
        Block { statements: vec![] }
    }
}

impl Value {
    /// The item, if this value is one.
    pub fn item(&self) -> (res: Option<&Item>)
        ensures
            match *self {
                Value::Item(i) => res == Some(&i),
                _ => res is None,
            },
    {
        if let Value::Item(item) = self {
            Some(item)
        } else {
            None
        }
    }

    /// The text of the string, if this value is one (plain or block).
    pub fn string(&self) -> (res: Option<&str>)
        ensures
            match *self {
                Value::String { string, .. } => res matches Some(s) && s@ == string@,
                _ => res is None,
            },
    {
        if let Value::String { string, .. } = self {
            Some(string.as_str())
        } else {
            None
        }
    }

    /// The string of this value read as a field reference; `None` if the value
    /// is not a string or not a valid reference.
    pub fn field_reference(&self) -> (res: Option<FieldReference>)
        ensures
            match *self {
                Value::String { string, .. } => {
                    &&& res is Some <==> is_field_name(strip_up(string@))
                    &&& res matches Some(r) ==> r.up == count_up(string@) && r.name@ == strip_up(
                        string@,
                    )
                },
                _ => res is None,
            },
    {
        match self.string() {
            Some(string) => FieldReference::parse(string),
            None => None,
        }
    }
}

impl Ident {
    /// The name of a simple identifier.
    pub fn simple_str(&self) -> (res: Option<&str>)
        ensures
            match *self {
                Ident::Simple(s) => res matches Some(r) && r@ == s@,
                Ident::RootNs(_) => res is None,
            },
    {
        match self {
            Ident::Simple(string) => Some(string.as_str()),
            _ => None,
        }
    }
}

impl Item {
    /// The value of the argument at position `pos`.
    pub fn arg(&self, pos: usize) -> (res: Option<&Value>)
        ensures
            pos < self.args@.len() ==> res == Some(&self.args@[pos as int].value),
            pos >= self.args@.len() ==> res is None,
    {
        if pos < self.args.len() {
            Some(&self.args[pos].value)
        } else {
            None
        }
    }

    /// The value of the first argument tagged `tag`.
    pub fn tagged_arg(&self, tag: &str) -> (res: Option<&Value>)
        ensures
            match tag_position(self.args@, tag@) {
                Some(i) => res == Some(&self.args@[i].value),
                None => res is None,
            },
    {
        let mut i: usize = 0;
        while i < self.args.len()
            invariant
                i <= self.args@.len(),
                tag_position(self.args@.take(i as int), tag@) is None,
            decreases self.args@.len() - i,
        {
            proof {
                assert(self.args@.take(i + 1).drop_last() =~= self.args@.take(i as int));
            }
            if let Some(t) = &self.args[i].tag {
                if str_eq(t.as_str(), tag) {
                    proof {
                        lemma_tag_position(self.args@, tag@);
                        lemma_tag_position(self.args@.take(i + 1), tag@);
                        assert(self.args@.take(i + 1)[i as int] == self.args@[i as int]);
                        if tag_position(self.args@, tag@) != Some(i as int) {
                            let k = tag_position(self.args@, tag@)->0;
                            assert(self.args@.take(i as int)[k] == self.args@[k]);
                        }
                    }
                    return Some(&self.args[i].value);
                }
            }
            i += 1;
        }
        proof {
            assert(self.args@.take(i as int) =~= self.args@);
        }
        None
    }
}

impl Statement {
    /// The values of the attribute named `name`.
    pub fn attribute(&self, name: &str) -> (res: Option<&Vec<Value>>)
        ensures
            match attribute_position(self.attributes@, name@) {
                Some(i) => res == Some(&self.attributes@[i].1),
                None => res is None,
            },
    {
        let mut i: usize = 0;
        while i < self.attributes.len()
            invariant
                i <= self.attributes@.len(),
                attribute_position(self.attributes@.take(i as int), name@) is None,
            decreases self.attributes@.len() - i,
        {
            proof {
                assert(self.attributes@.take(i + 1).drop_last() =~= self.attributes@.take(i as int));
            }
            if str_eq(self.attributes[i].0.as_str(), name) {
                proof {
                    lemma_attribute_position(self.attributes@, name@);
                    lemma_attribute_position(self.attributes@.take(i + 1), name@);
                    assert(self.attributes@.take(i + 1)[i as int] == self.attributes@[i as int]);
                    if attribute_position(self.attributes@, name@) != Some(i as int) {
                        let k = attribute_position(self.attributes@, name@)->0;
                        assert(self.attributes@.take(i as int)[k] == self.attributes@[k]);
                    }
                }
                return Some(&self.attributes[i].1);
            }
            i += 1;
        }
        proof {
            assert(self.attributes@.take(i as int) =~= self.attributes@);
        }
        None
    }
}

impl ItemArg {
    /// An untagged argument.
    pub fn new(val: Value) -> (res: ItemArg)
        ensures
            res.tag is None,
            res.value == val,
    {
        ItemArg { tag: None, value: val }
    }

    /// A tagged argument.
    pub fn with_tag(tag: String, val: Value) -> (res: ItemArg)
        ensures
            res.tag == Some(tag),
            res.value == val,
    {
        ItemArg { tag: Some(tag), value: val }
    }
}

impl From<Value> for ItemArg {
    fn from(item: Value) -> (res: ItemArg) {
        ItemArg::new(item)
    }
}

impl vstd::std_specs::convert::FromSpecImpl<Value> for ItemArg {
    open spec fn obeys_from_spec() -> bool {
        true
    }

    open spec fn from_spec(item: Value) -> ItemArg {
        ItemArg { tag: None, value: item }
    }
}

} // verus!
