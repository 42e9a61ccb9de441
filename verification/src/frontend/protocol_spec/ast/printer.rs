//! Writes a syntax tree back out as PDS text.
//!
//! Statements are written one per line, indented by four spaces per level of
//! nesting; each attribute stands on a line of its own before its statement.
//! Block strings cannot be written.

use vstd::prelude::*;

use super::{
    Block, Ident, Item, ItemArg, SpecArg, SpecBlock, SpecIdent, SpecItem, SpecStatement,
    SpecValue, Statement, Value, args_view, lemma_args_view_index, lemma_attributes_view_index,
    lemma_statements_view_index, lemma_values_view_index, names_view, statements_view, values_view,
};
use crate::text::{indent, pad_level};

verus! {

/// `"::"` followed by each segment of a root path.
pub open spec fn path_text(p: Seq<Seq<char>>) -> Seq<char>
    decreases p.len(),
{
    if p.len() == 0 {
        Seq::empty()
    } else {
        seq![':', ':'] + p[0] + path_text(p.drop_first())
    }
}

/// The written form of an identifier.
pub open spec fn ident_text(id: SpecIdent) -> Seq<char> {
    match id {
        SpecIdent::Simple(n) => n,
        SpecIdent::RootNs(p) => path_text(p),
    }
}

/// The written form of a value whose statement stands at indentation `level`.
pub open spec fn value_text(v: SpecValue, level: nat) -> Seq<char>
    decreases v, 0nat,
{
    match v {
        SpecValue::Str { string, .. } => seq!['"'] + string + seq!['"'],
        SpecValue::Item(it) => item_text(it, level),
    }
}

/// An item: its identifier, its arguments in parentheses when it has any, and
/// its block in braces when the block has statements.
pub open spec fn item_text(it: SpecItem, level: nat) -> Seq<char>
    decreases it, 0nat,
{
    ident_text(it.name) + (if it.args.len() > 0 {
        seq!['('] + args_text(it.args, level) + seq![')']
    } else {
        Seq::empty()
    }) + (if it.block.statements.len() > 0 {
        seq![' ', '{', '\n'] + statements_text(it.block.statements, level + 1) + indent(level)
            + seq!['}']
    } else {
        Seq::empty()
    })
}

/// An argument: `tag: value`, or the value alone.
pub open spec fn arg_text(a: SpecArg, level: nat) -> Seq<char>
    decreases a, 0nat,
{
    match a.tag {
        Some(t) => t + seq![':', ' '] + value_text(a.value, level),
        None => value_text(a.value, level),
    }
}

/// Arguments separated by `", "`.
pub open spec fn args_text(args: Seq<SpecArg>, level: nat) -> Seq<char>
    decreases args, 1nat,
{
    if args.len() == 0 {
        Seq::empty()
    } else {
        arg_text(args[0], level) + args_tail(args.drop_first(), level)
    }
}

/// Each argument preceded by `", "`.
pub open spec fn args_tail(args: Seq<SpecArg>, level: nat) -> Seq<char>
    decreases args, 0nat,
{
    if args.len() == 0 {
        Seq::empty()
    } else {
        seq![',', ' '] + arg_text(args[0], level) + args_tail(args.drop_first(), level)
    }
}

/// Values joined by `" => "`.
pub open spec fn chain_text(vs: Seq<SpecValue>, level: nat) -> Seq<char>
    decreases vs, 1nat,
{
    if vs.len() == 0 {
        Seq::empty()
    } else {
        value_text(vs[0], level) + chain_tail(vs.drop_first(), level)
    }
}

/// Each value preceded by `" => "`.
pub open spec fn chain_tail(vs: Seq<SpecValue>, level: nat) -> Seq<char>
    decreases vs, 0nat,
{
    if vs.len() == 0 {
        Seq::empty()
    } else {
        seq![' ', '=', '>', ' '] + value_text(vs[0], level) + chain_tail(vs.drop_first(), level)
    }
}

/// An attribute on a line of its own: `@name values`.
pub open spec fn attribute_text(a: (Seq<char>, Seq<SpecValue>), level: nat) -> Seq<char>
    decreases a, 0nat,
{
    indent(level) + seq!['@'] + a.0 + seq![' '] + chain_text(a.1, level) + seq!['\n']
}

/// Attributes one after another.
pub open spec fn attributes_text(attrs: Seq<(Seq<char>, Seq<SpecValue>)>, level: nat) -> Seq<char>
    decreases attrs, 0nat,
{
    if attrs.len() == 0 {
        Seq::empty()
    } else {
        attribute_text(attrs[0], level) + attributes_text(attrs.drop_first(), level)
    }
}

/// A statement: its attributes, then its values on one line, ended by `;`.
pub open spec fn statement_text(st: SpecStatement, level: nat) -> Seq<char>
    decreases st, 0nat,
{
    attributes_text(st.attributes, level) + indent(level) + chain_text(st.items, level) + seq![
        ';',
        '\n',
    ]
}

/// Statements one after another.
pub open spec fn statements_text(ss: Seq<SpecStatement>, level: nat) -> Seq<char>
    decreases ss, 0nat,
{
    if ss.len() == 0 {
        Seq::empty()
    } else {
        statement_text(ss[0], level) + statements_text(ss.drop_first(), level)
    }
}

/// The written form of a whole file.
pub open spec fn print_text(b: SpecBlock) -> Seq<char> {
    statements_text(b.statements, 0)
}

/// A value can be written at indentation `level`: it holds no block string,
/// and its nesting keeps the indentation within `u64`.
pub open spec fn value_printable(v: SpecValue, level: nat) -> bool
    decreases v, 0nat,
{
    match v {
        SpecValue::Str { is_block, .. } => !is_block,
        SpecValue::Item(it) => item_printable(it, level),
    }
}

/// An item can be written at indentation `level`.
pub open spec fn item_printable(it: SpecItem, level: nat) -> bool
    decreases it, 0nat,
{
    &&& forall|k: int| 0 <= k < it.args.len() ==> value_printable(#[trigger] it.args[k].value, level)
    &&& it.block.statements.len() > 0 ==> level < u64::MAX
    &&& forall|k: int|
        0 <= k < it.block.statements.len() ==> statement_printable(
            #[trigger] it.block.statements[k],
            level + 1,
        )
}

/// A statement can be written at indentation `level`.
pub open spec fn statement_printable(st: SpecStatement, level: nat) -> bool
    decreases st, 0nat,
{
    &&& forall|k: int, m: int|
        0 <= k < st.attributes.len() && 0 <= m < st.attributes[k].1.len() ==> value_printable(
            #[trigger] st.attributes[k].1[m],
            level,
        )
    &&& forall|k: int| 0 <= k < st.items.len() ==> value_printable(#[trigger] st.items[k], level)
}

/// A whole file can be written.
pub open spec fn block_printable(b: SpecBlock) -> bool {
    forall|k: int| 0 <= k < b.statements.len() ==> statement_printable(#[trigger] b.statements[k], 0)
}

/// Writes `block` as PDS text, one statement per line.
pub fn print(block: &Block) -> (res: String)
    requires
        block_printable(block@),
    ensures
        res@ == print_text(block@),
{
    let mut out = String::new();
    print_block(block, &mut out, 0);
    out
}

fn print_block(block: &Block, out: &mut String, level: u64)
    requires
        forall|k: int|
            0 <= k < block@.statements.len() ==> statement_printable(
                #[trigger] block@.statements[k],
                level as nat,
            ),
    ensures
        final(out)@ == old(out)@ + statements_text(block@.statements, level as nat),
    decreases block, 1nat,
{
    let ghost v = block@.statements;
    let ghost target = old(out)@ + statements_text(v, level as nat);
    proof {
        lemma_statements_view_index(block.statements@);
        assert(v.subrange(0, v.len() as int) =~= v);
    }
    let mut i: usize = 0;
    while i < block.statements.len()
        invariant
            v == statements_view(block.statements@),
            v.len() == block.statements@.len(),
            forall|k: int| 0 <= k < v.len() ==> #[trigger] v[k] == block.statements@[k]@,
            forall|k: int| 0 <= k < v.len() ==> statement_printable(#[trigger] v[k], level as nat),
            i <= v.len(),
            out@ + statements_text(v.subrange(i as int, v.len() as int), level as nat) == target,
        decreases v.len() - i,
    {
        let ghost rest = v.subrange(i as int, v.len() as int);
        proof {
            assert(rest.drop_first() =~= v.subrange(i + 1, v.len() as int));
            assert(rest[0] == v[i as int]);
        }
        print_statement(&block.statements[i], out, level);
        proof {
            assert(out@ + statements_text(v.subrange(i + 1, v.len() as int), level as nat)
                =~= target);
        }
        i += 1;
    }
    proof {
        assert(out@ + statements_text(v.subrange(i as int, v.len() as int), level as nat) =~= out@);
    }
}

fn print_statement(stmt: &Statement, out: &mut String, level: u64)
    requires
        statement_printable(stmt@, level as nat),
    ensures
        final(out)@ == old(out)@ + statement_text(stmt@, level as nat),
    decreases stmt, 1nat,
{
    let ghost st = stmt@;
    let ghost v = st.attributes;
    let ghost target = old(out)@ + attributes_text(v, level as nat);
    proof {
        lemma_attributes_view_index(stmt.attributes@);
        lemma_values_view_index(stmt.items@);
        assert(v.subrange(0, v.len() as int) =~= v);
    }
    let mut i: usize = 0;
    while i < stmt.attributes.len()
        invariant
            st == stmt@,
            v == st.attributes,
            v.len() == stmt.attributes@.len(),
            forall|k: int|
                0 <= k < v.len() ==> #[trigger] v[k] == (
                    stmt.attributes@[k].0@,
                    values_view(stmt.attributes@[k].1@),
                ),
            statement_printable(st, level as nat),
            i <= v.len(),
            out@ + attributes_text(v.subrange(i as int, v.len() as int), level as nat) == target,
        decreases v.len() - i,
    {
        let ghost rest = v.subrange(i as int, v.len() as int);
        proof {
            assert(rest.drop_first() =~= v.subrange(i + 1, v.len() as int));
            assert(rest[0] == v[i as int]);
            lemma_values_view_index(stmt.attributes@[i as int].1@);
            assert forall|m: int|
                0 <= m < values_view(stmt.attributes@[i as int].1@).len() implies value_printable(
                #[trigger] values_view(stmt.attributes@[i as int].1@)[m],
                level as nat,
            ) by {
                assert(v[i as int].1[m] == values_view(stmt.attributes@[i as int].1@)[m]);
            }
        }
        let ghost before = out@;
        pad_level(out, level);
        out.append("@");
        out.append(stmt.attributes[i].0.as_str());
        out.append(" ");
        print_values(&stmt.attributes[i].1, out, level);
        out.append("\n");
        proof {
            reveal_strlit("@");
            reveal_strlit(" ");
            reveal_strlit("\n");
            assert(out@ =~= before + attribute_text(v[i as int], level as nat));
            let a = attribute_text(v[i as int], level as nat);
            let r = attributes_text(v.subrange(i + 1, v.len() as int), level as nat);
            assert(attributes_text(rest, level as nat) == a + r);
            assert((before + a) + r =~= before + (a + r));
        }
        i += 1;
    }
    proof {
        assert(out@ + attributes_text(v.subrange(i as int, v.len() as int), level as nat) =~= out@);
    }
    proof {
        assert(st.items == values_view(stmt.items@));
    }
    pad_level(out, level);
    print_values(&stmt.items, out, level);
    out.append(";\n");
    proof {
        reveal_strlit(";\n");
        assert(out@ =~= old(out)@ + statement_text(st, level as nat));
    }
}

/// Writes values joined by `" => "`.
fn print_values(values: &Vec<Value>, out: &mut String, level: u64)
    requires
        forall|k: int|
            0 <= k < values_view(values@).len() ==> value_printable(
                #[trigger] values_view(values@)[k],
                level as nat,
            ),
    ensures
        final(out)@ == old(out)@ + chain_text(values_view(values@), level as nat),
    decreases values, 1nat,
{
    let ghost v = values_view(values@);
    let ghost target = old(out)@ + chain_text(v, level as nat);
    proof {
        lemma_values_view_index(values@);
    }
    if values.len() == 0 {
        proof {
            assert(out@ =~= target);
        }
        return;
    }
    print_value(&values[0], out, level);
    proof {
        assert(v.drop_first() =~= v.subrange(1, v.len() as int));
    }
    let mut i: usize = 1;
    while i < values.len()
        invariant
            v == values_view(values@),
            v.len() == values@.len(),
            forall|k: int| 0 <= k < v.len() ==> #[trigger] v[k] == values@[k]@,
            forall|k: int| 0 <= k < v.len() ==> value_printable(#[trigger] v[k], level as nat),
            1 <= i <= v.len(),
            out@ + chain_tail(v.subrange(i as int, v.len() as int), level as nat) == target,
        decreases v.len() - i,
    {
        let ghost rest = v.subrange(i as int, v.len() as int);
        proof {
            assert(rest.drop_first() =~= v.subrange(i + 1, v.len() as int));
            assert(rest[0] == v[i as int]);
        }
        out.append(" => ");
        print_value(&values[i], out, level);
        proof {
            reveal_strlit(" => ");
            assert(out@ + chain_tail(v.subrange(i + 1, v.len() as int), level as nat) =~= target);
        }
        i += 1;
    }
    proof {
        assert(out@ + chain_tail(v.subrange(i as int, v.len() as int), level as nat) =~= out@);
    }
}

/// Writes arguments separated by `", "`.
fn print_args(args: &Vec<ItemArg>, out: &mut String, level: u64)
    requires
        forall|k: int|
            0 <= k < args_view(args@).len() ==> value_printable(
                #[trigger] args_view(args@)[k].value,
                level as nat,
            ),
    ensures
        final(out)@ == old(out)@ + args_text(args_view(args@), level as nat),
    decreases args, 1nat,
{
    let ghost v = args_view(args@);
    let ghost target = old(out)@ + args_text(v, level as nat);
    proof {
        lemma_args_view_index(args@);
    }
    if args.len() == 0 {
        proof {
            assert(out@ =~= target);
        }
        return;
    }
    print_arg(&args[0], out, level);
    proof {
        assert(v.drop_first() =~= v.subrange(1, v.len() as int));
    }
    let mut i: usize = 1;
    while i < args.len()
        invariant
            v == args_view(args@),
            v.len() == args@.len(),
            forall|k: int| 0 <= k < v.len() ==> #[trigger] v[k] == args@[k]@,
            forall|k: int| 0 <= k < v.len() ==> value_printable(#[trigger] v[k].value, level as nat),
            1 <= i <= v.len(),
            out@ + args_tail(v.subrange(i as int, v.len() as int), level as nat) == target,
        decreases v.len() - i,
    {
        let ghost rest = v.subrange(i as int, v.len() as int);
        proof {
            assert(rest.drop_first() =~= v.subrange(i + 1, v.len() as int));
            assert(rest[0] == v[i as int]);
        }
        out.append(", ");
        print_arg(&args[i], out, level);
        proof {
            reveal_strlit(", ");
            assert(out@ + args_tail(v.subrange(i + 1, v.len() as int), level as nat) =~= target);
        }
        i += 1;
    }
    proof {
        assert(out@ + args_tail(v.subrange(i as int, v.len() as int), level as nat) =~= out@);
    }
}

fn print_arg(arg: &ItemArg, out: &mut String, level: u64)
    requires
        value_printable(arg@.value, level as nat),
    ensures
        final(out)@ == old(out)@ + arg_text(arg@, level as nat),
    decreases arg, 1nat,
{
    if let Some(tag) = &arg.tag {
        out.append(tag.as_str());
        out.append(": ");
        proof {
            reveal_strlit(": ");
        }
    }
    print_value(&arg.value, out, level);
    proof {
        assert(out@ =~= old(out)@ + arg_text(arg@, level as nat));
    }
}

fn print_value(value: &Value, out: &mut String, level: u64)
    requires
        value_printable(value@, level as nat),
    ensures
        final(out)@ == old(out)@ + value_text(value@, level as nat),
    decreases value, 1nat,
{
    match value {
        Value::String { string, .. } => {
            out.append("\"");
            out.append(string.as_str());
            out.append("\"");
            proof {
                reveal_strlit("\"");
                assert(out@ =~= old(out)@ + value_text(value@, level as nat));
            }
        },
        Value::Item(item) => {
            print_item(item, out, level);
        },
    }
}

fn print_item(item: &Item, out: &mut String, level: u64)
    requires
        item_printable(item@, level as nat),
    ensures
        final(out)@ == old(out)@ + item_text(item@, level as nat),
    decreases item, 1nat,
{
    let ghost it = item@;
    proof {
        lemma_args_view_index(item.args@);
        lemma_statements_view_index(item.block.statements@);
    }
    print_ident(&item.name, out, level);
    let ghost after_name = out@;
    if item.args.len() != 0 {
        out.append("(");
        print_args(&item.args, out, level);
        out.append(")");
        proof {
            reveal_strlit("(");
            reveal_strlit(")");
        }
    }
    let ghost after_args = out@;
    if item.block.statements.len() != 0 {
        proof {
            assert(it.block == item.block@);
        }
        out.append(" {\n");
        print_block(&item.block, out, level + 1);
        pad_level(out, level);
        out.append("}");
        proof {
            reveal_strlit(" {\n");
            reveal_strlit("}");
        }
    }
    proof {
        assert(out@ =~= old(out)@ + item_text(it, level as nat));
    }
}

fn print_ident(ident: &Ident, out: &mut String, _level: u64)
    ensures
        final(out)@ == old(out)@ + ident_text(ident@),
{
    match ident {
        Ident::Simple(string) => {
            out.append(string.as_str());
        },
        Ident::RootNs(path) => {
            let ghost p = names_view(path@);
            let ghost target = old(out)@ + path_text(p);
            proof {
                assert(p.subrange(0, p.len() as int) =~= p);
            }
            let mut i: usize = 0;
            while i < path.len()
                invariant
                    p == names_view(path@),
                    i <= p.len(),
                    out@ + path_text(p.subrange(i as int, p.len() as int)) == target,
                decreases p.len() - i,
            {
                let ghost rest = p.subrange(i as int, p.len() as int);
                proof {
                    assert(rest.drop_first() =~= p.subrange(i + 1, p.len() as int));
                    assert(rest[0] == path@[i as int]@);
                }
                out.append("::");
                out.append(path[i].as_str());
                proof {
                    reveal_strlit("::");
                    assert(out@ + path_text(p.subrange(i + 1, p.len() as int)) =~= target);
                }
                i += 1;
            }
            proof {
                assert(out@ + path_text(p.subrange(i as int, p.len() as int)) =~= out@);
            }
        },
    }
}

} // verus!
