//! Written PDS text reads back as the tree it was written from.
//!
//! This holds for trees that the grammar can express: names are non-empty runs
//! of name characters, strings are plain, non-empty and free of `"`, every
//! statement and attribute has at least one value, the attribute names of a
//! statement differ, and no attribute ends in a bare root path (`::a`, without
//! arguments or block) right before a statement whose first value is an item
//! named by a root path: the reader would take the two paths for one.
//!
//! The reader takes a string only where it stands, with no whitespace before
//! it (except after an attribute's name and within arguments). So a string
//! may not follow `=>`, and a string may start a statement only when the
//! statement has no attributes and does not open a nested block, whose first
//! line follows a line break and indentation.

use vstd::prelude::*;

use super::grammar::{
    arg, arg_list, arg_list_more, attribute, attributes, body, char_at, file, find_char, ident,
    ident_end, is_ident_char, is_space, item, items, items_more, lemma_named_position,
    merge_attributes, name, named_position, parse_text, quoted, root_path_more, skip_space,
    statement, triple_quote_at, value,
};
use super::printer::{
    arg_text, args_tail, args_text, attribute_text, attributes_text, chain_tail, chain_text,
    ident_text, item_text, path_text, print_text, statement_text, statements_text, value_text,
};
use super::{SpecArg, SpecBlock, SpecIdent, SpecItem, SpecStatement, SpecValue};
use crate::text::indent;

verus! {

/// A non-empty run of name characters.
pub open spec fn is_name(n: Seq<char>) -> bool {
    n.len() > 0 && forall|k: int| 0 <= k < n.len() ==> is_ident_char(#[trigger] n[k])
}

/// An identifier that reads back as itself once written.
pub open spec fn ident_wf(id: SpecIdent) -> bool {
    match id {
        SpecIdent::Simple(n) => is_name(n),
        SpecIdent::RootNs(p) => p.len() > 0 && forall|k: int| 0 <= k < p.len() ==> is_name(#[trigger] p[k]),
    }
}

/// An item named by a root path, without arguments or block.
pub open spec fn bare_root(v: SpecValue) -> bool {
    v matches SpecValue::Item(it) && it.name is RootNs && it.args.len() == 0
        && it.block.statements.len() == 0
}

/// An item named by a root path.
pub open spec fn starts_with_root(v: SpecValue) -> bool {
    v matches SpecValue::Item(it) && it.name is RootNs
}

/// A value that reads back as itself once written.
pub open spec fn value_wf(v: SpecValue) -> bool
    decreases v, 0nat,
{
    match v {
        SpecValue::Str { string, is_block } => !is_block && string.len() > 0 && forall|k: int|
            0 <= k < string.len() ==> #[trigger] string[k] != '"',
        SpecValue::Item(it) => item_wf(it),
    }
}

/// An item that reads back as itself once written.
pub open spec fn item_wf(it: SpecItem) -> bool
    decreases it, 0nat,
{
    &&& ident_wf(it.name)
    &&& forall|k: int| 0 <= k < it.args.len() ==> arg_wf(#[trigger] it.args[k])
    &&& forall|k: int|
        0 <= k < it.block.statements.len() ==> statement_wf(
            #[trigger] it.block.statements[k],
            k > 0,
        )
}

/// An argument that reads back as itself once written.
pub open spec fn arg_wf(a: SpecArg) -> bool
    decreases a, 0nat,
{
    &&& a.tag matches Some(t) ==> is_name(t)
    &&& value_wf(a.value)
}

/// A non-empty chain of values that read back as themselves; no string
/// follows `=>`.
pub open spec fn chain_wf(vs: Seq<SpecValue>) -> bool
    decreases vs, 0nat,
{
    &&& vs.len() > 0
    &&& forall|k: int| 0 <= k < vs.len() ==> value_wf(#[trigger] vs[k])
    &&& forall|k: int| 1 <= k < vs.len() ==> !(#[trigger] vs[k] is Str)
}

/// An attribute with a name and at least one value that reads back.
pub open spec fn attribute_wf(a: (Seq<char>, Seq<SpecValue>)) -> bool
    decreases a, 0nat,
{
    is_name(a.0) && chain_wf(a.1)
}

/// A statement that reads back as itself once written; `fresh` tells whether
/// the reader starts at the statement's first character rather than at the
/// whitespace before it.
pub open spec fn statement_wf(st: SpecStatement, fresh: bool) -> bool
    decreases st, 0nat,
{
    &&& chain_wf(st.items)
    &&& forall|k: int| 0 <= k < st.attributes.len() ==> attribute_wf(#[trigger] st.attributes[k])
    &&& forall|j: int, k: int|
        0 <= j < st.attributes.len() && 0 <= k < st.attributes.len() && j != k
            ==> #[trigger] st.attributes[j].0 != #[trigger] st.attributes[k].0
    &&& st.attributes.len() > 0 && bare_root(st.attributes.last().1.last())
        ==> !starts_with_root(st.items[0])
    &&& st.items[0] is Str ==> st.attributes.len() == 0 && fresh
}

/// A block that reads back as itself once written.
pub open spec fn block_wf(b: SpecBlock) -> bool {
    forall|k: int| 0 <= k < b.statements.len() ==> statement_wf(#[trigger] b.statements[k], true)
}

/// `t` stands in `s` at position `p`.
pub open spec fn placed(s: Seq<char>, p: int, t: Seq<char>) -> bool {
    0 <= p && p + t.len() <= s.len() && s.subrange(p, p + t.len()) == t
}

/// Every character of `s` from `i` up to `q` is whitespace.
pub open spec fn spaces_between(s: Seq<char>, i: int, q: int) -> bool {
    0 <= i <= q <= s.len() && forall|k: int| i <= k < q ==> is_space(#[trigger] s[k])
}

/// `::` stands at position `k`.
pub open spec fn double_colon_at(s: Seq<char>, k: int) -> bool {
    char_at(s, k, ':') && char_at(s, k + 1, ':')
}

/// `=>` stands at position `k`.
pub open spec fn arrow_at(s: Seq<char>, k: int) -> bool {
    char_at(s, k, '=') && char_at(s, k + 1, '>')
}

/// What follows position `e` ends the value `v` that stands before it.
pub open spec fn value_follow(v: SpecValue, s: Seq<char>, e: int) -> bool {
    let k = skip_space(s, e);
    &&& e < s.len() ==> !is_ident_char(s[e])
    &&& !char_at(s, k, '(')
    &&& !char_at(s, k, '{')
    &&& bare_root(v) ==> !double_colon_at(s, k)
}

proof fn lemma_punctuation()
    ensures
        !is_ident_char(':'),
        !is_ident_char('"'),
        !is_ident_char('('),
        !is_ident_char(')'),
        !is_ident_char(','),
        !is_ident_char(' '),
        !is_ident_char('\n'),
        !is_ident_char(';'),
        !is_ident_char('@'),
        !is_ident_char('{'),
        !is_ident_char('}'),
        !is_ident_char('='),
        !is_ident_char('>'),
        !is_ident_char('\r'),
        !is_ident_char('\t'),
        is_space(' '),
        is_space('\n'),
{
}

proof fn lemma_placed_split(s: Seq<char>, p: int, a: Seq<char>, b: Seq<char>)
    requires
        placed(s, p, a + b),
    ensures
        placed(s, p, a),
        placed(s, p + a.len(), b),
{
    let t = a + b;
    assert forall|k: int| 0 <= k < t.len() implies s[p + k] == #[trigger] t[k] by {
        assert(s.subrange(p, p + t.len())[k] == s[p + k]);
    }
    assert forall|k: int| 0 <= k < a.len() implies #[trigger] s.subrange(p, p + a.len())[k]
        == a[k] by {
        assert(t[k] == a[k]);
    }
    assert(s.subrange(p, p + a.len()) =~= a);
    assert forall|k: int| 0 <= k < b.len() implies #[trigger] s.subrange(
        p + a.len(),
        p + a.len() + b.len(),
    )[k] == b[k] by {
        assert(t[a.len() + k] == b[k]);
    }
    assert(s.subrange(p + a.len(), p + a.len() + b.len()) =~= b);
}

proof fn lemma_placed_at(s: Seq<char>, p: int, t: Seq<char>, k: int)
    requires
        placed(s, p, t),
        0 <= k < t.len(),
    ensures
        s[p + k] == t[k],
{
    assert(s.subrange(p, p + t.len())[k] == s[p + k]);
}

proof fn lemma_skip_to(s: Seq<char>, i: int, q: int)
    requires
        spaces_between(s, i, q),
        q < s.len() ==> !is_space(s[q]),
    ensures
        skip_space(s, i) == q,
    decreases q - i,
{
    if i < q {
        lemma_skip_to(s, i + 1, q);
    }
}

proof fn lemma_ident_to(s: Seq<char>, i: int, q: int)
    requires
        0 <= i <= q <= s.len(),
        forall|k: int| i <= k < q ==> is_ident_char(#[trigger] s[k]),
        q < s.len() ==> !is_ident_char(s[q]),
    ensures
        ident_end(s, i) == q,
    decreases q - i,
{
    if i < q {
        lemma_ident_to(s, i + 1, q);
    }
}

proof fn lemma_find_to(s: Seq<char>, i: int, q: int, c: char)
    requires
        0 <= i <= q < s.len(),
        forall|k: int| i <= k < q ==> #[trigger] s[k] != c,
        s[q] == c,
    ensures
        find_char(s, i, c) == q,
    decreases q - i,
{
    if i < q {
        lemma_find_to(s, i + 1, q, c);
    }
}

/// A name written at `p` and followed by a non-name character reads back.
proof fn lemma_name_at(s: Seq<char>, p: int, n: Seq<char>)
    requires
        is_name(n),
        placed(s, p, n),
        p + n.len() < s.len() ==> !is_ident_char(s[p + n.len()]),
    ensures
        name(s, p) == Ok::<(Seq<char>, int), int>((n, p + n.len())),
{
    assert forall|k: int| p <= k < p + n.len() implies is_ident_char(#[trigger] s[k]) by {
        lemma_placed_at(s, p, n, k - p);
    }
    lemma_ident_to(s, p, p + n.len());
}

proof fn lemma_skip_fixed(s: Seq<char>, q: int)
    requires
        0 <= q <= s.len(),
        q < s.len() ==> !is_space(s[q]),
    ensures
        skip_space(s, q) == q,
{
}

proof fn lemma_root_path_more(path: Seq<Seq<char>>, s: Seq<char>, p: int)
    requires
        forall|k: int| 0 <= k < path.len() ==> is_name(#[trigger] path[k]),
        placed(s, p, path_text(path)),
        p + path_text(path).len() < s.len() ==> !is_ident_char(s[p + path_text(path).len()]),
        !double_colon_at(s, skip_space(s, p + path_text(path).len())),
    ensures
        root_path_more(s, p) == (path, p + path_text(path).len()),
    decreases path.len(),
{
    lemma_punctuation();
    if path.len() > 0 {
        let n = path[0];
        let rest = path.drop_first();
        let j = p + 2 + n.len();
        lemma_placed_split(s, p, seq![':', ':'] + n, path_text(rest));
        lemma_placed_split(s, p, seq![':', ':'], n);
        lemma_placed_at(s, p, seq![':', ':'], 0);
        lemma_placed_at(s, p, seq![':', ':'], 1);
        lemma_skip_fixed(s, p);
        if rest.len() > 0 {
            lemma_placed_at(s, j, path_text(rest), 0);
        }
        lemma_name_at(s, p + 2, n);
        lemma_root_path_more(rest, s, j);
        assert(seq![n] + rest =~= path);
    }
}

proof fn lemma_ident_parse(id: SpecIdent, s: Seq<char>, p: int)
    requires
        ident_wf(id),
        placed(s, p, ident_text(id)),
        p + ident_text(id).len() < s.len() ==> !is_ident_char(s[p + ident_text(id).len()]),
        id is RootNs ==> !double_colon_at(s, skip_space(s, p + ident_text(id).len())),
    ensures
        ident(s, p) == Ok::<(SpecIdent, int), int>((id, p + ident_text(id).len())),
{
    lemma_punctuation();
    match id {
        SpecIdent::Simple(n) => {
            lemma_name_at(s, p, n);
        },
        SpecIdent::RootNs(path) => {
            let n = path[0];
            let rest = path.drop_first();
            let j = p + 2 + n.len();
            lemma_placed_split(s, p, seq![':', ':'] + n, path_text(rest));
            lemma_placed_split(s, p, seq![':', ':'], n);
            lemma_placed_at(s, p, seq![':', ':'], 0);
            lemma_placed_at(s, p, seq![':', ':'], 1);
            assert(ident_end(s, p) == p);
            if rest.len() > 0 {
                lemma_placed_at(s, j, path_text(rest), 0);
            }
            lemma_name_at(s, p + 2, n);
            lemma_root_path_more(rest, s, j);
            assert(seq![n] + rest =~= path);
        },
    }
}

/// A character that can start a written value.
pub open spec fn starts_value(c: char) -> bool {
    c == '"' || c == ':' || is_ident_char(c)
}

proof fn lemma_starts_value(c: char)
    requires
        starts_value(c),
    ensures
        !is_space(c),
        c != '@',
        c != '(',
        c != '{',
        c != '=',
        c != '}',
{
    lemma_punctuation();
}

proof fn lemma_value_first(v: SpecValue, l: nat)
    requires
        value_wf(v),
    ensures
        value_text(v, l).len() > 0,
        starts_value(value_text(v, l)[0]),
        v is Str ==> value_text(v, l)[0] == '"',
        starts_with_root(v) <==> value_text(v, l)[0] == ':',
{
    lemma_punctuation();
    match v {
        SpecValue::Str { string, .. } => {},
        SpecValue::Item(it) => {
            let i = ident_text(it.name);
            assert(item_text(it, l) =~= i + (item_text(it, l).subrange(
                i.len() as int,
                item_text(it, l).len() as int,
            )));
            match it.name {
                SpecIdent::Simple(n) => {
                    assert(is_ident_char(n[0]));
                },
                SpecIdent::RootNs(path) => {
                    assert(i[0] == ':');
                },
            }
        },
    }
}

proof fn lemma_arg_first(a: SpecArg, l: nat)
    requires
        arg_wf(a),
    ensures
        arg_text(a, l).len() > 0,
        starts_value(arg_text(a, l)[0]),
{
    lemma_value_first(a.value, l);
    match a.tag {
        Some(t) => {
            assert(is_ident_char(t[0]));
        },
        None => {},
    }
}

proof fn lemma_value_parse(v: SpecValue, l: nat, s: Seq<char>, i: int, p: int)
    requires
        value_wf(v),
        spaces_between(s, i, p),
        v is Str ==> i == p,
        placed(s, p, value_text(v, l)),
        value_follow(v, s, p + value_text(v, l).len()),
    ensures
        value(s, i) == Ok::<(SpecValue, int), int>((v, p + value_text(v, l).len())),
    decreases v, 0nat,
{
    lemma_punctuation();
    let t = value_text(v, l);
    lemma_value_first(v, l);
    lemma_placed_at(s, p, t, 0);
    lemma_starts_value(t[0]);
    lemma_skip_to(s, i, p);
    match v {
        SpecValue::Str { string, is_block } => {
            let n = string.len();
            lemma_placed_split(s, p, seq!['"'] + string, seq!['"']);
            lemma_placed_split(s, p, seq!['"'], string);
            lemma_placed_at(s, p, t, 1);
            assert(t[1] == string[0]);
            assert(!triple_quote_at(s, p));
            assert forall|k: int| p + 1 <= k < p + 1 + n implies #[trigger] s[k] != '"' by {
                lemma_placed_at(s, p + 1, string, k - p - 1);
            }
            lemma_placed_at(s, p, t, n + 1int);
            lemma_find_to(s, p + 1, p + 1 + n, '"');
            assert(quoted(s, p) == Ok::<(SpecValue, int), int>((v, p + t.len())));
        },
        SpecValue::Item(it) => {
            if i < p {
                assert(is_space(s[i]));
            }
            assert(!triple_quote_at(s, i));
            assert(!char_at(s, i, '"'));
            lemma_item_parse(it, l, s, p);
        },
    }
}

/// The arguments part of a written item: `"(" args ")"`, or nothing.
pub open spec fn args_part(it: SpecItem, l: nat) -> Seq<char> {
    if it.args.len() > 0 {
        seq!['('] + args_text(it.args, l) + seq![')']
    } else {
        Seq::empty()
    }
}

/// The block part of a written item: `" {\n" statements indent "}"`, or nothing.
pub open spec fn block_part(it: SpecItem, l: nat) -> Seq<char> {
    if it.block.statements.len() > 0 {
        seq![' ', '{', '\n'] + statements_text(it.block.statements, l + 1) + indent(l) + seq!['}']
    } else {
        Seq::empty()
    }
}

proof fn lemma_item_args_part(it: SpecItem, l: nat, s: Seq<char>, p: int)
    requires
        item_wf(it),
        placed(s, p, item_text(it, l)),
        value_follow(SpecValue::Item(it), s, p + item_text(it, l).len()),
    ensures
        ({
            let j = p + ident_text(it.name).len();
            let k = skip_space(s, j);
            (if char_at(s, k, '(') {
                arg_list(s, k + 1)
            } else {
                Ok((Seq::<SpecArg>::empty(), j))
            }) == Ok::<(Seq<SpecArg>, int), int>((it.args, j + args_part(it, l).len()))
        }),
    decreases it, 0nat,
{
    lemma_punctuation();
    let id = ident_text(it.name);
    let at = args_part(it, l);
    let bt = block_part(it, l);
    assert(item_text(it, l) == id + at + bt);
    let j = p + id.len();
    let a = j + at.len();
    lemma_placed_split(s, p, id + at, bt);
    lemma_placed_split(s, p, id, at);
    if at.len() > 0 {
        lemma_placed_at(s, j, at, 0);
        lemma_skip_fixed(s, j);
        let inner = args_text(it.args, l) + seq![')'];
        assert(at =~= seq!['('] + inner);
        lemma_placed_split(s, j, seq!['('], inner);
        lemma_args_parse(it.args, l, s, j + 1);
    } else {
        if bt.len() > 0 {
            lemma_placed_at(s, a, bt, 0);
            lemma_placed_at(s, a, bt, 1);
            lemma_skip_to(s, a, a + 1);
        }
        assert(it.args =~= Seq::<SpecArg>::empty());
    }
}

#[verifier::spinoff_prover]
#[verifier::rlimit(50)]
proof fn lemma_item_block_part(it: SpecItem, l: nat, s: Seq<char>, p: int)
    requires
        item_wf(it),
        placed(s, p, item_text(it, l)),
        value_follow(SpecValue::Item(it), s, p + item_text(it, l).len()),
    ensures
        ({
            let a = p + ident_text(it.name).len() + args_part(it, l).len();
            let k = skip_space(s, a);
            &&& char_at(s, k, '{') <==> it.block.statements.len() > 0
            &&& it.block.statements.len() > 0 ==> body(s, k + 1) == Ok::<
                (Seq<SpecStatement>, int),
                int,
            >((it.block.statements, p + item_text(it, l).len()))
        }),
    decreases it, 0nat,
{
    lemma_punctuation();
    let id = ident_text(it.name);
    let at = args_part(it, l);
    let bt = block_part(it, l);
    assert(item_text(it, l) == id + at + bt);
    let a = p + id.len() + at.len();
    let e = a + bt.len();
    lemma_placed_split(s, p, id + at, bt);
    if bt.len() > 0 {
        lemma_braced_body_parse(it.block.statements, l, s, a);
    }
}

/// A block part ` {\n statements indent }` written at `a` reads back.
#[verifier::spinoff_prover]
#[verifier::rlimit(50)]
proof fn lemma_braced_body_parse(ss: Seq<SpecStatement>, l: nat, s: Seq<char>, a: int)
    requires
        ss.len() > 0,
        forall|k: int| 0 <= k < ss.len() ==> statement_wf(#[trigger] ss[k], k > 0),
        placed(
            s,
            a,
            seq![' ', '{', '\n'] + statements_text(ss, l + 1) + indent(l) + seq!['}'],
        ),
    ensures
        skip_space(s, a) == a + 1,
        char_at(s, a + 1, '{'),
        body(s, a + 2) == Ok::<(Seq<SpecStatement>, int), int>(
            (ss, a + statements_text(ss, l + 1).len() + 4 * l + 4),
        ),
    decreases ss, 1nat,
{
    lemma_punctuation();
    let bt = seq![' ', '{', '\n'] + statements_text(ss, l + 1) + indent(l) + seq!['}'];
    let e = a + bt.len();
    let st = statements_text(ss, l + 1);
    let close = indent(l) + seq!['}'];
    assert(bt =~= seq![' ', '{', '\n'] + (st + close));
    lemma_placed_split(s, a, seq![' ', '{', '\n'], st + close);
    lemma_placed_split(s, a + 3, st, close);
    lemma_placed_split(s, a + 3 + st.len(), indent(l), seq!['}']);
    lemma_placed_at(s, a, bt, 0);
    lemma_placed_at(s, a, bt, 1);
    lemma_placed_at(s, a, bt, 2);
    lemma_skip_to(s, a, a + 1);
    assert forall|k: int| a + 3 + st.len() <= k < e - 1 implies is_space(#[trigger] s[k]) by {
        lemma_placed_at(s, a + 3 + st.len(), indent(l), k - (a + 3 + st.len()));
    }
    lemma_placed_at(s, e - 1, seq!['}'], 0);
    let t0 = statement_text(ss[0], l + 1);
    lemma_placed_split(s, a + 3, t0, statements_text(ss.drop_first(), l + 1));
    lemma_statement_start(ss[0], l + 1, false);
    assert forall|k: int| a + 3 <= k < a + 3 + 4 * (l + 1) implies is_space(#[trigger] s[k]) by {
        lemma_placed_at(s, a + 3, t0, k - (a + 3));
    }
    assert(spaces_between(s, a + 2, a + 3 + 4 * (l + 1)));
    lemma_body_parse(ss, l + 1, s, a + 2, a + 3, e - 1);
}

#[verifier::spinoff_prover]
#[verifier::rlimit(50)]
proof fn lemma_item_parse(it: SpecItem, l: nat, s: Seq<char>, p: int)
    requires
        item_wf(it),
        placed(s, p, item_text(it, l)),
        value_follow(SpecValue::Item(it), s, p + item_text(it, l).len()),
    ensures
        item(s, p) == Ok::<(SpecItem, int), int>((it, p + item_text(it, l).len())),
    decreases it, 1nat,
{
    lemma_punctuation();
    let id = ident_text(it.name);
    let at = args_part(it, l);
    let bt = block_part(it, l);
    assert(item_text(it, l) == id + at + bt);
    let j = p + id.len();
    let a = j + at.len();
    lemma_placed_split(s, p, id + at, bt);
    lemma_placed_split(s, p, id, at);
    if at.len() > 0 {
        lemma_placed_at(s, j, at, 0);
        lemma_skip_fixed(s, j);
    } else if bt.len() > 0 {
        lemma_placed_at(s, a, bt, 0);
        lemma_placed_at(s, a, bt, 1);
        lemma_skip_to(s, a, a + 1);
    }
    match it.name {
        SpecIdent::Simple(n) => {},
        SpecIdent::RootNs(path) => {
            assert(id[0] == ':');
        },
    }
    lemma_ident_parse(it.name, s, p);
    lemma_item_args_part(it, l, s, p);
    lemma_item_block_part(it, l, s, p);
    if bt.len() == 0 {
        assert(it.block.statements =~= Seq::<SpecStatement>::empty());
    }
}

proof fn lemma_args_parse(args: Seq<SpecArg>, l: nat, s: Seq<char>, p: int)
    requires
        args.len() > 0,
        forall|k: int| 0 <= k < args.len() ==> arg_wf(#[trigger] args[k]),
        placed(s, p, args_text(args, l) + seq![')']),
    ensures
        arg_list(s, p) == Ok::<(Seq<SpecArg>, int), int>(
            (args, p + args_text(args, l).len() + 1),
        ),
    decreases args, 0nat,
{
    lemma_punctuation();
    let a0 = arg_text(args[0], l);
    let rest = args.drop_first();
    let tail = args_tail(rest, l) + seq![')'];
    assert(args_text(args, l) + seq![')'] =~= a0 + tail);
    lemma_placed_split(s, p, a0, tail);
    lemma_arg_first(args[0], l);
    if rest.len() > 0 {
        assert(tail[0] == ',');
    }
    lemma_placed_at(s, p + a0.len(), tail, 0);
    lemma_arg_parse(args[0], l, s, p, p);
    assert forall|k: int| 0 <= k < rest.len() implies arg_wf(#[trigger] rest[k]) by {
        assert(rest[k] == args[k + 1]);
    }
    lemma_args_more_parse(rest, l, s, p + a0.len());
    assert(seq![args[0]] + rest =~= args);
}

proof fn lemma_args_more_parse(args: Seq<SpecArg>, l: nat, s: Seq<char>, p: int)
    requires
        forall|k: int| 0 <= k < args.len() ==> arg_wf(#[trigger] args[k]),
        placed(s, p, args_tail(args, l) + seq![')']),
    ensures
        arg_list_more(s, p) == Ok::<(Seq<SpecArg>, int), int>(
            (args, p + args_tail(args, l).len() + 1),
        ),
    decreases args, 0nat,
{
    lemma_punctuation();
    let t = args_tail(args, l) + seq![')'];
    lemma_placed_at(s, p, t, 0);
    lemma_skip_fixed(s, p);
    if args.len() == 0 {
        assert(args =~= Seq::<SpecArg>::empty());
    } else {
        let a0 = arg_text(args[0], l);
        let rest = args.drop_first();
        let tail = args_tail(rest, l) + seq![')'];
        assert(t =~= seq![',', ' '] + (a0 + tail));
        lemma_placed_split(s, p, seq![',', ' '], a0 + tail);
        lemma_placed_split(s, p + 2, a0, tail);
        lemma_placed_at(s, p, seq![',', ' '], 1);
        lemma_arg_first(args[0], l);
        if rest.len() > 0 {
            assert(tail[0] == ',');
        }
        lemma_placed_at(s, p + 2 + a0.len(), tail, 0);
        lemma_arg_parse(args[0], l, s, p + 1, p + 2);
        assert forall|k: int| 0 <= k < rest.len() implies arg_wf(#[trigger] rest[k]) by {
            assert(rest[k] == args[k + 1]);
        }
        lemma_args_more_parse(rest, l, s, p + 2 + a0.len());
        assert(seq![args[0]] + rest =~= args);
    }
}

proof fn lemma_arg_parse(a: SpecArg, l: nat, s: Seq<char>, i: int, p: int)
    requires
        arg_wf(a),
        spaces_between(s, i, p),
        placed(s, p, arg_text(a, l)),
        p + arg_text(a, l).len() < s.len(),
        s[p + arg_text(a, l).len()] == ',' || s[p + arg_text(a, l).len()] == ')',
    ensures
        arg(s, i) == Ok::<(SpecArg, int), int>((a, p + arg_text(a, l).len())),
    decreases a, 0nat,
{
    lemma_punctuation();
    let t = arg_text(a, l);
    let e = p + t.len();
    lemma_arg_first(a, l);
    lemma_placed_at(s, p, t, 0);
    lemma_starts_value(t[0]);
    lemma_skip_to(s, i, p);
    lemma_skip_fixed(s, e);
    let vt = value_text(a.value, l);
    match a.tag {
        Some(tg) => {
            let n = tg.len();
            assert(t == tg + seq![':', ' '] + vt);
            lemma_placed_split(s, p, tg + seq![':', ' '], vt);
            lemma_placed_split(s, p, tg, seq![':', ' ']);
            lemma_placed_at(s, p + n, seq![':', ' '], 0);
            lemma_placed_at(s, p + n, seq![':', ' '], 1);
            assert forall|k: int| p <= k < p + n implies is_ident_char(#[trigger] s[k]) by {
                lemma_placed_at(s, p, tg, k - p);
            }
            lemma_ident_to(s, p, p + n);
            lemma_value_first(a.value, l);
            lemma_placed_at(s, p + n + 2, vt, 0);
            lemma_starts_value(vt[0]);
            lemma_skip_to(s, p + n + 1, p + n + 2);
            lemma_value_parse(a.value, l, s, p + n + 2, p + n + 2);
        },
        None => {
            assert(t == vt);
            match a.value {
                SpecValue::Str { .. } => {
                    assert(ident_end(s, p) == p);
                },
                SpecValue::Item(it) => {
                    match it.name {
                        SpecIdent::Simple(n) => {
                            let rest = t.subrange(n.len() as int, t.len() as int);
                            assert(t =~= n + rest);
                            lemma_placed_split(s, p, n, rest);
                            assert forall|k: int| p <= k < p + n.len() implies is_ident_char(
                                #[trigger] s[k],
                            ) by {
                                lemma_placed_at(s, p, n, k - p);
                            }
                            if rest.len() > 0 {
                                lemma_placed_at(s, p + n.len(), rest, 0);
                                if it.args.len() > 0 {
                                    assert(rest[0] == '(');
                                } else {
                                    assert(rest[0] == ' ');
                                }
                            }
                            lemma_ident_to(s, p, p + n.len());
                        },
                        SpecIdent::RootNs(_) => {
                            assert(ident_end(s, p) == p);
                        },
                    }
                },
            }
            lemma_value_parse(a.value, l, s, p, p);
        },
    }
}

proof fn lemma_chain_parse(vs: Seq<SpecValue>, l: nat, s: Seq<char>, i: int, p: int)
    requires
        chain_wf(vs),
        spaces_between(s, i, p),
        vs[0] is Str ==> i == p,
        placed(s, p, chain_text(vs, l)),
        value_follow(vs.last(), s, p + chain_text(vs, l).len()),
        !arrow_at(s, skip_space(s, p + chain_text(vs, l).len())),
    ensures
        items(s, i) == Ok::<(Seq<SpecValue>, int), int>((vs, p + chain_text(vs, l).len())),
    decreases vs, 0nat,
{
    lemma_punctuation();
    let v0 = value_text(vs[0], l);
    let rest = vs.drop_first();
    let tail = chain_tail(rest, l);
    lemma_placed_split(s, p, v0, tail);
    lemma_value_first(vs[0], l);
    let e0 = p + v0.len();
    if rest.len() > 0 {
        lemma_placed_at(s, e0, tail, 0);
        lemma_placed_at(s, e0, tail, 1);
        lemma_skip_to(s, e0, e0 + 1);
    } else {
        assert(vs.last() == vs[0]);
    }
    lemma_value_parse(vs[0], l, s, i, p);
    assert forall|k: int| 0 <= k < rest.len() implies value_wf(#[trigger] rest[k]) && !(
    rest[k] is Str) by {
        assert(rest[k] == vs[k + 1]);
    }
    if rest.len() > 0 {
        assert(rest.last() == vs.last());
    }
    lemma_chain_more_parse(rest, l, s, e0);
    assert(seq![vs[0]] + rest =~= vs);
}

proof fn lemma_chain_more_parse(vs: Seq<SpecValue>, l: nat, s: Seq<char>, p: int)
    requires
        forall|k: int| 0 <= k < vs.len() ==> value_wf(#[trigger] vs[k]) && !(vs[k] is Str),
        placed(s, p, chain_tail(vs, l)),
        vs.len() > 0 ==> value_follow(vs.last(), s, p + chain_tail(vs, l).len()),
        !arrow_at(s, skip_space(s, p + chain_tail(vs, l).len())),
    ensures
        items_more(s, p) == Ok::<(Seq<SpecValue>, int), int>((vs, p + chain_tail(vs, l).len())),
    decreases vs, 0nat,
{
    lemma_punctuation();
    if vs.len() == 0 {
        assert(vs =~= Seq::<SpecValue>::empty());
    } else {
        let v0 = value_text(vs[0], l);
        let rest = vs.drop_first();
        let tail = chain_tail(rest, l);
        let arrow = seq![' ', '=', '>', ' '];
        lemma_placed_split(s, p, arrow + v0, tail);
        lemma_placed_split(s, p, arrow, v0);
        lemma_placed_at(s, p, arrow, 0);
        lemma_placed_at(s, p, arrow, 1);
        lemma_placed_at(s, p, arrow, 2);
        lemma_placed_at(s, p, arrow, 3);
        lemma_skip_to(s, p, p + 1);
        lemma_value_first(vs[0], l);
        let e0 = p + 4 + v0.len();
        if rest.len() > 0 {
            lemma_placed_at(s, e0, tail, 0);
            lemma_placed_at(s, e0, tail, 1);
            lemma_skip_to(s, e0, e0 + 1);
        } else {
            assert(vs.last() == vs[0]);
        }
        lemma_value_parse(vs[0], l, s, p + 3, p + 4);
        assert forall|k: int| 0 <= k < rest.len() implies value_wf(#[trigger] rest[k]) && !(
        rest[k] is Str) by {
            assert(rest[k] == vs[k + 1]);
        }
        if rest.len() > 0 {
            assert(rest.last() == vs.last());
        }
        lemma_chain_more_parse(rest, l, s, e0);
        assert(seq![vs[0]] + rest =~= vs);
    }
}

/// What may follow the attributes of a statement, and what the last of them
/// needs of it.
pub open spec fn attributes_follow(
    attrs: Seq<(Seq<char>, Seq<SpecValue>)>,
    s: Seq<char>,
    e: int,
) -> bool {
    let k = skip_space(s, e);
    &&& !char_at(s, k, '(')
    &&& !char_at(s, k, '{')
    &&& !arrow_at(s, k)
    &&& bare_root(attrs.last().1.last()) ==> !double_colon_at(s, k)
}

proof fn lemma_attribute_parse(
    a: (Seq<char>, Seq<SpecValue>),
    l: nat,
    s: Seq<char>,
    i: int,
    p: int,
)
    requires
        attribute_wf(a),
        spaces_between(s, i, p + 4 * l),
        placed(s, p, attribute_text(a, l)),
        attributes_follow(seq![a], s, p + attribute_text(a, l).len()),
    ensures
        attribute(s, i) == Ok::<((Seq<char>, Seq<SpecValue>), int), int>(
            (a, p + attribute_text(a, l).len() - 1),
        ),
    decreases a, 0nat,
{
    lemma_punctuation();
    let ind = indent(l);
    let n = a.0;
    let ch = chain_text(a.1, l);
    let t = attribute_text(a, l);
    let q = p + 4 * l;
    let kk = q + 1 + n.len();
    let e = p + t.len();
    lemma_placed_split(s, p, ind + seq!['@'] + n + seq![' '] + ch, seq!['\n']);
    lemma_placed_split(s, p, ind + seq!['@'] + n + seq![' '], ch);
    lemma_placed_split(s, p, ind + seq!['@'] + n, seq![' ']);
    lemma_placed_split(s, p, ind + seq!['@'], n);
    lemma_placed_split(s, p, ind, seq!['@']);
    lemma_placed_at(s, q, seq!['@'], 0);
    lemma_placed_at(s, kk, seq![' '], 0);
    lemma_placed_at(s, e - 1, seq!['\n'], 0);
    lemma_skip_to(s, i, q);
    lemma_name_at(s, q + 1, n);
    assert(skip_space(s, e - 1) == skip_space(s, e));
    assert(seq![a].last().1.last() == a.1.last());
    let ch0 = chain_text(a.1, l);
    lemma_value_first(a.1[0], l);
    assert(ch0 == value_text(a.1[0], l) + chain_tail(a.1.drop_first(), l));
    lemma_placed_at(s, kk + 1, ch0, 0);
    lemma_starts_value(ch0[0]);
    lemma_skip_to(s, kk, kk + 1);
    lemma_chain_parse(a.1, l, s, kk + 1, kk + 1);
}

#[verifier::spinoff_prover]
#[verifier::rlimit(50)]
proof fn lemma_attributes_parse(
    attrs: Seq<(Seq<char>, Seq<SpecValue>)>,
    l: nat,
    s: Seq<char>,
    i: int,
    p: int,
)
    requires
        attrs.len() > 0,
        forall|k: int| 0 <= k < attrs.len() ==> attribute_wf(#[trigger] attrs[k]),
        spaces_between(s, i, p + 4 * l),
        placed(s, p, attributes_text(attrs, l)),
        !char_at(s, skip_space(s, p + attributes_text(attrs, l).len()), '@'),
        attributes_follow(attrs, s, p + attributes_text(attrs, l).len()),
    ensures
        attributes(s, i) == Ok::<(Seq<(Seq<char>, Seq<SpecValue>)>, int), int>(
            (attrs, p + attributes_text(attrs, l).len() - 1),
        ),
    decreases attrs, 0nat,
{
    lemma_punctuation();
    let a0 = attribute_text(attrs[0], l);
    let rest = attrs.drop_first();
    let tail = attributes_text(rest, l);
    let e0 = p + a0.len();
    let q = p + 4 * l;
    lemma_placed_split(s, p, a0, tail);
    lemma_attribute_shape(attrs[0], l);
    lemma_placed_at(s, p, a0, 4 * l as int);
    lemma_placed_at(s, p, a0, a0.len() - 1);
    lemma_skip_to(s, i, q);
    if rest.len() > 0 {
        let r0 = attribute_text(rest[0], l);
        lemma_attribute_shape(rest[0], l);
        assert(tail == r0 + attributes_text(rest.drop_first(), l));
        lemma_placed_split(s, e0, r0, attributes_text(rest.drop_first(), l));
        assert forall|k: int| e0 <= k < e0 + 4 * l implies is_space(#[trigger] s[k]) by {
            lemma_placed_at(s, e0, r0, k - e0);
        }
        lemma_placed_at(s, e0, r0, 4 * l as int);
        lemma_skip_to(s, e0, e0 + 4 * l);
        assert(seq![attrs[0]].last().1.last() == attrs[0].1.last());
        lemma_attribute_parse(attrs[0], l, s, i, p);
        assert forall|k: int| 0 <= k < rest.len() implies attribute_wf(#[trigger] rest[k]) by {
            assert(rest[k] == attrs[k + 1]);
        }
        assert(rest.last() == attrs.last());
        assert(spaces_between(s, e0 - 1, e0 + 4 * l));
        lemma_attributes_parse(rest, l, s, e0 - 1, e0);
    } else {
        assert(attrs.last() == attrs[0]);
        assert(seq![attrs[0]].last() == attrs[0]);
        lemma_attribute_parse(attrs[0], l, s, i, p);
        assert(skip_space(s, e0 - 1) == skip_space(s, e0));
        assert(tail.len() == 0);
    }
    assert(seq![attrs[0]] + rest =~= attrs);
}

proof fn lemma_merge_distinct(raw: Seq<(Seq<char>, Seq<SpecValue>)>)
    requires
        forall|j: int, k: int|
            0 <= j < raw.len() && 0 <= k < raw.len() && j != k ==> #[trigger] raw[j].0
                != #[trigger] raw[k].0,
    ensures
        merge_attributes(raw) == raw,
    decreases raw.len(),
{
    if raw.len() > 0 {
        let init = raw.drop_last();
        assert forall|j: int, k: int|
            0 <= j < init.len() && 0 <= k < init.len() && j != k implies #[trigger] init[j].0
            != #[trigger] init[k].0 by {
            assert(init[j] == raw[j]);
            assert(init[k] == raw[k]);
        }
        lemma_merge_distinct(init);
        lemma_named_position(init, raw.last().0);
        if named_position(init, raw.last().0) is Some {
            let q = named_position(init, raw.last().0)->0;
            assert(init[q] == raw[q]);
            assert(raw[raw.len() - 1].0 == raw.last().0);
        }
        assert(init.push(raw.last()) =~= raw);
    }
}

proof fn lemma_statement_parse(st: SpecStatement, l: nat, s: Seq<char>, i: int, p: int)
    requires
        statement_wf(st, i == p + 4 * l),
        spaces_between(s, i, p + 4 * l),
        placed(s, p, statement_text(st, l)),
    ensures
        statement(s, i) == Ok::<(SpecStatement, int), int>(
            (st, p + statement_text(st, l).len() - 2),
        ),
    decreases st, 0nat,
{
    lemma_punctuation();
    let at = attributes_text(st.attributes, l);
    let ch = chain_text(st.items, l);
    let t = statement_text(st, l);
    let c = p + at.len() + 4 * l;
    let e = c + ch.len();
    lemma_placed_split(s, p, at + indent(l) + ch, seq![';', '\n']);
    lemma_placed_split(s, p, at + indent(l), ch);
    lemma_placed_split(s, p, at, indent(l));
    lemma_placed_at(s, e, seq![';', '\n'], 0);
    lemma_value_first(st.items[0], l);
    assert(ch == value_text(st.items[0], l) + chain_tail(st.items.drop_first(), l));
    lemma_placed_at(s, c, ch, 0);
    lemma_starts_value(ch[0]);
    assert forall|k: int| p + at.len() <= k < c implies is_space(#[trigger] s[k]) by {
        lemma_placed_at(s, p + at.len(), indent(l), k - (p + at.len()));
    }
    lemma_skip_fixed(s, e);
    lemma_skip_to(s, p + at.len(), c);
    let j = if st.attributes.len() > 0 {
        p + at.len() - 1
    } else {
        i
    };
    if st.attributes.len() > 0 {
        lemma_attributes_parse(st.attributes, l, s, i, p);
        assert(at == attribute_text(st.attributes[0], l) + attributes_text(
            st.attributes.drop_first(),
            l,
        ));
        lemma_attributes_last_newline(st.attributes, l);
        lemma_placed_at(s, p, at, at.len() - 1);
    } else {
        assert(at.len() == 0);
        lemma_skip_to(s, i, c);
        assert(st.attributes =~= Seq::<(Seq<char>, Seq<SpecValue>)>::empty());
    }
    assert(st.items.last() == st.items[st.items.len() - 1]);
    lemma_chain_parse(st.items, l, s, j, c);
    lemma_merge_distinct(st.attributes);
}

proof fn lemma_attributes_last_newline(attrs: Seq<(Seq<char>, Seq<SpecValue>)>, l: nat)
    requires
        attrs.len() > 0,
    ensures
        attributes_text(attrs, l).len() > 0,
        attributes_text(attrs, l)[attributes_text(attrs, l).len() - 1] == '\n',
    decreases attrs.len(),
{
    let a0 = attribute_text(attrs[0], l);
    let rest = attrs.drop_first();
    let r = attributes_text(rest, l);
    lemma_attribute_shape(attrs[0], l);
    assert(attributes_text(attrs, l) == a0 + r);
    if rest.len() > 0 {
        lemma_attributes_last_newline(rest, l);
        assert((a0 + r)[a0.len() + r.len() - 1] == r[r.len() - 1]);
    } else {
        assert(r.len() == 0);
        assert((a0 + r)[a0.len() - 1] == a0[a0.len() - 1]);
    }
}

/// An attribute's line: indentation, `@` at column `4 * l`, and a final newline.
proof fn lemma_attribute_shape(a: (Seq<char>, Seq<SpecValue>), l: nat)
    ensures
        attribute_text(a, l).len() == 4 * l + a.0.len() + chain_text(a.1, l).len() + 3,
        forall|k: int| 0 <= k < 4 * l ==> #[trigger] attribute_text(a, l)[k] == ' ',
        attribute_text(a, l)[4 * l as int] == '@',
        attribute_text(a, l)[attribute_text(a, l).len() - 1] == '\n',
{
    let t = attribute_text(a, l);
    let x = indent(l) + seq!['@'] + a.0 + seq![' '] + chain_text(a.1, l);
    assert(t == x + seq!['\n']);
    assert(t[t.len() - 1] == '\n');
    assert forall|k: int| 0 <= k < 4 * l implies #[trigger] t[k] == ' ' by {
        assert(t[k] == indent(l)[k]);
    }
    assert(t[4 * l as int] == (indent(l) + seq!['@'])[4 * l as int]);
}

proof fn lemma_body_parse(ss: Seq<SpecStatement>, l: nat, s: Seq<char>, i: int, p: int, d: int)
    requires
        forall|k: int| 1 <= k < ss.len() ==> statement_wf(#[trigger] ss[k], true),
        ss.len() > 0 ==> statement_wf(ss[0], i == p + 4 * l) && spaces_between(s, i, p + 4 * l),
        ss.len() == 0 ==> i == d,
        0 <= p,
        placed(s, p, statements_text(ss, l)),
        spaces_between(s, p + statements_text(ss, l).len(), d),
        char_at(s, d, '}'),
    ensures
        body(s, i) == Ok::<(Seq<SpecStatement>, int), int>((ss, d + 1)),
    decreases ss, 0nat,
{
    lemma_punctuation();
    if ss.len() == 0 {
        assert(ss =~= Seq::<SpecStatement>::empty());
    } else {
        let t0 = statement_text(ss[0], l);
        let rest = ss.drop_first();
        lemma_placed_split(s, p, t0, statements_text(rest, l));
        lemma_statement_start(ss[0], l, i == p + 4 * l);
        let q = p + 4 * l;
        lemma_placed_at(s, p, t0, 4 * l as int);
        if i < q {
            assert(is_space(s[i]));
        }
        lemma_statement_parse(ss[0], l, s, i, p);
        let e0 = p + t0.len() - 2;
        lemma_placed_at(s, p, t0, t0.len() - 2);
        lemma_placed_at(s, p, t0, t0.len() - 1);
        lemma_skip_fixed(s, e0);
        let p1 = e0 + 2;
        assert forall|k: int| 1 <= k < rest.len() implies statement_wf(#[trigger] rest[k], true) by {
            assert(rest[k] == ss[k + 1]);
        }
        if rest.len() > 0 {
            assert(rest[0] == ss[1]);
            let t1 = statement_text(rest[0], l);
            lemma_placed_split(s, p1, t1, statements_text(rest.drop_first(), l));
            lemma_statement_start(rest[0], l, true);
            assert forall|k: int| p1 <= k < p1 + 4 * l implies is_space(#[trigger] s[k]) by {
                lemma_placed_at(s, p1, t1, k - p1);
            }
            lemma_placed_at(s, p1, t1, 4 * l as int);
            lemma_skip_to(s, e0 + 1, p1 + 4 * l);
        } else {
            lemma_skip_to(s, e0 + 1, d);
        }
        lemma_body_parse(rest, l, s, skip_space(s, e0 + 1), p1, d);
        assert(seq![ss[0]] + rest =~= ss);
    }
}

/// A statement's text starts with its indentation, then a character that is
/// not whitespace and not `}`, and ends with `";\n"`.
proof fn lemma_statement_start(st: SpecStatement, l: nat, f: bool)
    requires
        statement_wf(st, f),
    ensures
        statement_text(st, l).len() >= 4 * l + 3,
        forall|k: int| 0 <= k < 4 * l ==> is_space(#[trigger] statement_text(st, l)[k]),
        !is_space(statement_text(st, l)[4 * l as int]),
        statement_text(st, l)[4 * l as int] != '}',
        statement_text(st, l)[statement_text(st, l).len() - 2] == ';',
        statement_text(st, l)[statement_text(st, l).len() - 1] == '\n',
{
    lemma_punctuation();
    let at = attributes_text(st.attributes, l);
    let ch = chain_text(st.items, l);
    let t = statement_text(st, l);
    lemma_value_first(st.items[0], l);
    assert(ch == value_text(st.items[0], l) + chain_tail(st.items.drop_first(), l));
    lemma_starts_value(ch[0]);
    if st.attributes.len() > 0 {
        let a0 = attribute_text(st.attributes[0], l);
        lemma_attribute_shape(st.attributes[0], l);
        assert(at == a0 + attributes_text(st.attributes.drop_first(), l));
        assert(t[4 * l as int] == '@');
        assert forall|k: int| 0 <= k < 4 * l implies is_space(#[trigger] t[k]) by {
            assert(t[k] == a0[k]);
        }
    } else {
        assert(at.len() == 0);
        assert(t[4 * l as int] == ch[0]);
    }
}

proof fn lemma_file_parse(ss: Seq<SpecStatement>, s: Seq<char>, p: int)
    requires
        forall|k: int| 0 <= k < ss.len() ==> statement_wf(#[trigger] ss[k], true),
        placed(s, p, statements_text(ss, 0)),
        p + statements_text(ss, 0).len() == s.len(),
    ensures
        file(s, p) == Ok::<(Seq<SpecStatement>, int), int>((ss, s.len() as int)),
    decreases ss,
{
    lemma_punctuation();
    if ss.len() == 0 {
        assert(ss =~= Seq::<SpecStatement>::empty());
    } else {
        let t0 = statement_text(ss[0], 0);
        let rest = ss.drop_first();
        lemma_placed_split(s, p, t0, statements_text(rest, 0));
        lemma_statement_start(ss[0], 0, true);
        lemma_statement_parse(ss[0], 0, s, p, p);
        let e0 = p + t0.len() - 2;
        lemma_placed_at(s, p, t0, t0.len() - 2);
        lemma_placed_at(s, p, t0, t0.len() - 1);
        lemma_skip_fixed(s, e0);
        let p1 = e0 + 2;
        assert forall|k: int| 0 <= k < rest.len() implies statement_wf(#[trigger] rest[k], true) by {
            assert(rest[k] == ss[k + 1]);
        }
        if rest.len() > 0 {
            let t1 = statement_text(rest[0], 0);
            lemma_placed_split(s, p1, t1, statements_text(rest.drop_first(), 0));
            lemma_statement_start(rest[0], 0, true);
            lemma_placed_at(s, p1, t1, 0);
            lemma_skip_to(s, e0 + 1, p1);
        } else {
            lemma_skip_to(s, e0 + 1, p1);
        }
        lemma_file_parse(rest, s, p1);
        assert(seq![ss[0]] + rest =~= ss);
    }
}

/// Reading back the text that `print` writes gives the tree it was written
/// from, for every tree that the grammar can express.
pub proof fn law_print_then_parse(b: SpecBlock)
    requires
        block_wf(b),
    ensures
        parse_text(print_text(b)) == Ok::<SpecBlock, int>(b),
{
    let s = print_text(b);
    assert(s.subrange(0, s.len() as int) =~= s);
    lemma_file_parse(b.statements, s, 0);
}

/// An attribute and the values of its statement may share a line: after
/// `@name values`, any run of whitespace, a single space as well as a line
/// break, may separate the attribute from the statement's values, and the
/// text reads as one statement with that attribute and those values.
#[verifier::spinoff_prover]
#[verifier::rlimit(40)]
pub proof fn law_attribute_then_values(
    n: Seq<char>,
    avs: Seq<SpecValue>,
    w: Seq<char>,
    vs: Seq<SpecValue>,
)
    requires
        is_name(n),
        chain_wf(avs),
        chain_wf(vs),
        !(vs[0] is Str),
        !(bare_root(avs.last()) && starts_with_root(vs[0])),
        w.len() > 0,
        forall|k: int| 0 <= k < w.len() ==> is_space(#[trigger] w[k]),
    ensures
        parse_text(
            seq!['@'] + n + seq![' '] + chain_text(avs, 0) + w + chain_text(vs, 0) + seq![';'],
        ) == Ok::<SpecBlock, int>(
            SpecBlock {
                statements: seq![SpecStatement { attributes: seq![(n, avs)], items: vs }],
            },
        ),
{
    lemma_punctuation();
    let at = chain_text(avs, 0);
    let vt = chain_text(vs, 0);
    let s = seq!['@'] + n + seq![' '] + at + w + vt + seq![';'];
    let k: int = n.len() as int + 1;
    let a0: int = k + 1;
    let e1: int = a0 + at.len();
    let c: int = e1 + w.len();
    let e2: int = c + vt.len();
    assert(s.len() == e2 + 1);
    assert(s[0] == '@');
    assert(s[k] == ' ');
    assert(s[e2] == ';');
    assert(s.subrange(1, k) =~= n);
    assert(s.subrange(a0, a0 + at.len()) =~= at);
    assert(s.subrange(c, c + vt.len()) =~= vt);
    assert forall|j: int| e1 <= j < c implies is_space(#[trigger] s[j]) by {
        assert(s[j] == w[j - e1]);
    }
    // The first characters of the two chains.
    lemma_value_first(avs[0], 0);
    lemma_value_first(vs[0], 0);
    assert(at == value_text(avs[0], 0) + chain_tail(avs.drop_first(), 0));
    assert(vt == value_text(vs[0], 0) + chain_tail(vs.drop_first(), 0));
    lemma_placed_at(s, a0, at, 0);
    lemma_placed_at(s, c, vt, 0);
    lemma_starts_value(at[0]);
    lemma_starts_value(vt[0]);
    lemma_skip_to(s, e1, c);
    assert(s[c] == vt[0]);
    assert(attributes(s, 0) == Ok::<(Seq<(Seq<char>, Seq<SpecValue>)>, int), int>(
        (seq![(n, avs)], e1),
    )) by {
        lemma_skip_fixed(s, 0);
        lemma_name_at(s, 1, n);
        lemma_skip_to(s, k, a0);
        assert(!char_at(s, c, '@'));
        lemma_chain_parse(avs, 0, s, a0, a0);
        assert(attribute(s, 0) == Ok::<((Seq<char>, Seq<SpecValue>), int), int>(((n, avs), e1)));
        assert(attributes(s, e1) == Ok::<(Seq<(Seq<char>, Seq<SpecValue>)>, int), int>(
            (Seq::empty(), e1),
        ));
        assert(seq![(n, avs)] + Seq::<(Seq<char>, Seq<SpecValue>)>::empty() =~= seq![(n, avs)]);
    }
    lemma_skip_fixed(s, e2);
    assert(items(s, e1) == Ok::<(Seq<SpecValue>, int), int>((vs, e2))) by {
        assert(vs.last() == vs[vs.len() - 1]);
        lemma_chain_parse(vs, 0, s, e1, c);
    }
    lemma_merge_distinct(seq![(n, avs)]);
    let st = SpecStatement { attributes: seq![(n, avs)], items: vs };
    assert(statement(s, 0) == Ok::<(SpecStatement, int), int>((st, e2)));
    // The file.
    assert(skip_space(s, e2 + 1) == e2 + 1);
    assert(file(s, e2 + 1) == Ok::<(Seq<SpecStatement>, int), int>((Seq::empty(), e2 + 1)));
    assert(seq![st] + Seq::<SpecStatement>::empty() =~= seq![st]);
    assert(file(s, 0) == Ok::<(Seq<SpecStatement>, int), int>((seq![st], e2 + 1)));
}

} // verus!
