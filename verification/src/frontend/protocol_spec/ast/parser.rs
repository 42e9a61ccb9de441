//! Reads PDS text into a syntax tree.

use vstd::prelude::*;

use super::grammar::{
    self, arg, arg_list, arg_list_more, attribute, attributes, block_quoted, body, char_at,
    find_char, find_triple_quote, ident, ident_end, items, items_more, item, lemma_named_position,
    merge_attributes, name, named_position, parse_ident_text, parse_text, prepend, quoted, root_path_more,
    skip_space, statement, triple_quote_at, value, file,
};
use super::{
    Block, Ident, Item, ItemArg, SpecArg, SpecBlock, SpecIdent, SpecItem, SpecStatement, SpecValue,
    Statement, Value, args_view, attributes_view, block_view, lemma_attributes_view_index,
    names_view, statements_view, values_view,
};
use crate::text::{chars_of, string_from_chars};

verus! {

/// Why a text is not a PDS file: the position (in characters) at which it
/// stops fitting the grammar.
#[derive(Debug)]
pub struct ParseError {
    pub position: usize,
}

/// A whitespace character.
fn is_space(c: char) -> (res: bool)
    ensures
        res == grammar::is_space(c),
{
    c == ' ' || c == '\n' || c == '\r' || c == '\t'
}

/// A character that may stand in a name: an ASCII digit, an ASCII letter or `_`.
fn is_ident_char(c: char) -> (res: bool)
    ensures
        res == grammar::is_ident_char(c),
{
    ('0' <= c && c <= '9') || ('A' <= c && c <= 'Z') || ('a' <= c && c <= 'z') || c == '_'
}

fn at(s: &Vec<char>, i: usize, c: char) -> (res: bool)
    ensures
        res == char_at(s@, i as int, c),
{
    i < s.len() && s[i] == c
}

fn skip_space_exec(s: &Vec<char>, i: usize) -> (res: usize)
    requires
        i <= s.len(),
    ensures
        res as int == skip_space(s@, i as int),
        i <= res <= s.len(),
{
    let mut k = i;
    while k < s.len() && is_space(s[k])
        invariant
            i <= k <= s.len(),
            skip_space(s@, k as int) == skip_space(s@, i as int),
        decreases s.len() - k,
    {
        k += 1;
    }
    k
}

fn ident_end_exec(s: &Vec<char>, i: usize) -> (res: usize)
    requires
        i <= s.len(),
    ensures
        res as int == ident_end(s@, i as int),
        i <= res <= s.len(),
{
    let mut k = i;
    while k < s.len() && is_ident_char(s[k])
        invariant
            i <= k <= s.len(),
            ident_end(s@, k as int) == ident_end(s@, i as int),
        decreases s.len() - k,
    {
        k += 1;
    }
    k
}

fn find_char_exec(s: &Vec<char>, i: usize, c: char) -> (res: usize)
    requires
        i <= s.len(),
    ensures
        res as int == find_char(s@, i as int, c),
        i <= res <= s.len(),
{
    let mut k = i;
    while k < s.len() && s[k] != c
        invariant
            i <= k <= s.len(),
            find_char(s@, k as int, c) == find_char(s@, i as int, c),
        decreases s.len() - k,
    {
        k += 1;
    }
    k
}

fn triple_quote_exec(s: &Vec<char>, i: usize) -> (res: bool)
    ensures
        res == triple_quote_at(s@, i as int),
{
    i < s.len() && s.len() - i >= 3 && s[i] == '"' && s[i + 1] == '"' && s[i + 2] == '"'
}

fn find_triple_quote_exec(s: &Vec<char>, i: usize) -> (res: usize)
    requires
        i <= s.len(),
    ensures
        res as int == find_triple_quote(s@, i as int),
        i <= res <= s.len(),
{
    let mut k = i;
    while k < s.len() && !triple_quote_exec(s, k)
        invariant
            i <= k <= s.len(),
            find_triple_quote(s@, k as int) == find_triple_quote(s@, i as int),
        decreases s.len() - k,
    {
        k += 1;
    }
    k
}

fn name_exec(s: &Vec<char>, i: usize) -> (res: Result<(String, usize), usize>)
    requires
        i <= s.len(),
    ensures
        match res {
            Ok((n, j)) => name(s@, i as int) == Ok::<(Seq<char>, int), int>((n@, j as int)) && i < j
                <= s.len(),
            Err(p) => name(s@, i as int) == Err::<(Seq<char>, int), int>(p as int),
        },
{
    let j = ident_end_exec(s, i);
    if j > i {
        Ok((string_from_chars(s, i, j), j))
    } else {
        Err(i)
    }
}

/// Appends the further `:: name` steps at `i` to `acc`.
fn root_path_more_exec(s: &Vec<char>, i: usize, init: Vec<String>) -> (res: (Vec<String>, usize))
    requires
        i <= s.len(),
    ensures
        names_view(res.0@) == names_view(init@) + root_path_more(s@, i as int).0,
        res.1 as int == root_path_more(s@, i as int).1,
        i <= res.1 <= s.len(),
{
    let ghost start = names_view(init@);
    let mut acc = init;
    let mut pos = i;
    loop
        invariant
            i <= pos <= s.len(),
            start == names_view(init@),
            start + root_path_more(s@, i as int).0 == names_view(acc@) + root_path_more(
                s@,
                pos as int,
            ).0,
            root_path_more(s@, i as int).1 == root_path_more(s@, pos as int).1,
        decreases s.len() - pos,
    {
        let k = skip_space_exec(s, pos);
        if at(s, k, ':') && at(s, k + 1, ':') {
            match name_exec(s, k + 2) {
                Ok((n, j)) => {
                    proof {
                        let r = root_path_more(s@, j as int);
                        assert(names_view(acc@.push(n)) =~= names_view(acc@).push(n@));
                        assert(names_view(acc@) + (seq![n@] + r.0) =~= names_view(acc@).push(n@)
                            + r.0);
                    }
                    acc.push(n);
                    pos = j;
                },
                Err(_) => {
                    proof {
                        assert(root_path_more(s@, pos as int) == (Seq::<Seq<char>>::empty(), pos as int));
                        assert(names_view(acc@) + Seq::<Seq<char>>::empty() =~= names_view(acc@));
                    }
                    return (acc, pos);
                },
            }
        } else {
            proof {
                assert(root_path_more(s@, pos as int) == (Seq::<Seq<char>>::empty(), pos as int));
                assert(names_view(acc@) + Seq::<Seq<char>>::empty() =~= names_view(acc@));
            }
            return (acc, pos);
        }
    }
}

fn ident_exec(s: &Vec<char>, i: usize) -> (res: Result<(Ident, usize), usize>)
    requires
        i <= s.len(),
    ensures
        match res {
            Ok((id, j)) => ident(s@, i as int) == Ok::<(SpecIdent, int), int>((id@, j as int)) && i
                < j <= s.len(),
            Err(p) => ident(s@, i as int) == Err::<(SpecIdent, int), int>(p as int),
        },
{
    match name_exec(s, i) {
        Ok((n, j)) => Ok((Ident::Simple(n), j)),
        Err(_) => {
            if at(s, i, ':') && at(s, i + 1, ':') {
                match name_exec(s, i + 2) {
                    Ok((n, j)) => {
                        let mut first: Vec<String> = Vec::new();
                        first.push(n);
                        proof {
                            assert(names_view(first@) =~= seq![n@]);
                        }
                        let (path, e) = root_path_more_exec(s, j, first);
                        Ok((Ident::RootNs(path), e))
                    },
                    Err(p) => Err(p),
                }
            } else {
                Err(i)
            }
        },
    }
}

/// The result `r` for a list's rest, with `a` put before the rest.
pub open spec fn concat_result<T>(a: Seq<T>, r: Result<(Seq<T>, int), int>) -> Result<
    (Seq<T>, int),
    int,
> {
    match r {
        Ok((rest, e)) => Ok((a + rest, e)),
        Err(p) => Err(p),
    }
}

proof fn lemma_concat_prepend<T>(a: Seq<T>, x: T, r: Result<(Seq<T>, int), int>)
    ensures
        concat_result(a, prepend(x, r)) == concat_result(a.push(x), r),
{
    if let Ok((rest, e)) = r {
        assert(a + (seq![x] + rest) =~= a.push(x) + rest);
    }
}

proof fn lemma_concat_empty<T>(a: Seq<T>, e: int)
    ensures
        concat_result(a, Ok((Seq::<T>::empty(), e))) == Ok::<(Seq<T>, int), int>((a, e)),
{
    assert(a + Seq::<T>::empty() =~= a);
}

proof fn lemma_concat_start<T>(r: Result<(Seq<T>, int), int>)
    ensures
        concat_result(Seq::<T>::empty(), r) == r,
{
    if let Ok((rest, e)) = r {
        assert(Seq::<T>::empty() + rest =~= rest);
    }
}

fn quoted_exec(s: &Vec<char>, i: usize) -> (res: Result<(Value, usize), usize>)
    requires
        i < s.len(),
    ensures
        match res {
            Ok((v, e)) => quoted(s@, i as int) == Ok::<(SpecValue, int), int>((v@, e as int)) && i
                < e <= s.len(),
            Err(p) => quoted(s@, i as int) == Err::<(SpecValue, int), int>(p as int),
        },
{
    let j = find_char_exec(s, i + 1, '"');
    if j < s.len() && j > i + 1 {
        Ok((Value::String { string: string_from_chars(s, i + 1, j), is_block: false }, j + 1))
    } else {
        Err(j)
    }
}

fn block_quoted_exec(s: &Vec<char>, i: usize) -> (res: Result<(Value, usize), usize>)
    requires
        triple_quote_at(s@, i as int),
    ensures
        match res {
            Ok((v, e)) => block_quoted(s@, i as int) == Ok::<(SpecValue, int), int>((v@, e as int))
                && i < e <= s.len(),
            Err(p) => block_quoted(s@, i as int) == Err::<(SpecValue, int), int>(p as int),
        },
{
    proof {
        assert(i + 2 < s.len());
    }
    let k = find_triple_quote_exec(s, i + 3);
    if k < s.len() {
        proof {
            grammar::lemma_find_triple_quote(s@, i + 3);
        }
        Ok((Value::String { string: string_from_chars(s, i + 3, k), is_block: true }, k + 3))
    } else {
        Err(k)
    }
}

fn value_exec(s: &Vec<char>, i: usize) -> (res: Result<(Value, usize), usize>)
    requires
        i <= s.len(),
    ensures
        match res {
            Ok((v, e)) => value(s@, i as int) == Ok::<(SpecValue, int), int>((v@, e as int)) && i
                < e <= s.len(),
            Err(p) => value(s@, i as int) == Err::<(SpecValue, int), int>(p as int),
        },
    decreases s.len() - i, 1int,
{
    if triple_quote_exec(s, i) {
        block_quoted_exec(s, i)
    } else if at(s, i, '"') {
        quoted_exec(s, i)
    } else {
        let j = skip_space_exec(s, i);
        match item_exec(s, j) {
            Ok((it, e)) => Ok((Value::Item(it), e)),
            Err(p) => Err(p),
        }
    }
}

fn item_exec(s: &Vec<char>, i: usize) -> (res: Result<(Item, usize), usize>)
    requires
        i <= s.len(),
    ensures
        match res {
            Ok((it, e)) => item(s@, i as int) == Ok::<(SpecItem, int), int>((it@, e as int)) && i
                < e <= s.len(),
            Err(p) => item(s@, i as int) == Err::<(SpecItem, int), int>(p as int),
        },
    decreases s.len() - i, 0int,
{
    match ident_exec(s, i) {
        Err(p) => Err(p),
        Ok((id, j)) => {
            let k = skip_space_exec(s, j);
            let (args, a) = if at(s, k, '(') {
                match arg_list_exec(s, k + 1) {
                    Ok(r) => r,
                    Err(p) => {
                        return Err(p);
                    },
                }
            } else {
                proof {
                    assert(args_view(Seq::<ItemArg>::empty()) =~= Seq::<SpecArg>::empty());
                }
                (Vec::new(), j)
            };
            let k2 = skip_space_exec(s, a);
            if at(s, k2, '{') {
                match body_exec(s, k2 + 1) {
                    Ok((stmts, b)) => Ok(
                        (Item { name: id, args: args, block: Block { statements: stmts } }, b),
                    ),
                    Err(p) => Err(p),
                }
            } else {
                let empty: Vec<Statement> = Vec::new();
                proof {
                    assert(statements_view(empty@) =~= Seq::<SpecStatement>::empty());
                }
                Ok((Item { name: id, args: args, block: Block { statements: empty } }, a))
            }
        },
    }
}

fn arg_exec(s: &Vec<char>, i: usize) -> (res: Result<(ItemArg, usize), usize>)
    requires
        i <= s.len(),
    ensures
        match res {
            Ok((a, e)) => arg(s@, i as int) == Ok::<(SpecArg, int), int>((a@, e as int)) && i < e
                <= s.len(),
            Err(p) => arg(s@, i as int) == Err::<(SpecArg, int), int>(p as int),
        },
    decreases s.len() - i, 2int,
{
    let j = skip_space_exec(s, i);
    let t = ident_end_exec(s, j);
    if t > j && at(s, t, ':') {
        let tag = string_from_chars(s, j, t);
        let k = skip_space_exec(s, t + 1);
        match value_exec(s, k) {
            Ok((v, e)) => Ok((ItemArg { tag: Some(tag), value: v }, e)),
            Err(p) => Err(p),
        }
    } else {
        match value_exec(s, j) {
            Ok((v, e)) => Ok((ItemArg { tag: None, value: v }, e)),
            Err(p) => Err(p),
        }
    }
}

fn arg_list_exec(s: &Vec<char>, i: usize) -> (res: Result<(Vec<ItemArg>, usize), usize>)
    requires
        i <= s.len(),
    ensures
        match res {
            Ok((v, e)) => arg_list(s@, i as int) == Ok::<(Seq<SpecArg>, int), int>(
                (args_view(v@), e as int),
            ) && i < e <= s.len(),
            Err(p) => arg_list(s@, i as int) == Err::<(Seq<SpecArg>, int), int>(p as int),
        },
    decreases s.len() - i, 3int,
{
    let (first, j) = match arg_exec(s, i) {
        Ok(r) => r,
        Err(p) => {
            return Err(p);
        },
    };
    let mut acc: Vec<ItemArg> = Vec::new();
    acc.push(first);
    proof {
        assert(acc@.drop_last() =~= Seq::<ItemArg>::empty());
        assert(args_view(Seq::<ItemArg>::empty()) =~= Seq::<SpecArg>::empty());
        assert(args_view(acc@) =~= seq![first@]);
        assert(seq![first@] =~= Seq::<SpecArg>::empty().push(first@));
        lemma_concat_prepend(Seq::<SpecArg>::empty(), first@, arg_list_more(s@, j as int));
        lemma_concat_start(prepend(first@, arg_list_more(s@, j as int)));
    }
    let mut pos = j;
    loop
        invariant
            i < pos <= s.len(),
            arg_list(s@, i as int) == concat_result(args_view(acc@), arg_list_more(s@, pos as int)),
        decreases s.len() - pos,
    {
        let k = skip_space_exec(s, pos);
        if at(s, k, ',') {
            match arg_exec(s, k + 1) {
                Ok((a, j)) => {
                    proof {
                        lemma_concat_prepend(args_view(acc@), a@, arg_list_more(s@, j as int));
                        assert(acc@.push(a).drop_last() =~= acc@);
                    }
                    acc.push(a);
                    pos = j;
                },
                Err(p) => {
                    return Err(p);
                },
            }
        } else if at(s, k, ')') {
            proof {
                lemma_concat_empty(args_view(acc@), k + 1);
            }
            return Ok((acc, k + 1));
        } else {
            return Err(k);
        }
    }
}

fn items_exec(s: &Vec<char>, i: usize) -> (res: Result<(Vec<Value>, usize), usize>)
    requires
        i <= s.len(),
    ensures
        match res {
            Ok((v, e)) => items(s@, i as int) == Ok::<(Seq<SpecValue>, int), int>(
                (values_view(v@), e as int),
            ) && i < e <= s.len(),
            Err(p) => items(s@, i as int) == Err::<(Seq<SpecValue>, int), int>(p as int),
        },
    decreases s.len() - i, 4int,
{
    let (first, j) = match value_exec(s, i) {
        Ok(r) => r,
        Err(p) => {
            return Err(p);
        },
    };
    let mut acc: Vec<Value> = Vec::new();
    acc.push(first);
    proof {
        assert(acc@.drop_last() =~= Seq::<Value>::empty());
        assert(values_view(Seq::<Value>::empty()) =~= Seq::<SpecValue>::empty());
        assert(values_view(acc@) =~= seq![first@]);
        assert(seq![first@] =~= Seq::<SpecValue>::empty().push(first@));
        lemma_concat_prepend(Seq::<SpecValue>::empty(), first@, items_more(s@, j as int));
        lemma_concat_start(prepend(first@, items_more(s@, j as int)));
    }
    let mut pos = j;
    loop
        invariant
            i < pos <= s.len(),
            items(s@, i as int) == concat_result(values_view(acc@), items_more(s@, pos as int)),
        decreases s.len() - pos,
    {
        let k = skip_space_exec(s, pos);
        if at(s, k, '=') && at(s, k + 1, '>') {
            match value_exec(s, k + 2) {
                Ok((v, j)) => {
                    proof {
                        lemma_concat_prepend(values_view(acc@), v@, items_more(s@, j as int));
                        assert(acc@.push(v).drop_last() =~= acc@);
                    }
                    acc.push(v);
                    pos = j;
                },
                Err(p) => {
                    return Err(p);
                },
            }
        } else {
            proof {
                lemma_concat_empty(values_view(acc@), pos as int);
            }
            return Ok((acc, pos));
        }
    }
}

fn attribute_exec(s: &Vec<char>, i: usize) -> (res: Result<((String, Vec<Value>), usize), usize>)
    requires
        i <= s.len(),
        char_at(s@, skip_space(s@, i as int), '@'),
    ensures
        match res {
            Ok((a, e)) => attribute(s@, i as int) == Ok::<
                ((Seq<char>, Seq<SpecValue>), int),
                int,
            >(((a.0@, values_view(a.1@)), e as int)) && i < e <= s.len(),
            Err(p) => attribute(s@, i as int) == Err::<((Seq<char>, Seq<SpecValue>), int), int>(
                p as int,
            ),
        },
    decreases s.len() - i, 0int,
{
    let j = skip_space_exec(s, i);
    match name_exec(s, j + 1) {
        Err(p) => Err(p),
        Ok((n, k)) => match items_exec(s, skip_space_exec(s, k)) {
            Ok((vs, e)) => Ok(((n, vs), e)),
            Err(p) => Err(p),
        },
    }
}

proof fn lemma_attributes_view_update(v: Seq<(String, Vec<Value>)>, p: int, x: (String, Vec<Value>))
    requires
        0 <= p < v.len(),
    ensures
        attributes_view(v.update(p, x)) == attributes_view(v).update(p, (x.0@, values_view(x.1@))),
{
    lemma_attributes_view_index(v);
    lemma_attributes_view_index(v.update(p, x));
    assert(attributes_view(v.update(p, x)) =~= attributes_view(v).update(
        p,
        (x.0@, values_view(x.1@)),
    ));
}


/// Position of the attribute named `n` in `acc`.
fn find_attribute(acc: &Vec<(String, Vec<Value>)>, n: &String) -> (res: Option<usize>)
    ensures
        match res {
            Some(p) => named_position(attributes_view(acc@), n@) == Some(p as int) && p < acc@.len(),
            None => named_position(attributes_view(acc@), n@) is None,
        },
{
    let ghost view = attributes_view(acc@);
    proof {
        lemma_attributes_view_index(acc@);
        lemma_named_position(view, n@);
    }
    let mut k: usize = 0;
    while k < acc.len()
        invariant
            view == attributes_view(acc@),
            view.len() == acc@.len(),
            forall|m: int| 0 <= m < acc@.len() ==> #[trigger] view[m] == (acc@[m].0@, values_view(acc@[m].1@)),
            named_position(view, n@) is None <==> forall|m: int| 0 <= m < view.len() ==> (
            #[trigger] view[m]).0 != n@,
            named_position(view, n@) matches Some(p) ==> 0 <= p < view.len() && view[p].0 == n@
                && forall|m: int| 0 <= m < p ==> (#[trigger] view[m]).0 != n@,
            k <= acc@.len(),
            forall|m: int| 0 <= m < k ==> (#[trigger] view[m]).0 != n@,
        decreases acc@.len() - k,
    {
        if acc[k].0 == *n {
            proof {
                assert(view[k as int].0 == n@);
                if named_position(view, n@) != Some(k as int) {
                    let p = named_position(view, n@)->0;
                    assert(p > k ==> view[k as int].0 != n@);
                }
            }
            return Some(k);
        }
        k += 1;
    }
    None
}

fn statement_exec(s: &Vec<char>, i: usize) -> (res: Result<(Statement, usize), usize>)
    requires
        i <= s.len(),
    ensures
        match res {
            Ok((st, e)) => statement(s@, i as int) == Ok::<(SpecStatement, int), int>(
                (st@, e as int),
            ) && i < e <= s.len(),
            Err(p) => statement(s@, i as int) == Err::<(SpecStatement, int), int>(p as int),
        },
    decreases s.len() - i, 6int,
{
    let mut acc: Vec<(String, Vec<Value>)> = Vec::new();
    let ghost mut raw: Seq<(Seq<char>, Seq<SpecValue>)> = Seq::empty();
    let mut pos = i;
    proof {
        lemma_concat_start(attributes(s@, i as int));
        assert(attributes_view(acc@) =~= Seq::<(Seq<char>, Seq<SpecValue>)>::empty());
    }
    loop
        invariant
            i <= pos <= s.len(),
            attributes(s@, i as int) == concat_result(raw, attributes(s@, pos as int)),
            attributes_view(acc@) == merge_attributes(raw),
        decreases s.len() - pos,
    {
        let j = skip_space_exec(s, pos);
        if at(s, j, '@') {
            match attribute_exec(s, pos) {
                Ok((a, e)) => {
                    let ghost av = (a.0@, values_view(a.1@));
                    proof {
                        lemma_concat_prepend(raw, av, attributes(s@, e as int));
                        assert(raw.push(av).drop_last() =~= raw);
                    }
                    match find_attribute(&acc, &a.0) {
                        Some(p) => {
                            proof {
                                lemma_attributes_view_index(acc@);
                                lemma_attributes_view_update(acc@, p as int, a);
                            }
                            acc.set(p, a);
                        },
                        None => {
                            proof {
                                assert(acc@.push(a).drop_last() =~= acc@);
                            }
                            acc.push(a);
                        },
                    }
                    proof {
                        raw = raw.push(av);
                    }
                    pos = e;
                },
                Err(p) => {
                    return Err(p);
                },
            }
        } else {
            proof {
                lemma_concat_empty(raw, pos as int);
            }
            return match items_exec(s, pos) {
                Ok((vs, e)) => Ok((Statement { attributes: acc, items: vs }, e)),
                Err(p) => Err(p),
            };
        }
    }
}

fn body_exec(s: &Vec<char>, i: usize) -> (res: Result<(Vec<Statement>, usize), usize>)
    requires
        i <= s.len(),
    ensures
        match res {
            Ok((v, e)) => body(s@, i as int) == Ok::<(Seq<SpecStatement>, int), int>(
                (statements_view(v@), e as int),
            ) && i < e <= s.len(),
            Err(p) => body(s@, i as int) == Err::<(Seq<SpecStatement>, int), int>(p as int),
        },
    decreases s.len() - i, 7int,
{
    let mut acc: Vec<Statement> = Vec::new();
    let mut pos = i;
    proof {
        lemma_concat_start(body(s@, i as int));
        assert(statements_view(acc@) =~= Seq::<SpecStatement>::empty());
    }
    loop
        invariant
            i <= pos <= s.len(),
            body(s@, i as int) == concat_result(statements_view(acc@), body(s@, pos as int)),
        decreases s.len() - pos,
    {
        if at(s, pos, '}') {
            proof {
                lemma_concat_empty(statements_view(acc@), pos + 1);
            }
            return Ok((acc, pos + 1));
        }
        if pos >= s.len() {
            return Err(pos);
        }
        match statement_exec(s, pos) {
            Err(p) => {
                return Err(p);
            },
            Ok((st, j)) => {
                let k2 = skip_space_exec(s, j);
                if at(s, k2, ';') {
                    let next = skip_space_exec(s, k2 + 1);
                    proof {
                        lemma_concat_prepend(statements_view(acc@), st@, body(s@, next as int));
                        assert(acc@.push(st).drop_last() =~= acc@);
                    }
                    acc.push(st);
                    pos = next;
                } else {
                    return Err(k2);
                }
            },
        }
    }
}

fn file_exec(s: &Vec<char>) -> (res: Result<Vec<Statement>, usize>)
    ensures
        match res {
            Ok(v) => file(s@, 0) matches Ok((ss, _)) && ss == statements_view(v@),
            Err(p) => file(s@, 0) == Err::<(Seq<SpecStatement>, int), int>(p as int),
        },
{
    let mut acc: Vec<Statement> = Vec::new();
    let mut pos: usize = 0;
    proof {
        lemma_concat_start(file(s@, 0));
        assert(statements_view(acc@) =~= Seq::<SpecStatement>::empty());
    }
    loop
        invariant
            pos <= s.len(),
            file(s@, 0) == concat_result(statements_view(acc@), file(s@, pos as int)),
        decreases s.len() - pos,
    {
        if pos >= s.len() {
            proof {
                lemma_concat_empty(statements_view(acc@), pos as int);
            }
            return Ok(acc);
        }
        match statement_exec(s, pos) {
            Err(p) => {
                return Err(p);
            },
            Ok((st, j)) => {
                let k2 = skip_space_exec(s, j);
                if at(s, k2, ';') {
                    let next = skip_space_exec(s, k2 + 1);
                    proof {
                        lemma_concat_prepend(statements_view(acc@), st@, file(s@, next as int));
                        assert(acc@.push(st).drop_last() =~= acc@);
                    }
                    acc.push(st);
                    pos = next;
                } else {
                    return Err(k2);
                }
            },
        }
    }
}

/// Parses a PDS text into its block of statements, or gives the position (in
/// characters) at which the text stops fitting the grammar. The empty text is
/// an empty file; a text of whitespace alone is refused, as is a block `{ }`
/// that holds only whitespace, and a string after whitespace where the grammar
/// does not allow it (for instance after `=>`).
pub fn parse(input: &str) -> (res: Result<Block, ParseError>)
    ensures
        match res {
            Ok(b) => parse_text(input@) == Ok::<SpecBlock, int>(b@),
            Err(e) => parse_text(input@) == Err::<SpecBlock, int>(e.position as int),
        },
{
    let s = chars_of(input);
    match file_exec(&s) {
        Ok(statements) => Ok(Block { statements: statements }),
        Err(p) => Err(ParseError { position: p }),
    }
}

/// Parses the identifier at the start of `input`: a name, or a root path
/// (`::a::b`, possibly after whitespace). What follows it is ignored.
pub fn parse_ident(input: &str) -> (res: Result<Ident, ParseError>)
    ensures
        match res {
            Ok(id) => parse_ident_text(input@) == Ok::<SpecIdent, int>(id@),
            Err(e) => parse_ident_text(input@) == Err::<SpecIdent, int>(e.position as int),
        },
{
    let s = chars_of(input);
    match name_exec(&s, 0) {
        Ok((n, _)) => Ok(Ident::Simple(n)),
        Err(_) => {
            let k = skip_space_exec(&s, 0);
            match ident_exec(&s, k) {
                Ok((Ident::RootNs(p), _)) => Ok(Ident::RootNs(p)),
                Ok((Ident::Simple(_), _)) => Err(ParseError { position: k }),
                Err(p) => Err(ParseError { position: p }),
            }
        },
    }
}

} // verus!
