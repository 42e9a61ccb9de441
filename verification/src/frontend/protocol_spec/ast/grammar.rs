//! The PDS grammar, stated as a parser over a sequence of characters.
//!
//! Each rule takes the text and a position and gives either the parsed value
//! with the position after it, or the position at which the text does not fit.
//!
//! ```text
//! file       = end of input | statement ";" ws file
//! block body = "}" | statement ";" ws block body
//! statement  = { attribute } items
//! attribute  = ws "@" name ws items
//! items      = value { ws "=>" value }
//! value      = '"""' text '"""' | '"' text '"' | ws item
//! item       = ident [ ws "(" arg { ws "," arg } ws ")" ] [ ws "{" block body ]
//! arg        = ws [ name ":" ws ] value
//! ident      = name | "::" name { ws "::" name }
//! ```
//!
//! `ws` is a run of whitespace (space, tab, carriage return, newline), possibly
//! empty. A string value is read where it stands: no whitespace may come
//! before it, except after the name of an attribute, after the tag of an
//! argument, or at the start of an argument. So a text of whitespace alone is
//! not a file, and `{ }` is not a block. A plain string holds at least one
//! character and no `"`. A block string ends at the first `"""`. A repeated
//! attribute replaces the values of the earlier one, which keeps its place.

use vstd::prelude::*;

use super::{SpecArg, SpecBlock, SpecIdent, SpecItem, SpecStatement, SpecValue};

verus! {

/// A whitespace character.
pub open spec fn is_space(c: char) -> bool {
    c == ' ' || c == '\n' || c == '\r' || c == '\t'
}

/// A character that may stand in a name: an ASCII digit, an ASCII letter or `_`.
pub open spec fn is_ident_char(c: char) -> bool {
    ('0' <= c && c <= '9') || ('A' <= c && c <= 'Z') || ('a' <= c && c <= 'z') || c == '_'
}

/// `s` holds the character `c` at position `i`.
pub open spec fn char_at(s: Seq<char>, i: int, c: char) -> bool {
    0 <= i < s.len() && s[i] == c
}

/// `s` holds `"""` at position `i`.
pub open spec fn triple_quote_at(s: Seq<char>, i: int) -> bool {
    char_at(s, i, '"') && char_at(s, i + 1, '"') && char_at(s, i + 2, '"')
}

/// The position of the first non-whitespace character at or after `i`.
pub open spec fn skip_space(s: Seq<char>, i: int) -> int
    decreases s.len() - i,
{
    if 0 <= i < s.len() && is_space(s[i]) {
        skip_space(s, i + 1)
    } else {
        i
    }
}

/// The end of the run of name characters that starts at `i`.
pub open spec fn ident_end(s: Seq<char>, i: int) -> int
    decreases s.len() - i,
{
    if 0 <= i < s.len() && is_ident_char(s[i]) {
        ident_end(s, i + 1)
    } else {
        i
    }
}

/// The position of the first `c` at or after `i`, or the length of `s`.
pub open spec fn find_char(s: Seq<char>, i: int, c: char) -> int
    decreases s.len() - i,
{
    if 0 <= i < s.len() {
        if s[i] == c {
            i
        } else {
            find_char(s, i + 1, c)
        }
    } else {
        s.len() as int
    }
}

/// The position of the first `"""` at or after `i`, or the length of `s`.
pub open spec fn find_triple_quote(s: Seq<char>, i: int) -> int
    decreases s.len() - i,
{
    if 0 <= i < s.len() {
        if triple_quote_at(s, i) {
            i
        } else {
            find_triple_quote(s, i + 1)
        }
    } else {
        s.len() as int
    }
}

pub proof fn lemma_skip_space(s: Seq<char>, i: int)
    requires
        0 <= i <= s.len(),
    ensures
        i <= skip_space(s, i) <= s.len(),
        skip_space(s, i) < s.len() ==> !is_space(s[skip_space(s, i)]),
        forall|k: int| i <= k < skip_space(s, i) ==> is_space(#[trigger] s[k]),
    decreases s.len() - i,
{
    if i < s.len() && is_space(s[i]) {
        lemma_skip_space(s, i + 1);
    }
}

pub proof fn lemma_ident_end(s: Seq<char>, i: int)
    requires
        0 <= i <= s.len(),
    ensures
        i <= ident_end(s, i) <= s.len(),
        ident_end(s, i) < s.len() ==> !is_ident_char(s[ident_end(s, i)]),
        forall|k: int| i <= k < ident_end(s, i) ==> is_ident_char(#[trigger] s[k]),
    decreases s.len() - i,
{
    if i < s.len() && is_ident_char(s[i]) {
        lemma_ident_end(s, i + 1);
    }
}

pub proof fn lemma_find_char(s: Seq<char>, i: int, c: char)
    requires
        0 <= i <= s.len(),
    ensures
        i <= find_char(s, i, c) <= s.len(),
        find_char(s, i, c) < s.len() ==> s[find_char(s, i, c)] == c,
        forall|k: int| i <= k < find_char(s, i, c) ==> #[trigger] s[k] != c,
    decreases s.len() - i,
{
    if i < s.len() && s[i] != c {
        lemma_find_char(s, i + 1, c);
    }
}

pub proof fn lemma_find_triple_quote(s: Seq<char>, i: int)
    requires
        0 <= i <= s.len(),
    ensures
        i <= find_triple_quote(s, i) <= s.len(),
        find_triple_quote(s, i) < s.len() ==> triple_quote_at(s, find_triple_quote(s, i)),
        forall|k: int| i <= k < find_triple_quote(s, i) ==> !triple_quote_at(s, k),
    decreases s.len() - i,
{
    if i < s.len() && !triple_quote_at(s, i) {
        lemma_find_triple_quote(s, i + 1);
    }
}

/// A non-empty run of name characters at `i`.
pub open spec fn name(s: Seq<char>, i: int) -> Result<(Seq<char>, int), int> {
    let j = ident_end(s, i);
    if j > i {
        Ok((s.subrange(i, j), j))
    } else {
        Err(i)
    }
}

/// Further `:: name` steps of a root path; stops before a step that does not fit.
pub open spec fn root_path_more(s: Seq<char>, i: int) -> (Seq<Seq<char>>, int)
    decreases s.len() - i,
{
    let k = skip_space(s, i);
    if 0 <= i <= s.len() && char_at(s, k, ':') && char_at(s, k + 1, ':') {
        match name(s, k + 2) {
            Ok((n, j)) => {
                proof {
                    lemma_skip_space(s, i);
                    lemma_ident_end(s, k + 2);
                }
                let (rest, e) = root_path_more(s, j);
                (seq![n] + rest, e)
            },
            Err(_) => (Seq::empty(), i),
        }
    } else {
        (Seq::empty(), i)
    }
}

/// An identifier at `i`: a name, or a path from the root such as `::a::b`.
pub open spec fn ident(s: Seq<char>, i: int) -> Result<(SpecIdent, int), int> {
    match name(s, i) {
        Ok((n, j)) => Ok((SpecIdent::Simple(n), j)),
        Err(_) => if char_at(s, i, ':') && char_at(s, i + 1, ':') {
            match name(s, i + 2) {
                Ok((n, j)) => {
                    let (rest, e) = root_path_more(s, j);
                    Ok((SpecIdent::RootNs(seq![n] + rest), e))
                },
                Err(p) => Err(p),
            }
        } else {
            Err(i)
        },
    }
}

/// A plain string whose opening quote is at `i`.
pub open spec fn quoted(s: Seq<char>, i: int) -> Result<(SpecValue, int), int> {
    let j = find_char(s, i + 1, '"');
    if j < s.len() && j > i + 1 {
        Ok((SpecValue::Str { string: s.subrange(i + 1, j), is_block: false }, j + 1))
    } else {
        Err(j)
    }
}

/// A block string whose opening `"""` is at `i`.
pub open spec fn block_quoted(s: Seq<char>, i: int) -> Result<(SpecValue, int), int> {
    let k = find_triple_quote(s, i + 3);
    if k < s.len() {
        Ok((SpecValue::Str { string: s.subrange(i + 3, k), is_block: true }, k + 3))
    } else {
        Err(k)
    }
}

/// `Ok((seq![x] + rest, e))` from `x` and the result `r` for the rest.
pub open spec fn prepend<T>(x: T, r: Result<(Seq<T>, int), int>) -> Result<(Seq<T>, int), int> {
    match r {
        Ok((rest, e)) => Ok((seq![x] + rest, e)),
        Err(p) => Err(p),
    }
}

/// A value at `i`: a block string or a plain string that starts at `i`, or an
/// item after whitespace.
pub open spec fn value(s: Seq<char>, i: int) -> Result<(SpecValue, int), int>
    decreases s.len() - i, 1int,
{
    if !(0 <= i <= s.len()) {
        Err(i)
    } else if triple_quote_at(s, i) {
        block_quoted(s, i)
    } else if char_at(s, i, '"') {
        quoted(s, i)
    } else {
        let j = skip_space(s, i);
        proof {
            lemma_skip_space(s, i);
        }
        match item(s, j) {
            Ok((it, e)) => Ok((SpecValue::Item(it), e)),
            Err(p) => Err(p),
        }
    }
}

/// An item at `i`: an identifier, then arguments in parentheses and a block in
/// braces, each optional.
pub open spec fn item(s: Seq<char>, i: int) -> Result<(SpecItem, int), int>
    decreases s.len() - i, 0int,
{
    if !(0 <= i <= s.len()) {
        Err(i)
    } else {
        match ident(s, i) {
            Err(p) => Err(p),
            Ok((id, j)) => if j <= i || j > s.len() {
                Err(i)
            } else {
                let k = skip_space(s, j);
                proof {
                    lemma_skip_space(s, j);
                }
                let args_res = if char_at(s, k, '(') {
                    arg_list(s, k + 1)
                } else {
                    Ok((Seq::empty(), j))
                };
                match args_res {
                    Err(p) => Err(p),
                    Ok((args, a)) => if a < j || a > s.len() {
                        Err(i)
                    } else {
                        let k2 = skip_space(s, a);
                        proof {
                            lemma_skip_space(s, a);
                        }
                        if char_at(s, k2, '{') {
                            match body(s, k2 + 1) {
                                Ok((stmts, b)) => Ok(
                                    (
                                        SpecItem {
                                            name: id,
                                            args: args,
                                            block: SpecBlock { statements: stmts },
                                        },
                                        b,
                                    ),
                                ),
                                Err(p) => Err(p),
                            }
                        } else {
                            Ok(
                                (
                                    SpecItem {
                                        name: id,
                                        args: args,
                                        block: SpecBlock { statements: Seq::empty() },
                                    },
                                    a,
                                ),
                            )
                        }
                    },
                }
            },
        }
    }
}

/// The arguments after an opening parenthesis, up to and including the closing one.
pub open spec fn arg_list(s: Seq<char>, i: int) -> Result<(Seq<SpecArg>, int), int>
    decreases s.len() - i, 3int,
{
    if !(0 <= i <= s.len()) {
        Err(i)
    } else {
        match arg(s, i) {
            Err(p) => Err(p),
            Ok((a, j)) => if j <= i || j > s.len() {
                Err(i)
            } else {
                prepend(a, arg_list_more(s, j))
            },
        }
    }
}

/// Further `, arg` entries, then the closing parenthesis.
pub open spec fn arg_list_more(s: Seq<char>, i: int) -> Result<(Seq<SpecArg>, int), int>
    decreases s.len() - i, 3int,
{
    let k = skip_space(s, i);
    if !(0 <= i <= s.len()) {
        Err(i)
    } else if char_at(s, k, ',') {
        proof {
            lemma_skip_space(s, i);
        }
        match arg(s, k + 1) {
            Err(p) => Err(p),
            Ok((a, j)) => if j <= k + 1 || j > s.len() {
                Err(i)
            } else {
                prepend(a, arg_list_more(s, j))
            },
        }
    } else if char_at(s, k, ')') {
        Ok((Seq::empty(), k + 1))
    } else {
        Err(k)
    }
}

/// An argument after whitespace at `i`: a value, tagged when a name and `:`
/// come first; whitespace may follow the `:`.
pub open spec fn arg(s: Seq<char>, i: int) -> Result<(SpecArg, int), int>
    decreases s.len() - i, 2int,
{
    let j = skip_space(s, i);
    let t = ident_end(s, j);
    if !(0 <= i <= s.len()) {
        Err(i)
    } else if t > j && char_at(s, t, ':') {
        proof {
            lemma_skip_space(s, i);
            lemma_ident_end(s, j);
            lemma_skip_space(s, t + 1);
        }
        match value(s, skip_space(s, t + 1)) {
            Ok((v, e)) => Ok((SpecArg { tag: Some(s.subrange(j, t)), value: v }, e)),
            Err(p) => Err(p),
        }
    } else {
        proof {
            lemma_skip_space(s, i);
        }
        match value(s, j) {
            Ok((v, e)) => Ok((SpecArg { tag: None, value: v }, e)),
            Err(p) => Err(p),
        }
    }
}

/// A chain of values joined by `=>`.
pub open spec fn items(s: Seq<char>, i: int) -> Result<(Seq<SpecValue>, int), int>
    decreases s.len() - i, 4int,
{
    if !(0 <= i <= s.len()) {
        Err(i)
    } else {
        match value(s, i) {
            Err(p) => Err(p),
            Ok((v, j)) => if j <= i || j > s.len() {
                Err(i)
            } else {
                prepend(v, items_more(s, j))
            },
        }
    }
}

/// Further `=> value` links of a chain.
pub open spec fn items_more(s: Seq<char>, i: int) -> Result<(Seq<SpecValue>, int), int>
    decreases s.len() - i, 4int,
{
    let k = skip_space(s, i);
    if !(0 <= i <= s.len()) {
        Err(i)
    } else if char_at(s, k, '=') && char_at(s, k + 1, '>') {
        proof {
            lemma_skip_space(s, i);
        }
        match value(s, k + 2) {
            Err(p) => Err(p),
            Ok((v, j)) => if j <= k + 2 || j > s.len() {
                Err(i)
            } else {
                prepend(v, items_more(s, j))
            },
        }
    } else {
        Ok((Seq::empty(), i))
    }
}

/// An attribute whose `@` is the first non-whitespace character at or after `i`.
pub open spec fn attribute(s: Seq<char>, i: int) -> Result<((Seq<char>, Seq<SpecValue>), int), int>
    decreases s.len() - i, 0int,
{
    let j = skip_space(s, i);
    if !(0 <= i <= s.len()) {
        Err(i)
    } else {
        proof {
            lemma_skip_space(s, i);
        }
        match name(s, j + 1) {
            Err(p) => Err(p),
            Ok((n, k)) => {
                proof {
                    lemma_ident_end(s, j + 1);
                    lemma_skip_space(s, k);
                }
                match items(s, skip_space(s, k)) {
                    Ok((vs, e)) => Ok(((n, vs), e)),
                    Err(p) => Err(p),
                }
            },
        }
    }
}

/// The attributes at the start of a statement, in order of appearance.
pub open spec fn attributes(s: Seq<char>, i: int) -> Result<
    (Seq<(Seq<char>, Seq<SpecValue>)>, int),
    int,
>
    decreases s.len() - i, 5int,
{
    let j = skip_space(s, i);
    if !(0 <= i <= s.len()) {
        Err(i)
    } else if char_at(s, j, '@') {
        match attribute(s, i) {
            Err(p) => Err(p),
            Ok((a, e)) => if e <= i || e > s.len() {
                Err(i)
            } else {
                prepend(a, attributes(s, e))
            },
        }
    } else {
        Ok((Seq::empty(), i))
    }
}

/// The position of the attribute named `n` in `attrs`.
pub open spec fn named_position(attrs: Seq<(Seq<char>, Seq<SpecValue>)>, n: Seq<char>) -> Option<int>
    decreases attrs.len(),
{
    if attrs.len() == 0 {
        None
    } else {
        match named_position(attrs.drop_last(), n) {
            Some(p) => Some(p),
            None => if attrs.last().0 == n {
                Some(attrs.len() - 1)
            } else {
                None
            },
        }
    }
}

pub proof fn lemma_named_position(attrs: Seq<(Seq<char>, Seq<SpecValue>)>, n: Seq<char>)
    ensures
        named_position(attrs, n) is None <==> forall|k: int| 0 <= k < attrs.len() ==> (
        #[trigger] attrs[k]).0 != n,
        named_position(attrs, n) matches Some(p) ==> 0 <= p < attrs.len() && attrs[p].0 == n
            && forall|k: int| 0 <= k < p ==> (#[trigger] attrs[k]).0 != n,
    decreases attrs.len(),
{
    if attrs.len() > 0 {
        lemma_named_position(attrs.drop_last(), n);
        assert forall|k: int| 0 <= k < attrs.len() - 1 implies attrs.drop_last()[k] == attrs[k] by {}
    }
}

/// Attributes in order of first appearance; a repeated name takes the values
/// of its last occurrence.
pub open spec fn merge_attributes(raw: Seq<(Seq<char>, Seq<SpecValue>)>) -> Seq<
    (Seq<char>, Seq<SpecValue>),
>
    decreases raw.len(),
{
    if raw.len() == 0 {
        Seq::empty()
    } else {
        let m = merge_attributes(raw.drop_last());
        match named_position(m, raw.last().0) {
            Some(p) => m.update(p, raw.last()),
            None => m.push(raw.last()),
        }
    }
}

/// A statement at `i`: attributes, then a chain of values.
pub open spec fn statement(s: Seq<char>, i: int) -> Result<(SpecStatement, int), int>
    decreases s.len() - i, 6int,
{
    if !(0 <= i <= s.len()) {
        Err(i)
    } else {
        match attributes(s, i) {
            Err(p) => Err(p),
            Ok((raw, j)) => if j < i || j > s.len() {
                Err(i)
            } else {
                match items(s, j) {
                    Ok((vs, e)) => Ok(
                        (SpecStatement { attributes: merge_attributes(raw), items: vs }, e),
                    ),
                    Err(p) => Err(p),
                }
            },
        }
    }
}

/// The statements of a block after its opening brace, up to and including the
/// closing brace. Whitespace after each `;` is skipped.
pub open spec fn body(s: Seq<char>, i: int) -> Result<(Seq<SpecStatement>, int), int>
    decreases s.len() - i, 7int,
{
    if !(0 <= i <= s.len()) {
        Err(i)
    } else if char_at(s, i, '}') {
        Ok((Seq::empty(), i + 1))
    } else if i >= s.len() {
        Err(i)
    } else {
        match statement(s, i) {
            Err(p) => Err(p),
            Ok((st, j)) => if j < i || j > s.len() {
                Err(i)
            } else {
                let k2 = skip_space(s, j);
                proof {
                    lemma_skip_space(s, j);
                }
                if char_at(s, k2, ';') {
                    proof {
                        lemma_skip_space(s, k2 + 1);
                    }
                    prepend(st, body(s, skip_space(s, k2 + 1)))
                } else {
                    Err(k2)
                }
            },
        }
    }
}

/// The statements of a file from `i` to the end of the text. Whitespace after
/// each `;` is skipped.
pub open spec fn file(s: Seq<char>, i: int) -> Result<(Seq<SpecStatement>, int), int>
    decreases s.len() - i, 7int,
{
    if !(0 <= i <= s.len()) {
        Err(i)
    } else if i == s.len() {
        Ok((Seq::empty(), i))
    } else {
        match statement(s, i) {
            Err(p) => Err(p),
            Ok((st, j)) => if j < i || j > s.len() {
                Err(i)
            } else {
                let k2 = skip_space(s, j);
                proof {
                    lemma_skip_space(s, j);
                }
                if char_at(s, k2, ';') {
                    proof {
                        lemma_skip_space(s, k2 + 1);
                    }
                    prepend(st, file(s, skip_space(s, k2 + 1)))
                } else {
                    Err(k2)
                }
            },
        }
    }
}

/// A whole PDS text: `Ok` with its block, or `Err` with the position at which
/// it does not fit the grammar.
pub open spec fn parse_text(s: Seq<char>) -> Result<SpecBlock, int> {
    match file(s, 0) {
        Ok((stmts, _)) => Ok(SpecBlock { statements: stmts }),
        Err(p) => Err(p),
    }
}

/// An identifier at the start of `s`; a root path may be preceded by
/// whitespace. What follows the identifier is not looked at.
pub open spec fn parse_ident_text(s: Seq<char>) -> Result<SpecIdent, int> {
    match name(s, 0) {
        Ok((n, _)) => Ok(SpecIdent::Simple(n)),
        Err(_) => {
            let k = skip_space(s, 0);
            match ident(s, k) {
                Ok((SpecIdent::RootNs(p), _)) => Ok(SpecIdent::RootNs(p)),
                Ok((SpecIdent::Simple(_), _)) => Err(k),
                Err(p) => Err(p),
            }
        },
    }
}

/// No two attributes of a statement share a name.
pub open spec fn names_distinct(attrs: Seq<(Seq<char>, Seq<SpecValue>)>) -> bool {
    forall|j: int, k: int|
        0 <= j < attrs.len() && 0 <= k < attrs.len() && j != k ==> #[trigger] attrs[j].0
            != #[trigger] attrs[k].0
}

/// Every statement inside the value has attributes with distinct names.
pub open spec fn value_names_distinct(v: SpecValue) -> bool
    decreases v, 0nat,
{
    match v {
        SpecValue::Str { .. } => true,
        SpecValue::Item(it) => item_names_distinct(it),
    }
}

/// Every statement inside the item has attributes with distinct names.
pub open spec fn item_names_distinct(it: SpecItem) -> bool
    decreases it, 0nat,
{
    &&& forall|k: int| 0 <= k < it.args.len() ==> value_names_distinct(#[trigger] it.args[k].value)
    &&& forall|k: int|
        0 <= k < it.block.statements.len() ==> statement_names_distinct(
            #[trigger] it.block.statements[k],
        )
}

/// The statement, and every statement inside it, has attributes with distinct names.
pub open spec fn statement_names_distinct(st: SpecStatement) -> bool
    decreases st, 0nat,
{
    &&& names_distinct(st.attributes)
    &&& forall|k: int, m: int|
        0 <= k < st.attributes.len() && 0 <= m < st.attributes[k].1.len()
            ==> value_names_distinct(#[trigger] st.attributes[k].1[m])
    &&& forall|k: int| 0 <= k < st.items.len() ==> value_names_distinct(#[trigger] st.items[k])
}

/// Every statement of the block, nested ones included, has attributes with
/// distinct names.
pub open spec fn block_names_distinct(b: SpecBlock) -> bool {
    forall|k: int| 0 <= k < b.statements.len() ==> statement_names_distinct(#[trigger] b.statements[k])
}

/// Merging keeps one attribute per name, each taken from the raw list.
proof fn lemma_merge_attributes(raw: Seq<(Seq<char>, Seq<SpecValue>)>)
    ensures
        names_distinct(merge_attributes(raw)),
        forall|k: int|
            0 <= k < merge_attributes(raw).len() ==> exists|j: int|
                0 <= j < raw.len() && raw[j] == #[trigger] merge_attributes(raw)[k],
    decreases raw.len(),
{
    if raw.len() > 0 {
        let init = raw.drop_last();
        let m = merge_attributes(init);
        lemma_merge_attributes(init);
        lemma_named_position(m, raw.last().0);
        let r = merge_attributes(raw);
        assert forall|k: int| 0 <= k < r.len() implies exists|j: int|
            0 <= j < raw.len() && raw[j] == #[trigger] r[k] by {
            if r[k] == raw.last() {
                assert(raw[raw.len() - 1] == r[k]);
            } else {
                assert(r[k] == m[k]);
                let j = choose|j: int| 0 <= j < init.len() && init[j] == m[k];
                assert(raw[j] == init[j]);
            }
        }
        match named_position(m, raw.last().0) {
            Some(p) => {
                assert forall|j: int, k: int|
                    0 <= j < r.len() && 0 <= k < r.len() && j != k implies #[trigger] r[j].0
                    != #[trigger] r[k].0 by {
                    assert(r[j].0 == m[j].0);
                    assert(r[k].0 == m[k].0);
                }
            },
            None => {},
        }
    }
}

proof fn lemma_value_names(s: Seq<char>, i: int)
    ensures
        value(s, i) matches Ok((v, _)) ==> value_names_distinct(v),
    decreases s.len() - i, 1int,
{
    if 0 <= i <= s.len() && !triple_quote_at(s, i) && !char_at(s, i, '"') {
        let j = skip_space(s, i);
        lemma_skip_space(s, i);
        lemma_item_names(s, j);
    }
}

proof fn lemma_item_names(s: Seq<char>, i: int)
    ensures
        item(s, i) matches Ok((it, _)) ==> item_names_distinct(it),
    decreases s.len() - i, 0int,
{
    if 0 <= i <= s.len() {
        if let Ok((id, j)) = ident(s, i) {
            if !(j <= i || j > s.len()) {
                let k = skip_space(s, j);
                lemma_skip_space(s, j);
                if char_at(s, k, '(') {
                    lemma_arg_list_names(s, k + 1);
                }
                let args_res = if char_at(s, k, '(') {
                    arg_list(s, k + 1)
                } else {
                    Ok((Seq::empty(), j))
                };
                if let Ok((args, a)) = args_res {
                    if !(a < j || a > s.len()) {
                        let k2 = skip_space(s, a);
                        lemma_skip_space(s, a);
                        if char_at(s, k2, '{') {
                            lemma_body_names(s, k2 + 1);
                        }
                    }
                }
            }
        }
    }
}

proof fn lemma_arg_list_names(s: Seq<char>, i: int)
    ensures
        arg_list(s, i) matches Ok((args, _)) ==> forall|k: int|
            0 <= k < args.len() ==> value_names_distinct(#[trigger] args[k].value),
    decreases s.len() - i, 3int,
{
    if 0 <= i <= s.len() {
        lemma_arg_names(s, i);
        if let Ok((a, j)) = arg(s, i) {
            if !(j <= i || j > s.len()) {
                lemma_arg_list_more_names(s, j);
                lemma_prepend_args(a, arg_list_more(s, j));
            }
        }
    }
}

proof fn lemma_prepend_args(a: SpecArg, r: Result<(Seq<SpecArg>, int), int>)
    requires
        value_names_distinct(a.value),
        r matches Ok((rest, _)) ==> forall|k: int|
            0 <= k < rest.len() ==> value_names_distinct(#[trigger] rest[k].value),
    ensures
        prepend(a, r) matches Ok((args, _)) ==> forall|k: int|
            0 <= k < args.len() ==> value_names_distinct(#[trigger] args[k].value),
{
    if let Ok((rest, e)) = r {
        let args = seq![a] + rest;
        assert forall|k: int| 0 <= k < args.len() implies value_names_distinct(
            #[trigger] args[k].value,
        ) by {
            if k > 0 {
                assert(args[k] == rest[k - 1]);
            }
        }
    }
}

proof fn lemma_arg_list_more_names(s: Seq<char>, i: int)
    ensures
        arg_list_more(s, i) matches Ok((args, _)) ==> forall|k: int|
            0 <= k < args.len() ==> value_names_distinct(#[trigger] args[k].value),
    decreases s.len() - i, 3int,
{
    let k = skip_space(s, i);
    if 0 <= i <= s.len() && char_at(s, k, ',') {
        lemma_skip_space(s, i);
        lemma_arg_names(s, k + 1);
        if let Ok((a, j)) = arg(s, k + 1) {
            if !(j <= k + 1 || j > s.len()) {
                lemma_arg_list_more_names(s, j);
                lemma_prepend_args(a, arg_list_more(s, j));
            }
        }
    }
}

proof fn lemma_arg_names(s: Seq<char>, i: int)
    ensures
        arg(s, i) matches Ok((a, _)) ==> value_names_distinct(a.value),
    decreases s.len() - i, 2int,
{
    let j = skip_space(s, i);
    let t = ident_end(s, j);
    if 0 <= i <= s.len() {
        lemma_skip_space(s, i);
        lemma_ident_end(s, j);
        if t > j && char_at(s, t, ':') {
            lemma_skip_space(s, t + 1);
            lemma_value_names(s, skip_space(s, t + 1));
        } else {
            lemma_value_names(s, j);
        }
    }
}

proof fn lemma_prepend_values(v: SpecValue, r: Result<(Seq<SpecValue>, int), int>)
    requires
        value_names_distinct(v),
        r matches Ok((rest, _)) ==> forall|k: int|
            0 <= k < rest.len() ==> value_names_distinct(#[trigger] rest[k]),
    ensures
        prepend(v, r) matches Ok((vs, _)) ==> forall|k: int|
            0 <= k < vs.len() ==> value_names_distinct(#[trigger] vs[k]),
{
    if let Ok((rest, e)) = r {
        let vs = seq![v] + rest;
        assert forall|k: int| 0 <= k < vs.len() implies value_names_distinct(#[trigger] vs[k]) by {
            if k > 0 {
                assert(vs[k] == rest[k - 1]);
            }
        }
    }
}

proof fn lemma_items_names(s: Seq<char>, i: int)
    ensures
        items(s, i) matches Ok((vs, _)) ==> forall|k: int|
            0 <= k < vs.len() ==> value_names_distinct(#[trigger] vs[k]),
    decreases s.len() - i, 4int,
{
    if 0 <= i <= s.len() {
        lemma_value_names(s, i);
        if let Ok((v, j)) = value(s, i) {
            if !(j <= i || j > s.len()) {
                lemma_items_more_names(s, j);
                lemma_prepend_values(v, items_more(s, j));
            }
        }
    }
}

proof fn lemma_items_more_names(s: Seq<char>, i: int)
    ensures
        items_more(s, i) matches Ok((vs, _)) ==> forall|k: int|
            0 <= k < vs.len() ==> value_names_distinct(#[trigger] vs[k]),
    decreases s.len() - i, 4int,
{
    let k = skip_space(s, i);
    if 0 <= i <= s.len() && char_at(s, k, '=') && char_at(s, k + 1, '>') {
        lemma_skip_space(s, i);
        lemma_value_names(s, k + 2);
        if let Ok((v, j)) = value(s, k + 2) {
            if !(j <= k + 2 || j > s.len()) {
                lemma_items_more_names(s, j);
                lemma_prepend_values(v, items_more(s, j));
            }
        }
    }
}

/// The values of every attribute in `attrs` have distinct attribute names inside.
pub open spec fn attribute_values_distinct(attrs: Seq<(Seq<char>, Seq<SpecValue>)>) -> bool {
    forall|k: int, m: int|
        0 <= k < attrs.len() && 0 <= m < attrs[k].1.len() ==> value_names_distinct(
            #[trigger] attrs[k].1[m],
        )
}

proof fn lemma_attribute_names(s: Seq<char>, i: int)
    ensures
        attribute(s, i) matches Ok((a, _)) ==> forall|m: int|
            0 <= m < a.1.len() ==> value_names_distinct(#[trigger] a.1[m]),
    decreases s.len() - i, 0int,
{
    let j = skip_space(s, i);
    if 0 <= i <= s.len() {
        lemma_skip_space(s, i);
        if let Ok((n, k)) = name(s, j + 1) {
            lemma_ident_end(s, j + 1);
            lemma_skip_space(s, k);
            lemma_items_names(s, skip_space(s, k));
        }
    }
}

proof fn lemma_attributes_names(s: Seq<char>, i: int)
    ensures
        attributes(s, i) matches Ok((raw, _)) ==> attribute_values_distinct(raw),
    decreases s.len() - i, 5int,
{
    let j = skip_space(s, i);
    if 0 <= i <= s.len() && char_at(s, j, '@') {
        lemma_attribute_names(s, i);
        if let Ok((a, e)) = attribute(s, i) {
            if !(e <= i || e > s.len()) {
                lemma_attributes_names(s, e);
                if let Ok((rest, f)) = attributes(s, e) {
                    let raw = seq![a] + rest;
                    assert forall|k: int, m: int|
                        0 <= k < raw.len() && 0 <= m < raw[k].1.len() implies value_names_distinct(
                        #[trigger] raw[k].1[m],
                    ) by {
                        if k > 0 {
                            assert(raw[k] == rest[k - 1]);
                        }
                    }
                }
            }
        }
    }
}

proof fn lemma_statement_names(s: Seq<char>, i: int)
    ensures
        statement(s, i) matches Ok((st, _)) ==> statement_names_distinct(st),
    decreases s.len() - i, 6int,
{
    if 0 <= i <= s.len() {
        lemma_attributes_names(s, i);
        if let Ok((raw, j)) = attributes(s, i) {
            if !(j < i || j > s.len()) {
                lemma_items_names(s, j);
                lemma_merge_attributes(raw);
                let merged = merge_attributes(raw);
                assert forall|k: int, m: int|
                    0 <= k < merged.len() && 0 <= m < merged[k].1.len() implies value_names_distinct(
                    #[trigger] merged[k].1[m],
                ) by {
                    let q = choose|q: int| 0 <= q < raw.len() && raw[q] == merged[k];
                    assert(raw[q].1[m] == merged[k].1[m]);
                }
            }
        }
    }
}

proof fn lemma_prepend_statements(st: SpecStatement, r: Result<(Seq<SpecStatement>, int), int>)
    requires
        statement_names_distinct(st),
        r matches Ok((rest, _)) ==> forall|k: int|
            0 <= k < rest.len() ==> statement_names_distinct(#[trigger] rest[k]),
    ensures
        prepend(st, r) matches Ok((ss, _)) ==> forall|k: int|
            0 <= k < ss.len() ==> statement_names_distinct(#[trigger] ss[k]),
{
    if let Ok((rest, e)) = r {
        let ss = seq![st] + rest;
        assert forall|k: int| 0 <= k < ss.len() implies statement_names_distinct(#[trigger] ss[k]) by {
            if k > 0 {
                assert(ss[k] == rest[k - 1]);
            }
        }
    }
}

proof fn lemma_body_names(s: Seq<char>, i: int)
    ensures
        body(s, i) matches Ok((ss, _)) ==> forall|k: int|
            0 <= k < ss.len() ==> statement_names_distinct(#[trigger] ss[k]),
    decreases s.len() - i, 7int,
{
    if 0 <= i < s.len() && !char_at(s, i, '}') {
        lemma_statement_names(s, i);
        if let Ok((st, j)) = statement(s, i) {
            if !(j < i || j > s.len()) {
                let k2 = skip_space(s, j);
                lemma_skip_space(s, j);
                if char_at(s, k2, ';') {
                    lemma_skip_space(s, k2 + 1);
                    lemma_body_names(s, skip_space(s, k2 + 1));
                    lemma_prepend_statements(st, body(s, skip_space(s, k2 + 1)));
                }
            }
        }
    }
}

proof fn lemma_file_names(s: Seq<char>, i: int)
    ensures
        file(s, i) matches Ok((ss, _)) ==> forall|k: int|
            0 <= k < ss.len() ==> statement_names_distinct(#[trigger] ss[k]),
    decreases s.len() - i,
{
    if 0 <= i < s.len() {
        lemma_statement_names(s, i);
        if let Ok((st, j)) = statement(s, i) {
            if !(j < i || j > s.len()) {
                let k2 = skip_space(s, j);
                lemma_skip_space(s, j);
                if char_at(s, k2, ';') {
                    lemma_skip_space(s, k2 + 1);
                    lemma_file_names(s, skip_space(s, k2 + 1));
                    lemma_prepend_statements(st, file(s, skip_space(s, k2 + 1)));
                }
            }
        }
    }
}

/// In a parsed file, no statement (nested ones included) has two attributes
/// with the same name: a repeated attribute replaces the earlier one.
pub proof fn lemma_parsed_attribute_names_distinct(s: Seq<char>)
    ensures
        parse_text(s) matches Ok(b) ==> block_names_distinct(b),
{
    lemma_file_names(s, 0);
}

} // verus!
