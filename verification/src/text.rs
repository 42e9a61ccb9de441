//! Character-level helpers shared by the parsers and code printers.

use vstd::prelude::*;

verus! {

/// Appends one character to a string (std's `String::push`).
#[verifier::external_body]
pub fn push_char(s: &mut String, c: char)
    ensures
        final(s)@ == old(s)@.push(c),
{
    s.push(c);
}

/// The characters of a string slice, in order.
pub fn chars_of(s: &str) -> (res: Vec<char>)
    ensures
        res@ == s@,
{
    let mut res: Vec<char> = Vec::new();
    for c in it: s.chars()
        invariant
            res@ == it.seq().take(it.index() as int),
    {
        res.push(c);
    }
    res
}

/// A string holding the characters `chars[from..to]`.
pub fn string_from_chars(chars: &Vec<char>, from: usize, to: usize) -> (res: String)
    requires
        from <= to <= chars.len(),
    ensures
        res@ == chars@.subrange(from as int, to as int),
{
    let mut res = String::new();
    let mut i = from;
    while i < to
        invariant
            from <= i <= to <= chars.len(),
            res@ == chars@.subrange(from as int, i as int),
        decreases to - i,
    {
        push_char(&mut res, chars[i]);
        i += 1;
    }
    res
}

} // verus!

verus! {

/// `n` space characters.
pub open spec fn spaces(n: nat) -> Seq<char> {
    Seq::new(n, |_i: int| ' ')
}

/// The indentation of the code printers: four spaces per level.
pub open spec fn indent(level: nat) -> Seq<char> {
    spaces(4 * level)
}

/// The items of `items`, separated by `sep`.
pub open spec fn join(items: Seq<Seq<char>>, sep: Seq<char>) -> Seq<char>
    decreases items.len(),
{
    if items.len() == 0 {
        Seq::empty()
    } else if items.len() == 1 {
        items[0]
    } else {
        join(items.drop_last(), sep) + sep + items.last()
    }
}

/// Each item of `items` followed by `sep`.
pub open spec fn terminated(items: Seq<Seq<char>>, sep: Seq<char>) -> Seq<char>
    decreases items.len(),
{
    if items.len() == 0 {
        Seq::empty()
    } else {
        terminated(items.drop_last(), sep) + items.last() + sep
    }
}

/// The views of a list of strings.
pub open spec fn string_views(v: Seq<String>) -> Seq<Seq<char>> {
    v.map_values(|s: String| s@)
}

/// Two strings joined by `sep` are the first, `sep` and the second.
pub proof fn lemma_join_views_pair(v: Seq<String>, sep: Seq<char>)
    requires
        v.len() == 2,
    ensures
        join(string_views(v), sep) == v[0]@ + sep + v[1]@,
{
    let items = string_views(v);
    assert(items.len() == 2);
    assert(items.drop_last().len() == 1);
    assert(items.drop_last()[0] == v[0]@);
    assert(join(items.drop_last(), sep) == v[0]@);
    assert(items.last() == v[1]@);
}

pub proof fn lemma_join_terminated(items: Seq<Seq<char>>, sep: Seq<char>)
    requires
        items.len() > 0,
    ensures
        join(items, sep) == terminated(items.drop_last(), sep) + items.last(),
    decreases items.len(),
{
    if items.len() == 1 {
        assert(terminated(items.drop_last(), sep) =~= Seq::empty());
        assert(join(items, sep) =~= terminated(items.drop_last(), sep) + items.last());
    } else {
        lemma_join_terminated(items.drop_last(), sep);
        assert(items.drop_last().drop_last() =~= items.drop_last().drop_last());
        assert(join(items, sep) =~= terminated(items.drop_last(), sep) + items.last());
    }
}

/// Writes `4 * level` spaces.
pub fn pad_level(out: &mut String, level: u64)
    ensures
        final(out)@ == old(out)@ + indent(level as nat),
{
    let mut i: u64 = 0;
    while i < level
        invariant
            i <= level,
            out@ == old(out)@ + spaces(4 * i as nat),
        decreases level - i,
    {
        proof {
            reveal_strlit("    ");
        }
        out.append("    ");
        proof {
            assert(old(out)@ + spaces(4 * (i + 1) as nat) =~= old(out)@ + spaces(4 * i as nat)
                + "    "@);
        }
        i += 1;
    }
}

/// Writes the strings of `items` separated by `sep`.
pub fn push_joined(out: &mut String, items: &Vec<String>, sep: &str)
    ensures
        final(out)@ == old(out)@ + join(string_views(items@), sep@),
{
    let ghost views = string_views(items@);
    if items.len() > 0 {
        let n = items.len() - 1;
        let mut num: usize = 0;
        while num < n
            invariant
                n == items.len() - 1,
                num <= n,
                views == string_views(items@),
                out@ == old(out)@ + terminated(views.take(num as int), sep@),
            decreases n - num,
        {
            out.append(items[num].as_str());
            out.append(sep);
            proof {
                assert(views.take(num + 1).drop_last() =~= views.take(num as int));
                assert(out@ =~= old(out)@ + terminated(views.take(num + 1), sep@));
            }
            num += 1;
        }
        out.append(items[n].as_str());
        proof {
            lemma_join_terminated(views, sep@);
            assert(views.take(n as int) =~= views.drop_last());
            assert(out@ =~= old(out)@ + join(views, sep@));
        }
    } else {
        proof {
            assert(out@ =~= old(out)@ + join(views, sep@));
        }
    }
}

/// The decimal digit character for `d < 10`.
pub open spec fn digit_char(d: nat) -> char {
    (48 + d) as char
}

/// The decimal form of `n`, without leading zeros.
pub open spec fn decimal_text(n: nat) -> Seq<char>
    decreases n,
{
    if n < 10 {
        seq![digit_char(n)]
    } else {
        decimal_text(n / 10).push(digit_char(n % 10))
    }
}

/// Writes `n` in decimal.
pub fn push_decimal(out: &mut String, n: u64)
    ensures
        final(out)@ == old(out)@ + decimal_text(n as nat),
    decreases n,
{
    if n >= 10 {
        push_decimal(out, n / 10);
    }
    let d: u8 = (n % 10) as u8;
    let c = (48u8 + d) as char;
    push_char(out, c);
    proof {
        assert(out@ =~= old(out)@ + decimal_text(n as nat));
    }
}

/// An ASCII lower-case letter.
pub open spec fn is_ascii_lower(c: char) -> bool {
    'a' <= c && c <= 'z'
}

/// An ASCII upper-case letter.
pub open spec fn is_ascii_upper(c: char) -> bool {
    'A' <= c && c <= 'Z'
}

/// `c` in upper case when it is an ASCII lower-case letter.
pub open spec fn upper(c: char) -> char {
    if is_ascii_lower(c) {
        ((c as int) - 32) as char
    } else {
        c
    }
}

/// `c` in lower case when it is an ASCII upper-case letter.
pub open spec fn lower(c: char) -> char {
    if is_ascii_upper(c) {
        ((c as int) + 32) as char
    } else {
        c
    }
}

/// The PascalCase form of `s`, with `cap` telling whether the next letter
/// starts a word: underscores are dropped, and the first character of each
/// word is made upper case.
pub open spec fn pascal_from(s: Seq<char>, cap: bool) -> Seq<char>
    decreases s.len(),
{
    if s.len() == 0 {
        Seq::empty()
    } else if s[0] == '_' {
        pascal_from(s.drop_first(), true)
    } else {
        seq![if cap { upper(s[0]) } else { s[0] }] + pascal_from(s.drop_first(), false)
    }
}

/// The PascalCase form of a snake_case name: `field_name` becomes `FieldName`.
pub open spec fn pascal_case(s: Seq<char>) -> Seq<char> {
    pascal_from(s, true)
}

/// The snake_case form of `s`, with `first` telling whether nothing has been
/// written yet: each upper-case letter becomes lower case, preceded by `_`
/// unless it starts the name.
pub open spec fn snake_from(s: Seq<char>, first: bool) -> Seq<char>
    decreases s.len(),
{
    if s.len() == 0 {
        Seq::empty()
    } else if is_ascii_upper(s[0]) {
        (if first { Seq::empty() } else { seq!['_'] }) + seq![lower(s[0])] + snake_from(
            s.drop_first(),
            false,
        )
    } else {
        seq![s[0]] + snake_from(s.drop_first(), false)
    }
}

/// The snake_case form of a name: `FieldName` becomes `field_name`, and a
/// snake_case name stays as it is.
pub open spec fn snake_case(s: Seq<char>) -> Seq<char> {
    snake_from(s, true)
}

fn upper_exec(c: char) -> (res: char)
    ensures
        res == upper(c),
{
    if 'a' <= c && c <= 'z' {
        let u: u8 = ((c as u32) - 32) as u8;
        u as char
    } else {
        c
    }
}

fn lower_exec(c: char) -> (res: char)
    ensures
        res == lower(c),
{
    if 'A' <= c && c <= 'Z' {
        let u: u8 = ((c as u32) + 32) as u8;
        u as char
    } else {
        c
    }
}

/// Writes the PascalCase form of `name`.
pub fn push_pascal(out: &mut String, name: &str)
    ensures
        final(out)@ == old(out)@ + pascal_case(name@),
{
    let v = chars_of(name);
    let ghost target = old(out)@ + pascal_case(v@);
    let mut cap = true;
    let mut i: usize = 0;
    proof {
        assert(v@.subrange(0, v@.len() as int) =~= v@);
    }
    while i < v.len()
        invariant
            i <= v@.len(),
            out@ + pascal_from(v@.subrange(i as int, v@.len() as int), cap) == target,
        decreases v@.len() - i,
    {
        let ghost rest = v@.subrange(i as int, v@.len() as int);
        proof {
            assert(rest.drop_first() =~= v@.subrange(i + 1, v@.len() as int));
        }
        let c = v[i];
        if c == '_' {
            cap = true;
        } else {
            let d = if cap {
                upper_exec(c)
            } else {
                c
            };
            push_char(out, d);
            cap = false;
        }
        proof {
            assert(out@ + pascal_from(v@.subrange(i + 1, v@.len() as int), cap) =~= target);
        }
        i += 1;
    }
    proof {
        assert(out@ + pascal_from(v@.subrange(i as int, v@.len() as int), cap) =~= out@);
    }
}

/// Writes the snake_case form of `name`.
pub fn push_snake(out: &mut String, name: &str)
    ensures
        final(out)@ == old(out)@ + snake_case(name@),
{
    let v = chars_of(name);
    let ghost target = old(out)@ + snake_case(v@);
    let mut first = true;
    let mut i: usize = 0;
    proof {
        assert(v@.subrange(0, v@.len() as int) =~= v@);
    }
    while i < v.len()
        invariant
            i <= v@.len(),
            out@ + snake_from(v@.subrange(i as int, v@.len() as int), first) == target,
        decreases v@.len() - i,
    {
        let ghost rest = v@.subrange(i as int, v@.len() as int);
        proof {
            assert(rest.drop_first() =~= v@.subrange(i + 1, v@.len() as int));
        }
        let c = v[i];
        if 'A' <= c && c <= 'Z' {
            if !first {
                push_char(out, '_');
            }
            push_char(out, lower_exec(c));
        } else {
            push_char(out, c);
        }
        first = false;
        proof {
            assert(out@ + snake_from(v@.subrange(i + 1, v@.len() as int), first) =~= target);
        }
        i += 1;
    }
    proof {
        assert(out@ + snake_from(v@.subrange(i as int, v@.len() as int), first) =~= out@);
    }
}

/// One level of indentation: four spaces.
pub open spec fn four_spaces() -> Seq<char> {
    seq![' ', ' ', ' ', ' ']
}

/// `t` with four spaces put at the start of every line; `start` tells whether
/// `t` begins at the start of a line.
pub open spec fn shift_from(t: Seq<char>, start: bool) -> Seq<char>
    decreases t.len(),
{
    if t.len() == 0 {
        Seq::empty()
    } else {
        (if start {
            four_spaces()
        } else {
            Seq::empty()
        }) + seq![t[0]] + shift_from(t.drop_first(), t[0] == '\n')
    }
}

/// Whether the text after `t` starts a line, given whether `t` itself did.
pub open spec fn end_state(t: Seq<char>, start: bool) -> bool {
    if t.len() == 0 {
        start
    } else {
        t.last() == '\n'
    }
}

/// `t` holds no line break.
pub open spec fn no_newline(t: Seq<char>) -> bool {
    forall|k: int| 0 <= k < t.len() ==> t[k] != '\n'
}

pub proof fn lemma_shift_cat(a: Seq<char>, b: Seq<char>, st: bool)
    ensures
        shift_from(a + b, st) == shift_from(a, st) + shift_from(b, end_state(a, st)),
    decreases a.len(),
{
    if a.len() == 0 {
        assert(a + b =~= b);
        assert(shift_from(a, st) + shift_from(b, st) =~= shift_from(b, st));
    } else {
        let a1 = a.drop_first();
        lemma_shift_cat(a1, b, a[0] == '\n');
        assert((a + b).drop_first() =~= a1 + b);
        assert((a + b)[0] == a[0]);
        if a1.len() > 0 {
            assert(a1.last() == a.last());
        }
        let p = if st {
            four_spaces()
        } else {
            Seq::<char>::empty()
        };
        assert(shift_from(a + b, st) =~= p + seq![a[0]] + shift_from(a1 + b, a[0] == '\n'));
        assert(shift_from(a, st) =~= p + seq![a[0]] + shift_from(a1, a[0] == '\n'));
    }
}

pub proof fn lemma_shift_flat(x: Seq<char>)
    requires
        no_newline(x),
    ensures
        shift_from(x, false) == x,
        x.len() > 0 ==> !end_state(x, false),
    decreases x.len(),
{
    if x.len() > 0 {
        lemma_shift_flat(x.drop_first());
        assert(x[0] != '\n');
        if x.len() > 1 {
            assert(x.drop_first().last() == x.last());
        }
        assert(seq![x[0]] + x.drop_first() =~= x);
    }
}

/// A line without breaks, ended by a break, is copied when it does not start a line.
pub proof fn lemma_shift_line(x: Seq<char>)
    requires
        no_newline(x),
    ensures
        shift_from(x + seq!['\n'], false) == x + seq!['\n'],
        end_state(x + seq!['\n'], false),
{
    lemma_shift_cat(x, seq!['\n'], false);
    lemma_shift_flat(x);
    assert(end_state(x, false) == false);
    let nl = seq!['\n'];
    assert(nl.drop_first() =~= Seq::<char>::empty());
    assert(shift_from(nl.drop_first(), true) =~= Seq::<char>::empty());
    assert(nl[0] == '\n');
    assert(shift_from(nl, false) =~= seq![nl[0]] + shift_from(nl.drop_first(), true));
    assert(shift_from(nl, false) =~= nl);
    assert((x + nl).last() == '\n');
}

/// Text that starts a line after `level` levels of indentation gets one level more.
pub proof fn lemma_shift_indent(l: nat, t: Seq<char>)
    requires
        t.len() > 0,
    ensures
        shift_from(indent(l) + t, true) == indent(l + 1) + shift_from(t, false),
{
    lemma_shift_cat(indent(l), t, true);
    assert(indent(l + 1) =~= four_spaces() + indent(l));
    if l == 0 {
        assert(indent(l) =~= Seq::<char>::empty());
        assert(indent(l) + t =~= t);
        assert(shift_from(t, true) =~= four_spaces() + seq![t[0]] + shift_from(
            t.drop_first(),
            t[0] == '\n',
        ));
        assert(shift_from(t, false) =~= seq![t[0]] + shift_from(t.drop_first(), t[0] == '\n'));
        assert(shift_from(indent(l), true) =~= Seq::<char>::empty());
    } else {
        let i = indent(l);
        assert(no_newline(i.drop_first()));
        lemma_shift_flat(i.drop_first());
        assert(i[0] == ' ');
        assert(shift_from(i, true) =~= four_spaces() + seq![i[0]] + shift_from(i.drop_first(), false));
        assert(seq![i[0]] + i.drop_first() =~= i);
        if i.len() > 1 {
            assert(i.drop_first().last() == i.last());
        }
        assert(!end_state(i, true));
    }
}

pub proof fn lemma_end_state_cat(a: Seq<char>, b: Seq<char>, st: bool)
    ensures
        end_state(a + b, st) == end_state(b, end_state(a, st)),
{
    if b.len() > 0 {
        assert((a + b).last() == b.last());
    } else {
        assert(a + b =~= a);
    }
}

pub proof fn lemma_no_newline_cat(a: Seq<char>, b: Seq<char>)
    requires
        no_newline(a),
        no_newline(b),
    ensures
        no_newline(a + b),
{
    assert forall|k: int| 0 <= k < (a + b).len() implies (a + b)[k] != '\n' by {
        if k >= a.len() {
            assert((a + b)[k] == b[k - a.len()]);
        }
    }
}

pub proof fn lemma_join_no_newline(items: Seq<Seq<char>>, sep: Seq<char>)
    requires
        no_newline(sep),
        forall|k: int| 0 <= k < items.len() ==> no_newline(#[trigger] items[k]),
    ensures
        no_newline(join(items, sep)),
    decreases items.len(),
{
    if items.len() > 1 {
        lemma_join_no_newline(items.drop_last(), sep);
        assert(no_newline(items[items.len() - 1]));
        lemma_no_newline_cat(join(items.drop_last(), sep), sep);
        lemma_no_newline_cat(join(items.drop_last(), sep) + sep, items.last());
    } else if items.len() == 1 {
        assert(no_newline(items[0]));
    }
}

} // verus!
