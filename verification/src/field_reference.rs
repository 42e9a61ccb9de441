//! References from one field of a type to another, written `../../name`.

use vstd::prelude::*;

use crate::text::{chars_of, string_from_chars};

verus! {

/// A reference to a field: go `up` levels towards the root, then take the
/// child named `name`.
#[derive(Debug, Clone, Eq, Hash)]
pub struct FieldReference {
    pub up: usize,
    pub name: String,
}

/// A character allowed in a field name: an ASCII letter or digit, or `_`.
pub open spec fn is_name_char(c: char) -> bool {
    ('0' <= c && c <= '9') || ('a' <= c && c <= 'z') || ('A' <= c && c <= 'Z') || c == '_'
}

/// `s` starts with the parent step `../`.
pub open spec fn starts_with_up(s: Seq<char>) -> bool {
    s.len() >= 3 && s[0] == '.' && s[1] == '.' && s[2] == '/'
}

/// The number of leading `../` steps of `s`.
pub open spec fn count_up(s: Seq<char>) -> nat
    decreases s.len(),
{
    if starts_with_up(s) {
        count_up(s.skip(3)) + 1
    } else {
        0
    }
}

/// What is left of `s` once its leading `../` steps are removed.
pub open spec fn strip_up(s: Seq<char>) -> Seq<char>
    decreases s.len(),
{
    if starts_with_up(s) {
        strip_up(s.skip(3))
    } else {
        s
    }
}

/// Every character of `s` may stand in a field name.
pub open spec fn is_field_name(s: Seq<char>) -> bool {
    forall|i: int| 0 <= i < s.len() ==> is_name_char(#[trigger] s[i])
}

impl PartialEq for FieldReference {
    fn eq(&self, other: &Self) -> (res: bool) {
        self.up == other.up && self.name == other.name
    }
}

impl vstd::std_specs::cmp::PartialEqSpecImpl for FieldReference {
    open spec fn obeys_eq_spec() -> bool {
        true
    }

    open spec fn eq_spec(&self, other: &Self) -> bool {
        self.up == other.up && self.name@ == other.name@
    }
}

proof fn lemma_up_step(s: Seq<char>, pos: int)
    requires
        0 <= pos,
        pos + 3 <= s.len(),
        s[pos] == '.' && s[pos + 1] == '.' && s[pos + 2] == '/',
    ensures
        count_up(s.skip(pos)) == count_up(s.skip(pos + 3)) + 1,
        strip_up(s.skip(pos)) == strip_up(s.skip(pos + 3)),
{
    let rest = s.skip(pos);
    assert(starts_with_up(rest));
    assert(rest.skip(3) =~= s.skip(pos + 3));
}

fn is_name_char_exec(c: char) -> (res: bool)
    ensures
        res == is_name_char(c),
{
    ('0' <= c && c <= '9') || ('a' <= c && c <= 'z') || ('A' <= c && c <= 'Z') || c == '_'
}

impl FieldReference {
    /// Parses a field reference: any number of `../` steps followed by a name
    /// made of ASCII letters, digits and `_`. Returns `None` when the name holds
    /// any other character.
    pub fn parse(source: &str) -> (res: Option<FieldReference>)
        ensures
            res is Some <==> is_field_name(strip_up(source@)),
            res matches Some(r) ==> r.up == count_up(source@) && r.name@ == strip_up(source@),
    {
        let chars = chars_of(source);
        let len = chars.len();
        let mut pos: usize = 0;
        let mut up: usize = 0;
        proof {
            assert(source@.skip(0) =~= source@);
        }
        while len - pos >= 3 && chars[pos] == '.' && chars[pos + 1] == '.' && chars[pos + 2] == '/'
            invariant
                chars@ == source@,
                len == chars.len(),
                pos == 3 * up,
                pos <= len,
                count_up(source@) == up + count_up(source@.skip(pos as int)),
                strip_up(source@) == strip_up(source@.skip(pos as int)),
            decreases len - pos,
        {
            proof {
                lemma_up_step(source@, pos as int);
            }
            pos += 3;
            up += 1;
        }
        proof {
            let rest = source@.skip(pos as int);
            assert(!starts_with_up(rest));
        }
        let mut i = pos;
        while i < len
            invariant
                chars@ == source@,
                len == chars.len(),
                pos <= i <= len,
                strip_up(source@) == source@.skip(pos as int),
                forall|j: int| pos <= j < i ==> is_name_char(#[trigger] chars@[j]),
            decreases len - i,
        {
            if !is_name_char_exec(chars[i]) {
                proof {
                    assert(!is_name_char(strip_up(source@)[i - pos]));
                }
                return None;
            }
            i += 1;
        }
        let name = string_from_chars(&chars, pos, len);
        proof {
            assert(name@ =~= strip_up(source@));
            assert forall|j: int| 0 <= j < name@.len() implies is_name_char(#[trigger] name@[j]) by {
                assert(name@[j] == chars@[j + pos]);
            }
        }
        Some(FieldReference { up: up, name: name })
    }
}

} // verus!
