//! Lookups and checks on the arguments of items.

use vstd::prelude::*;

use super::{Item, ItemArg, Value, names_view, opt_view, tag_position};

verus! {

/// Why the arguments of an item do not have the expected shape.
#[derive(Debug)]
#[allow(inconsistent_fields)]
pub enum ValidateError {
    /// An untagged argument comes after a tagged one.
    UntaggedNotLeading,
    /// The number of leading untagged arguments differs from the expected one.
    WrongUntaggedCount { expected: usize, found: usize },
    /// A tag that the item does not accept.
    TagNotAccepted { tag: String },
    /// A required tag given more than once.
    DuplicateTag { tag: String },
    /// Not every required tag was given; `found` lists those that were.
    MissingRequiredTags { found: Vec<String> },
}

/// The number of untagged arguments at the start of `args`.
pub open spec fn leading_untagged(args: Seq<ItemArg>) -> nat
    decreases args.len(),
{
    if args.len() == 0 {
        0
    } else {
        let n = leading_untagged(args.drop_last());
        if n == args.len() - 1 && args.last().tag is None {
            n + 1
        } else {
            n
        }
    }
}

/// Some untagged argument comes after a tagged one.
pub open spec fn untagged_after_tagged(args: Seq<ItemArg>) -> bool {
    exists|i: int, j: int|
        0 <= i < j < args.len() && (#[trigger] args[i]).tag is Some && (#[trigger] args[j]).tag is None
}

/// The outcome of checking the tagged arguments in order: each tag must be
/// accepted, and a required tag may occur only once. `Ok` holds the required
/// tags found, in order; `Err((i, not_accepted))` names the first failing
/// argument and whether it failed for not being accepted (else for being a
/// repeated required tag).
pub open spec fn tag_scan(args: Seq<ItemArg>, accepted: Seq<Seq<char>>, required: Seq<Seq<char>>) -> Result<
    Seq<Seq<char>>,
    (int, bool),
>
    decreases args.len(),
{
    if args.len() == 0 {
        Ok(Seq::empty())
    } else {
        match tag_scan(args.drop_last(), accepted, required) {
            Err(e) => Err(e),
            Ok(found) => match args.last().tag {
                None => Ok(found),
                Some(t) => if !accepted.contains(t@) {
                    Err((args.len() - 1, true))
                } else if required.contains(t@) {
                    if found.contains(t@) {
                        Err((args.len() - 1, false))
                    } else {
                        Ok(found.push(t@))
                    }
                } else {
                    Ok(found)
                },
            },
        }
    }
}

/// The arguments pass `Item::validate` with these expectations.
pub open spec fn validate_ok(
    args: Seq<ItemArg>,
    untagged_count: nat,
    accepted: Seq<Seq<char>>,
    required: Seq<Seq<char>>,
) -> bool {
    &&& !untagged_after_tagged(args)
    &&& leading_untagged(args) == untagged_count
    &&& tag_scan(args, accepted, required) matches Ok(found) && found.len() == required.len()
}

/// The views of a list of string slices.
pub open spec fn strs_view(v: Seq<&str>) -> Seq<Seq<char>> {
    v.map_values(|s: &str| s@)
}

fn contains_str(list: &[&str], s: &str) -> (res: bool)
    ensures
        res == strs_view(list@).contains(s@),
{
    let mut i: usize = 0;
    while i < list.len()
        invariant
            i <= list@.len(),
            forall|j: int| 0 <= j < i ==> list@[j]@ != s@,
        decreases list@.len() - i,
    {
        if list[i].to_owned() == s.to_owned() {
            proof {
                assert(strs_view(list@)[i as int] == s@);
            }
            return true;
        }
        i += 1;
    }
    proof {
        if strs_view(list@).contains(s@) {
            let k = choose|k: int| 0 <= k < strs_view(list@).len() && strs_view(list@)[k] == s@;
            assert(list@[k]@ == s@);
        }
    }
    false
}

fn contains_string(list: &Vec<String>, s: &str) -> (res: bool)
    ensures
        res == names_view(list@).contains(s@),
{
    let mut i: usize = 0;
    while i < list.len()
        invariant
            i <= list@.len(),
            forall|j: int| 0 <= j < i ==> list@[j]@ != s@,
        decreases list@.len() - i,
    {
        if list[i] == s.to_owned() {
            proof {
                assert(names_view(list@)[i as int] == s@);
            }
            return true;
        }
        i += 1;
    }
    proof {
        if names_view(list@).contains(s@) {
            let k = choose|k: int| 0 <= k < names_view(list@).len() && names_view(list@)[k] == s@;
            assert(list@[k]@ == s@);
        }
    }
    false
}

impl Item {
    /// The value of the first argument tagged `tag`.
    pub fn get_tagged(&self, tag: &str) -> (res: Option<&Value>)
        ensures
            match tag_position(self.args@, tag@) {
                Some(i) => res == Some(&self.args@[i].value),
                None => res is None,
            },
    {
        self.tagged_arg(tag)
    }

    /// The value of the argument at position `num`.
    pub fn get_num(&self, num: usize) -> (res: Option<&Value>)
        ensures
            num < self.args@.len() ==> res == Some(&self.args@[num as int].value),
            num >= self.args@.len() ==> res is None,
    {
        self.arg(num)
    }

    /// Checks the shape of the arguments: exactly `untagged_count` untagged
    /// arguments, all before the tagged ones; every tag in `accepted`; and every
    /// tag of `required` given exactly once.
    pub fn validate(&self, untagged_count: usize, accepted: &[&str], required: &[&str]) -> (res:
        Result<(), ValidateError>)
        ensures
            res is Ok <==> validate_ok(
                self.args@,
                untagged_count as nat,
                strs_view(accepted@),
                strs_view(required@),
            ),
            untagged_after_tagged(self.args@) ==> res matches Err(ValidateError::UntaggedNotLeading),
            !untagged_after_tagged(self.args@) && leading_untagged(self.args@) != untagged_count
                ==> (res matches Err(ValidateError::WrongUntaggedCount { expected, found }) && expected
                == untagged_count && found == leading_untagged(self.args@)),
            !untagged_after_tagged(self.args@) && leading_untagged(self.args@) == untagged_count
                ==> match tag_scan(self.args@, strs_view(accepted@), strs_view(required@)) {
                Err((i, true)) => res matches Err(ValidateError::TagNotAccepted { tag }) && opt_view(
                    self.args@[i].tag,
                ) == Some(tag@),
                Err((i, false)) => res matches Err(ValidateError::DuplicateTag { tag }) && opt_view(
                    self.args@[i].tag,
                ) == Some(tag@),
                Ok(found) => if found.len() == required@.len() {
                    res is Ok
                } else {
                    res matches Err(ValidateError::MissingRequiredTags { found: f }) && names_view(f@)
                        == found
                },
            },
    {
        let ghost args = self.args@;
        // Untagged arguments
        let mut is_head = true;
        let mut num_leading: usize = 0;
        let mut i: usize = 0;
        while i < self.args.len()
            invariant
                args == self.args@,
                i <= args.len(),
                num_leading == leading_untagged(args.take(i as int)),
                is_head == (num_leading == i),
                num_leading <= i,
                !untagged_after_tagged(args.take(i as int)),
                !is_head ==> exists|k: int| 0 <= k < i && (#[trigger] args[k]).tag is Some,
            decreases args.len() - i,
        {
            let ghost prefix = args.take(i as int);
            let ghost next = args.take(i + 1);
            proof {
                assert(next.drop_last() =~= prefix);
                assert(next.last() == args[i as int]);
            }
            if is_head && self.args[i].tag.is_none() {
                num_leading += 1;
                proof {
                    assert forall|a: int, b: int|
                        0 <= a < b < next.len() && (#[trigger] next[a]).tag is Some implies (
                        #[trigger] next[b]).tag is Some by {
                        assert(next[a] == prefix[a]);
                        if b < i {
                            assert(next[b] == prefix[b]);
                        }
                        lemma_leading_untagged(prefix);
                    }
                }
            } else if !is_head && self.args[i].tag.is_none() {
                proof {
                    let k = choose|k: int| 0 <= k < i && (#[trigger] args[k]).tag is Some;
                    assert(args[k].tag is Some && args[i as int].tag is None);
                }
                return Err(ValidateError::UntaggedNotLeading);
            } else {
                is_head = false;
                proof {
                    assert(args[i as int].tag is Some);
                    assert forall|a: int, b: int|
                        0 <= a < b < next.len() && (#[trigger] next[a]).tag is Some implies (
                        #[trigger] next[b]).tag is Some by {
                        assert(next[a] == prefix[a]);
                        if b < i {
                            assert(next[b] == prefix[b]);
                        }
                    }
                }
            }
            i += 1;
        }
        proof {
            assert(args.take(i as int) =~= args);
        }
        if untagged_count != num_leading {
            return Err(ValidateError::WrongUntaggedCount { expected: untagged_count, found: num_leading });
        }
        // Tagged arguments
        let ghost acc = strs_view(accepted@);
        let ghost req = strs_view(required@);
        let mut required_found: Vec<String> = Vec::new();
        proof {
            assert(args.take(0) =~= Seq::<ItemArg>::empty());
            assert(names_view(required_found@) =~= Seq::<Seq<char>>::empty());
        }
        let mut i: usize = 0;
        while i < self.args.len()
            invariant
                args == self.args@,
                !untagged_after_tagged(args),
                leading_untagged(args) == untagged_count,
                acc == strs_view(accepted@),
                req == strs_view(required@),
                i <= args.len(),
                tag_scan(args.take(i as int), acc, req) == Ok::<Seq<Seq<char>>, (int, bool)>(
                    names_view(required_found@),
                ),
            decreases args.len() - i,
        {
            let ghost prefix = args.take(i as int);
            let ghost next = args.take(i + 1);
            proof {
                assert(next.drop_last() =~= prefix);
                assert(next.last() == args[i as int]);
            }
            let ghost found_before = names_view(required_found@);
            if let Some(tag) = &self.args[i].tag {
                if !contains_str(accepted, tag.as_str()) {
                    proof {
                        lemma_tag_scan_error_persists(args, i + 1, acc, req);
                    }
                    return Err(ValidateError::TagNotAccepted { tag: tag.clone() });
                }
                if contains_str(required, tag.as_str()) {
                    if contains_string(&required_found, tag.as_str()) {
                        proof {
                            lemma_tag_scan_error_persists(args, i + 1, acc, req);
                        }
                        return Err(ValidateError::DuplicateTag { tag: tag.clone() });
                    }
                    required_found.push(tag.clone());
                    proof {
                        assert(names_view(required_found@) =~= found_before.push(tag@));
                        assert(tag_scan(next, acc, req) == Ok::<Seq<Seq<char>>, (int, bool)>(
                            found_before.push(tag@),
                        ));
                    }
                } else {
                    proof {
                        assert(tag_scan(next, acc, req) == Ok::<Seq<Seq<char>>, (int, bool)>(
                            found_before,
                        ));
                    }
                }
            } else {
                proof {
                    assert(tag_scan(next, acc, req) == Ok::<Seq<Seq<char>>, (int, bool)>(found_before));
                }
            }
            i += 1;
        }
        proof {
            assert(args.take(i as int) =~= args);
        }
        if required.len() != required_found.len() {
            return Err(ValidateError::MissingRequiredTags { found: required_found });
        }
        Ok(())
    }

    /// The item has neither arguments nor a block.
    pub fn is_name_only(&self) -> (res: bool)
        ensures
            res == (self.args@.len() == 0 && self.block.statements@.len() == 0),
    {
        self.args.len() == 0 && self.block.statements.len() == 0
    }
}

proof fn lemma_tag_scan_error_persists(
    args: Seq<ItemArg>,
    n: int,
    accepted: Seq<Seq<char>>,
    required: Seq<Seq<char>>,
)
    requires
        0 <= n <= args.len(),
        tag_scan(args.take(n), accepted, required) is Err,
    ensures
        tag_scan(args, accepted, required) == tag_scan(args.take(n), accepted, required),
    decreases args.len() - n,
{
    if n < args.len() {
        assert(args.take(n + 1).drop_last() =~= args.take(n));
        lemma_tag_scan_error_persists(args, n + 1, accepted, required);
    } else {
        assert(args.take(n) =~= args);
    }
}

/// Every tag found by a successful scan is required and given by some argument.
pub proof fn lemma_tag_scan_found(
    args: Seq<ItemArg>,
    accepted: Seq<Seq<char>>,
    required: Seq<Seq<char>>,
)
    ensures
        tag_scan(args, accepted, required) matches Ok(found) ==> forall|m: int|
            0 <= m < found.len() ==> required.contains(#[trigger] found[m]) && tag_position(
                args,
                found[m],
            ) is Some,
    decreases args.len(),
{
    if args.len() > 0 {
        lemma_tag_scan_found(args.drop_last(), accepted, required);
        if let Ok(found) = tag_scan(args, accepted, required) {
            if let Ok(prev) = tag_scan(args.drop_last(), accepted, required) {
                assert forall|m: int| 0 <= m < found.len() implies required.contains(
                    #[trigger] found[m],
                ) && tag_position(args, found[m]) is Some by {
                    if m < prev.len() {
                        assert(found[m] == prev[m]);
                    }
                }
            }
        }
    }
}

pub proof fn lemma_leading_untagged(args: Seq<ItemArg>)
    ensures
        leading_untagged(args) <= args.len(),
        leading_untagged(args) == args.len() ==> forall|k: int|
            0 <= k < args.len() ==> (#[trigger] args[k]).tag is None,
    decreases args.len(),
{
    if args.len() > 0 {
        lemma_leading_untagged(args.drop_last());
        assert forall|k: int| 0 <= k < args.len() - 1 implies args.drop_last()[k] == args[k] by {}
    }
}

/// The arguments before position `leading_untagged(args)` are untagged.
proof fn lemma_leading_prefix(args: Seq<ItemArg>)
    ensures
        leading_untagged(args) <= args.len(),
        forall|k: int| 0 <= k < leading_untagged(args) ==> (#[trigger] args[k]).tag is None,
    decreases args.len(),
{
    if args.len() > 0 {
        lemma_leading_prefix(args.drop_last());
        assert forall|k: int| 0 <= k < leading_untagged(args) implies (#[trigger] args[k]).tag is None by {
            if k < args.len() - 1 {
                assert(args.drop_last()[k] == args[k]);
            }
        }
    }
}

/// A successful scan finds each required tag at most once.
proof fn lemma_tag_scan_distinct(
    args: Seq<ItemArg>,
    accepted: Seq<Seq<char>>,
    required: Seq<Seq<char>>,
)
    ensures
        tag_scan(args, accepted, required) matches Ok(found) ==> found.no_duplicates(),
    decreases args.len(),
{
    if args.len() > 0 {
        lemma_tag_scan_distinct(args.drop_last(), accepted, required);
        if let Ok(found) = tag_scan(args, accepted, required) {
            if let Ok(prev) = tag_scan(args.drop_last(), accepted, required) {
                if found != prev {
                    assert forall|i: int, j: int|
                        0 <= i < found.len() && 0 <= j < found.len() && i != j implies found[i]
                        != found[j] by {
                        if i < prev.len() && j < prev.len() {
                            assert(found[i] == prev[i] && found[j] == prev[j]);
                        } else if i < prev.len() {
                            assert(prev.contains(found[i]));
                        } else {
                            assert(prev.contains(found[j]));
                        }
                    }
                }
            }
        }
    }
}

/// When `validate` accepts the arguments of an item, every required tag is
/// given by one of them, so `get_tagged` finds it, and the first
/// `untagged_count` arguments are untagged, so `get_num` finds each of them.
pub proof fn law_validated_arguments_are_found(
    args: Seq<ItemArg>,
    untagged_count: nat,
    accepted: Seq<Seq<char>>,
    required: Seq<Seq<char>>,
)
    requires
        validate_ok(args, untagged_count, accepted, required),
    ensures
        forall|m: int| 0 <= m < required.len() ==> tag_position(args, #[trigger] required[m]) is Some,
        untagged_count <= args.len(),
        forall|k: int| 0 <= k < untagged_count ==> (#[trigger] args[k]).tag is None,
{
    broadcast use vstd::seq_lib::seq_to_set_is_finite;

    lemma_leading_prefix(args);
    let found = tag_scan(args, accepted, required)->Ok_0;
    lemma_tag_scan_found(args, accepted, required);
    lemma_tag_scan_distinct(args, accepted, required);
    found.unique_seq_to_set();
    required.lemma_cardinality_of_set();
    assert forall|x: Seq<char>| found.to_set().contains(x) implies required.to_set().contains(x) by {
        let i = choose|i: int| 0 <= i < found.len() && found[i] == x;
        assert(required.contains(found[i]));
    }
    vstd::set_lib::lemma_len_subset(found.to_set(), required.to_set());
    vstd::set_lib::lemma_subset_equality(found.to_set(), required.to_set());
    assert forall|m: int| 0 <= m < required.len() implies tag_position(
        args,
        #[trigger] required[m],
    ) is Some by {
        assert(required.to_set().contains(required[m]));
        assert(found.to_set().contains(required[m]));
        let i = choose|i: int| 0 <= i < found.len() && found[i] == required[m];
        assert(tag_position(args, found[i]) is Some);
    }
}

} // verus!
