//! Helpers for building a compilation unit out of a PDS file.

use vstd::prelude::*;

verus! {

/// Turns an optional result into a result of an option: `None` is `Ok(None)`,
/// and an error inside stays an error.
pub fn sequence<A, E>(a: Option<Result<A, E>>) -> (res: Result<Option<A>, E>)
    ensures
        match a {
            Some(Ok(i)) => res == Ok::<Option<A>, E>(Some(i)),
            Some(Err(e)) => res == Err::<Option<A>, E>(e),
            None => res == Ok::<Option<A>, E>(None),
        },
{
    match a {
        Some(Ok(i)) => Ok(Some(i)),
        Some(Err(e)) => Err(e),
        None => Ok(None),
    }
}

} // verus!
