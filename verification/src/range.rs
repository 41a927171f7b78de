//! Index ranges and counts as the foreign collections take them.

use vstd::prelude::*;

verus! {

/// A run of `length` indices that starts at `location`.
#[derive(Clone, Copy, Debug, PartialEq, Eq, Structural)]
pub struct NSRange {
    pub location: usize,
    pub length: usize,
}

/// The number of entries of a dictionary built from `keys` keys and `objects`
/// objects: as many pairs as both have.
pub fn pair_count(keys: usize, objects: usize) -> (count: usize)
    ensures
        count == if keys <= objects {
            keys
        } else {
            objects
        },
{
    if keys <= objects {
        keys
    } else {
        objects
    }
}

} // verus!
