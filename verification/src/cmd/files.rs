//! Listing the files that a patch changes.

use crate::text::find_byte;
use vstd::prelude::*;
use vstd::slice::*;

verus! {

/// The bytes of a listing with a space in place of every tab.
pub open spec fn tabs_to_spaces(listing: Seq<u8>) -> Seq<u8> {
    Seq::new(
        listing.len(),
        |i: int|
            if listing[i] == 9u8 {
                32u8
            } else {
                listing[i]
            },
    )
}

/// Puts a space in place of every tab of a listing of files, so that a
/// space stands between the status and the name of each file.
pub fn replace_tabs(listing: &mut Vec<u8>)
    ensures
        final(listing)@ == tabs_to_spaces(old(listing)@),
{
    let n = listing.len();
    let mut start: usize = 0;
    loop
        invariant
            start <= n,
            listing@.len() == n,
            old(listing)@.len() == n,
            forall|j: int| 0 <= j < start ==> listing@[j] == tabs_to_spaces(old(listing)@)[j],
            forall|j: int| start <= j < n ==> listing@[j] == old(listing)@[j],
        ensures
            listing@.len() == n,
            forall|j: int| 0 <= j < n ==> listing@[j] == tabs_to_spaces(old(listing)@)[j],
        decreases n - start,
    {
        let rest = slice_subrange(listing.as_slice(), start, n);
        match find_byte(rest, 9u8) {
            Some(at) => {
                assert forall|j: int| start <= j < start + at implies listing@[j] != 9u8 by {
                    assert(rest@[j - start] == listing@[j]);
                }
                listing.set(start + at, 32u8);
                start = start + at + 1;
            },
            None => {
                assert forall|j: int| start <= j < n implies listing@[j] != 9u8 by {
                    assert(rest@[j - start] == listing@[j]);
                }
                break ;
            },
        }
    }
}

} // verus!
