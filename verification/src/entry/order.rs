//! The order of a listing: directories before files, and the entries of one
//! kind by their names in lower case.

use std::cmp::Ordering;
use vstd::prelude::*;

use super::Entry;

verus! {

/// The entries are in the order of a listing: no entry is listed before one
/// that stands before it.
pub open spec fn in_listing_order(entries: Seq<Entry>) -> bool {
    forall|i: int, j: int|
        0 <= i < j < entries.len() ==> !(#[trigger] entries[j]).spec_listed_before(
            #[trigger] entries[i],
        )
}

/// How `a` stands to `b` in a listing: before it, behind it, or at the same
/// place, where neither is listed before the other.
pub fn listing_order(a: &Entry, b: &Entry) -> (order: Ordering)
    ensures
        order == (if a.spec_listed_before(*b) {
            Ordering::Less
        } else if b.spec_listed_before(*a) {
            Ordering::Greater
        } else {
            Ordering::Equal
        }),
{
    if a.listed_before(b) {
        Ordering::Less
    } else if b.listed_before(a) {
        Ordering::Greater
    } else {
        Ordering::Equal
    }
}

/// `slice::sort_by` with the order of a listing: the entries are the same
/// afterwards, and none is listed before one that stands before it.
#[verifier::external_body]
pub(crate) fn sort_entries(entries: &mut Vec<Entry>)
    ensures
        final(entries)@.to_multiset() == old(entries)@.to_multiset(),
        in_listing_order(final(entries)@),
{
    entries.sort_by(|a, b| listing_order(a, b));
}

} // verus!
