//! The small sets that the spatial index keeps per bucket.

use smallset::SmallSet;
use vstd::prelude::*;

verus! {

/// One bucket of the index: a `smallset::SmallSet` of entity identifiers with eight inline
/// slots, which grows on the heap beyond them.
#[verifier::external_body]
pub struct Bucket {
    inner: SmallSet<[u64; 8]>,
}

/// The elements of a small set, in the order in which it stores them.
pub uninterp spec fn bucket_elements(s: Bucket) -> Seq<u64>;

/// `SmallSet::new`: a set without elements.
#[verifier::external_body]
pub(crate) fn bucket_new() -> (s: Bucket)
    ensures
        bucket_elements(s) == Seq::<u64>::empty(),
{
    Bucket { inner: SmallSet::new() }
}

/// `SmallSet::insert`: appends `elem` unless an equal element is stored already, and says
/// whether it was appended.
#[verifier::external_body]
pub(crate) fn bucket_insert(s: &mut Bucket, elem: u64) -> (added: bool)
    ensures
        added == !bucket_elements(*old(s)).contains(elem),
        bucket_elements(*final(s)) == if added {
            bucket_elements(*old(s)).push(elem)
        } else {
            bucket_elements(*old(s))
        },
{
    s.inner.insert(elem)
}

/// `SmallSet::contains`: whether an element equal to `elem` is stored.
#[verifier::external_body]
pub(crate) fn bucket_contains(s: &Bucket, elem: u64) -> (found: bool)
    ensures
        found == bucket_elements(*s).contains(elem),
{
    s.inner.contains(&elem)
}

/// `SmallSet::iter`: the stored elements, in the order in which they are stored.
#[verifier::external_body]
pub(crate) fn bucket_items(s: &Bucket) -> (items: Vec<u64>)
    ensures
        items@ == bucket_elements(*s),
{
    s.inner.iter().copied().collect()
}

/// `SmallSet::len`: the number of stored elements.
#[verifier::external_body]
pub(crate) fn bucket_len(s: &Bucket) -> (n: usize)
    ensures
        n == bucket_elements(*s).len(),
{
    s.inner.len()
}

} // verus!
