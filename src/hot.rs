//! The hot tier: `min_max_heap::MinMaxHeap<u64>`, seen through the multiset of
//! the values it holds.

use min_max_heap::MinMaxHeap;
use vstd::multiset::Multiset;
use vstd::prelude::*;

use crate::model::{is_max_of, is_min_of};

verus! {

#[verifier::external_type_specification]
#[verifier::external_body]
#[verifier::reject_recursive_types(T)]
pub struct ExMinMaxHeap<T>(MinMaxHeap<T>);

/// The values that a min-max heap holds, duplicates counted.
pub uninterp spec fn hot_items(h: MinMaxHeap<u64>) -> Multiset<u64>;

/// Relies on `MinMaxHeap::new`: the heap starts with no elements.
#[verifier::external_body]
pub(crate) fn hot_new() -> (r: MinMaxHeap<u64>)
    ensures
        hot_items(r) == Multiset::<u64>::empty(),
{
    MinMaxHeap::new()
}

/// Relies on `MinMaxHeap::len`: the number of elements held.
#[verifier::external_body]
pub(crate) fn hot_len(h: &MinMaxHeap<u64>) -> (r: usize)
    ensures
        r as nat == hot_items(*h).len(),
{
    h.len()
}

/// Relies on `MinMaxHeap::push`: the element is added to the heap.
#[verifier::external_body]
pub(crate) fn hot_push(h: &mut MinMaxHeap<u64>, v: u64)
    ensures
        hot_items(*final(h)) == hot_items(*old(h)).insert(v),
{
    h.push(v)
}

/// Relies on `MinMaxHeap::peek_min`: a smallest element, if any; the value is copied out.
#[verifier::external_body]
pub(crate) fn hot_peek_min(h: &MinMaxHeap<u64>) -> (r: Option<u64>)
    ensures
        r is None <==> hot_items(*h).len() == 0,
        r matches Some(x) ==> is_min_of(x, hot_items(*h)),
{
    h.peek_min().copied()
}

/// Relies on `MinMaxHeap::peek_max`: a reference to a largest element, if any.
#[verifier::external_body]
pub(crate) fn hot_peek_max(h: &MinMaxHeap<u64>) -> (r: Option<&u64>)
    ensures
        r is None <==> hot_items(*h).len() == 0,
        r matches Some(x) ==> is_max_of(*x, hot_items(*h)),
{
    h.peek_max()
}

/// Relies on `MinMaxHeap::pop_min`: removes and returns a smallest element, if any.
#[verifier::external_body]
pub(crate) fn hot_pop_min(h: &mut MinMaxHeap<u64>) -> (r: Option<u64>)
    ensures
        r is None <==> hot_items(*old(h)).len() == 0,
        r is None ==> hot_items(*final(h)) == hot_items(*old(h)),
        r matches Some(x) ==> is_min_of(x, hot_items(*old(h)))
            && hot_items(*final(h)) == hot_items(*old(h)).remove(x),
{
    h.pop_min()
}

/// Relies on `MinMaxHeap::pop_max`: removes and returns a largest element, if any.
#[verifier::external_body]
pub(crate) fn hot_pop_max(h: &mut MinMaxHeap<u64>) -> (r: Option<u64>)
    ensures
        r is None <==> hot_items(*old(h)).len() == 0,
        r is None ==> hot_items(*final(h)) == hot_items(*old(h)),
        r matches Some(x) ==> is_max_of(x, hot_items(*old(h)))
            && hot_items(*final(h)) == hot_items(*old(h)).remove(x),
{
    h.pop_max()
}

} // verus!
