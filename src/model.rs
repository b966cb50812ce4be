//! Mathematical vocabulary shared by the contracts.

use vstd::multiset::Multiset;
use vstd::prelude::*;

verus! {

/// `x` is a largest element of `m`.
pub open spec fn is_max_of(x: u64, m: Multiset<u64>) -> bool {
    m.contains(x) && forall|y: u64| m.contains(y) ==> y <= x
}

/// `x` is a smallest element of `m`.
pub open spec fn is_min_of(x: u64, m: Multiset<u64>) -> bool {
    m.contains(x) && forall|y: u64| m.contains(y) ==> x <= y
}

/// Every element of `lo` is at most every element of `hi`.
pub open spec fn all_below(lo: Multiset<u64>, hi: Multiset<u64>) -> bool {
    forall|a: u64, b: u64| lo.contains(a) && hi.contains(b) ==> a <= b
}

} // verus!
