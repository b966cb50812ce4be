//! The cold tier: every value below the hot window, kept in a vector sorted
//! in ascending order so that a largest value sits at the end.
//!
//! Cost: reading or removing the maximum is O(1); an insertion finds its
//! place by binary search in O(log n) comparisons but then shifts the larger
//! elements, so it moves O(n) values. A binary heap would insert in
//! O(log n); this tier trades that for a simpler ordering invariant. Inserts
//! here happen on a cold push and on a demotion, never on the pop path.

use vstd::multiset::Multiset;
use vstd::prelude::*;

use crate::model::is_max_of;

verus! {

broadcast use vstd::seq_lib::group_to_multiset_ensures;

/// The elements of `s` never decrease from left to right.
pub open spec fn ascending(s: Seq<u64>) -> bool {
    forall|i: int, j: int| 0 <= i < j < s.len() ==> s[i] <= s[j]
}

pub(crate) struct ColdTier {
    vals: Vec<u64>,
}

impl ColdTier {
    /// The values held, duplicates counted.
    pub(crate) closed spec fn items(&self) -> Multiset<u64> {
        self.vals@.to_multiset()
    }

    pub(crate) closed spec fn wf(&self) -> bool {
        ascending(self.vals@)
    }

    proof fn lemma_last_is_max(&self)
        requires
            self.wf(),
            self.vals@.len() > 0,
        ensures
            is_max_of(self.vals@.last(), self.items()),
    {
        let s = self.vals@;
        assert(s.contains(s.last()) ) by {
            assert(s[s.len() - 1] == s.last());
        }
        assert forall|y: u64| self.items().contains(y) implies y <= s.last() by {
            assert(s.contains(y));
            let k = choose|k: int| 0 <= k < s.len() && s[k] == y;
            if k < s.len() - 1 {
                assert(s[k] <= s[s.len() - 1]);
            }
        }
    }

    pub(crate) fn new() -> (r: ColdTier)
        ensures
            r.wf(),
            r.items() == Multiset::<u64>::empty(),
    {
        let r = ColdTier { vals: Vec::new() };
        proof {
            assert(r.vals@.to_multiset().len() == 0);
            assert(r.items() =~= Multiset::<u64>::empty());
        }
        r
    }

    pub(crate) fn len(&self) -> (r: usize)
        ensures
            r as nat == self.items().len(),
    {
        self.vals.len()
    }

    /// Adds `v` at its place in the order.
    pub(crate) fn push(&mut self, v: u64)
        requires
            old(self).wf(),
        ensures
            final(self).wf(),
            final(self).items() == old(self).items().insert(v),
    {
        let mut lo: usize = 0;
        let mut hi: usize = self.vals.len();
        while lo < hi
            invariant
                self.wf(),
                self.vals@ == old(self).vals@,
                lo <= hi <= self.vals@.len(),
                forall|i: int| 0 <= i < lo ==> self.vals@[i] <= v,
                forall|i: int| hi <= i < self.vals@.len() ==> v < self.vals@[i],
            decreases hi - lo,
        {
            let mid: usize = lo + (hi - lo) / 2;
            if self.vals[mid] <= v {
                proof {
                    assert forall|i: int| 0 <= i <= mid implies self.vals@[i] <= v by {
                        if i < mid {
                            assert(self.vals@[i] <= self.vals@[mid as int]);
                        }
                    }
                }
                lo = mid + 1;
            } else {
                proof {
                    assert forall|i: int| mid <= i < self.vals@.len() implies v < self.vals@[i] by {
                        if i > mid {
                            assert(self.vals@[mid as int] <= self.vals@[i]);
                        }
                    }
                }
                hi = mid;
            }
        }
        let ghost s = self.vals@;
        self.vals.insert(lo, v);
        proof {
            let t = self.vals@;
            assert(t == s.insert(lo as int, v));
            assert forall|i: int, j: int| 0 <= i < j < t.len() implies t[i] <= t[j] by {
                if j < lo {
                    assert(t[i] == s[i] && t[j] == s[j]);
                } else if j == lo {
                    assert(t[i] == s[i]);
                } else if i < lo {
                    assert(t[i] == s[i] && t[j] == s[j - 1]);
                } else if i == lo {
                    assert(t[j] == s[j - 1]);
                } else {
                    assert(t[i] == s[i - 1] && t[j] == s[j - 1]);
                }
            }
        }
    }

    /// A largest value, if any, left in place.
    pub(crate) fn peek_max(&self) -> (r: Option<u64>)
        requires
            self.wf(),
        ensures
            r is None <==> self.items().len() == 0,
            r matches Some(x) ==> is_max_of(x, self.items()),
    {
        let n = self.vals.len();
        if n == 0 {
            None
        } else {
            proof {
                self.lemma_last_is_max();
            }
            Some(self.vals[n - 1])
        }
    }

    /// Removes and returns a largest value, if any.
    pub(crate) fn pop_max(&mut self) -> (r: Option<u64>)
        requires
            old(self).wf(),
        ensures
            final(self).wf(),
            r is None <==> old(self).items().len() == 0,
            r is None ==> final(self).items() == old(self).items(),
            r matches Some(x) ==> is_max_of(x, old(self).items())
                && final(self).items() == old(self).items().remove(x),
    {
        proof {
            if self.vals@.len() > 0 {
                self.lemma_last_is_max();
            }
        }
        let ghost s = self.vals@;
        let r = self.vals.pop();
        proof {
            if s.len() > 0 {
                assert(self.vals@ =~= s.remove(s.len() - 1));
            }
        }
        r
    }
}

} // verus!
