//! The combined heap: a bounded hot window over the largest values, and a
//! cold store beneath it.

use min_max_heap::MinMaxHeap;
use vstd::multiset::Multiset;
use vstd::prelude::*;

use crate::cold::ColdTier;
use crate::hot::{
    hot_items, hot_len, hot_new, hot_peek_max, hot_peek_min, hot_pop_max, hot_pop_min, hot_push,
};
use crate::model::{all_below, is_max_of, is_min_of};

verus! {

broadcast use vstd::multiset::group_multiset_axioms;

/// The hot-tier bound that `CombHeap::new` uses.
pub const LARGE_MAX_SIZE: usize = 64;

/// A max priority queue over `u64` whose largest values live in a small
/// bounded min-max heap, so that taking the maximum costs a number of steps
/// that depends on that bound, not on the total size.
pub struct CombHeap {
    largest_vals: MinMaxHeap<u64>,
    rest: ColdTier,
    cap: usize,
}

impl View for CombHeap {
    type V = Multiset<u64>;

    /// All values held, duplicates counted.
    open spec fn view(&self) -> Multiset<u64> {
        self.hot().add(self.cold())
    }
}

impl CombHeap {
    /// The values of the hot tier.
    pub closed spec fn hot(&self) -> Multiset<u64> {
        hot_items(self.largest_vals)
    }

    /// The values of the cold tier.
    pub closed spec fn cold(&self) -> Multiset<u64> {
        self.rest.items()
    }

    /// The bound on the size of the hot tier.
    pub closed spec fn capacity_spec(&self) -> nat {
        self.cap as nat
    }

    /// The cold tier's own representation is in order.
    pub closed spec fn cold_ordered(&self) -> bool {
        self.rest.wf()
    }

    /// The invariant that every public operation keeps.
    pub open spec fn wf(&self) -> bool {
        &&& self.cold_ordered()
        &&& self.capacity_spec() >= 1
        &&& self.hot().len() <= self.capacity_spec()
        &&& all_below(self.cold(), self.hot())
        &&& (self.hot().len() == 0 ==> self.cold().len() == 0)
        &&& self@.len() <= usize::MAX
    }

    /// The test that decides, on a heap whose hot tier is not empty, that `v`
    /// goes to the hot tier: it is at least the hot minimum, or the hot tier
    /// has room and `v` is at least the cold maximum.
    pub open spec fn belongs_hot(&self, v: u64) -> bool {
        ||| exists|m: u64| is_min_of(m, self.hot()) && m <= v
        ||| self.hot().len() < self.capacity_spec() && exists|c: u64|
            is_max_of(c, self.cold()) && c <= v
    }

    /// An empty heap whose hot tier holds at most `LARGE_MAX_SIZE` values.
    pub fn new() -> (r: CombHeap)
        ensures
            r.wf(),
            r@ == Multiset::<u64>::empty(),
            r.capacity_spec() == LARGE_MAX_SIZE,
    {
        CombHeap::with_capacity(LARGE_MAX_SIZE)
    }

    /// An empty heap whose hot tier holds at most `cap` values.
    pub fn with_capacity(cap: usize) -> (r: CombHeap)
        requires
            cap >= 1,
        ensures
            r.wf(),
            r@ == Multiset::<u64>::empty(),
            r.capacity_spec() == cap,
    {
        let r = CombHeap { largest_vals: hot_new(), rest: ColdTier::new(), cap };
        proof {
            assert(r@ =~= Multiset::<u64>::empty());
        }
        r
    }

    /// The bound on the size of the hot tier.
    pub fn capacity(&self) -> (r: usize)
        ensures
            r as nat == self.capacity_spec(),
    {
        self.cap
    }

    /// Removes and returns a largest value; `None` when the heap is empty.
    pub fn pop(&mut self) -> (r: Option<u64>)
        requires
            old(self).wf(),
        ensures
            final(self).wf(),
            final(self).capacity_spec() == old(self).capacity_spec(),
            r is None <==> old(self)@.len() == 0,
            r is None ==> final(self)@ == old(self)@,
            r matches Some(x) ==> is_max_of(x, old(self)@) && final(self)@ == old(self)@.remove(x),
            final(self).hot().len() <= old(self).hot().len(),
            r matches Some(x) ==> (old(self).hot().len() > 1 ==> final(self).hot() == old(
                self,
            ).hot().remove(x) && final(self).cold() == old(self).cold()),
            old(self).hot().len() == 1 && old(self).cold().len() == 0 ==> final(self).hot().len()
                == 0 && final(self).cold() == old(self).cold(),
            old(self).hot().len() == 1 && old(self).cold().len() > 0 ==> exists|c: u64|
                is_max_of(c, old(self).cold()) && final(self).hot() == Multiset::singleton(c)
                    && final(self).cold() == old(self).cold().remove(c),
    {
        let ghost h0 = self.hot();
        let ghost c0 = self.cold();
        if let Some(rval) = hot_pop_max(&mut self.largest_vals) {
            if hot_len(&self.largest_vals) == 0 {
                if let Some(rest) = self.rest.pop_max() {
                    hot_push(&mut self.largest_vals, rest);
                    proof {
                        assert(self.hot() =~= Multiset::singleton(rest));
                    }
                }
            }
            proof {
                assert(self@ =~= old(self)@.remove(rval));
                assert forall|y: u64| old(self)@.contains(y) implies y <= rval by {
                    if c0.contains(y) {
                        assert(h0.contains(rval));
                    } else {
                        assert(h0.contains(y));
                    }
                }
                assert forall|a: u64, b: u64|
                    self.cold().contains(a) && self.hot().contains(b) implies a <= b by {
                    assert(c0.contains(a));
                    if h0.len() > 1 {
                        assert(h0.contains(b));
                    }
                }
            }
            Some(rval)
        } else {
            None
        }
    }

    /// Adds `val`.
    pub fn push(&mut self, val: u64)
        requires
            old(self).wf(),
            old(self)@.len() < usize::MAX,
        ensures
            final(self).wf(),
            final(self).capacity_spec() == old(self).capacity_spec(),
            final(self)@ == old(self)@.insert(val),
            old(self).hot().len() <= final(self).hot().len() <= old(self).hot().len() + 1,
            old(self).hot().len() == 0 ==> final(self).hot() == Multiset::singleton(val)
                && final(self).cold() == old(self).cold(),
            old(self).hot().len() > 0 && !old(self).belongs_hot(val) ==> final(self).hot() == old(
                self,
            ).hot() && final(self).cold() == old(self).cold().insert(val),
            old(self).hot().len() > 0 && old(self).belongs_hot(val) && old(self).hot().len() < old(
                self,
            ).capacity_spec() ==> final(self).hot() == old(self).hot().insert(val)
                && final(self).cold() == old(self).cold(),
            old(self).hot().len() >= old(self).capacity_spec() && old(self).belongs_hot(val)
                ==> exists|m: u64|
                is_min_of(m, old(self).hot()) && final(self).hot() == old(self).hot().remove(
                    m,
                ).insert(val) && final(self).cold() == old(self).cold().insert(m),
    {
        let ghost h0 = self.hot();
        let ghost c0 = self.cold();
        if hot_len(&self.largest_vals) == 0 {
            hot_push(&mut self.largest_vals, val);
            proof {
                assert(self@ =~= old(self)@.insert(val));
            }
        } else {
            let small_too_big = hot_len(&self.largest_vals) >= self.cap;
            let hot_min = hot_peek_min(&self.largest_vals).unwrap();
            let belongs_small = val >= hot_min || (!small_too_big && match self.rest.peek_max() {
                Some(c) => val >= c,
                None => false,
            });
            if belongs_small {
                if small_too_big {
                    let m = hot_pop_min(&mut self.largest_vals).unwrap();
                    self.rest.push(m);
                    proof {
                        assert forall|a: u64, b: u64|
                            self.cold().contains(a) && self.hot().contains(b) implies a <= b by {
                            if a != m {
                                assert(c0.contains(a));
                            }
                            assert(h0.contains(b));
                        }
                    }
                }
                let ghost h1 = self.hot();
                let ghost c1 = self.cold();
                hot_push(&mut self.largest_vals, val);
                proof {
                    assert forall|a: u64, b: u64|
                        self.cold().contains(a) && self.hot().contains(b) implies a <= b by {
                        if b == val && small_too_big {
                            assert(h0.contains(hot_min));
                            if c0.contains(a) {
                                assert(a <= hot_min);
                            }
                        } else if b == val {
                            assert(c0.contains(a));
                            if val < hot_min {
                                assert(a <= val);
                            }
                        } else {
                            assert(c1.contains(a) && h1.contains(b));
                        }
                    }
                    assert(self@ =~= old(self)@.insert(val));
                }
            } else {
                self.rest.push(val);
                proof {
                    assert forall|a: u64, b: u64|
                        self.cold().contains(a) && self.hot().contains(b) implies a <= b by {
                        if a != val {
                            assert(c0.contains(a));
                        } else {
                            assert(h0.contains(b));
                        }
                    }
                    assert(self@ =~= old(self)@.insert(val));
                }
            }
        }
    }

    /// The number of values held.
    pub fn len(&self) -> (r: usize)
        requires
            self.wf(),
        ensures
            r as nat == self@.len(),
    {
        self.rest.len() + hot_len(&self.largest_vals)
    }

    /// A largest value, left in place; `None` when the heap is empty.
    pub fn peek(&self) -> (r: Option<&u64>)
        requires
            self.wf(),
        ensures
            r is None <==> self@.len() == 0,
            r matches Some(x) ==> is_max_of(*x, self@),
    {
        let r = hot_peek_max(&self.largest_vals);
        proof {
            if let Some(x) = r {
                assert forall|y: u64| self@.contains(y) implies y <= *x by {
                    if self.cold().contains(y) {
                        assert(self.hot().contains(*x));
                    } else {
                        assert(self.hot().contains(y));
                    }
                }
            }
        }
        r
    }
}

} // verus!
