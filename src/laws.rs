//! Properties that relate several operations, stated over the multiset that
//! a `CombHeap` holds and the contracts of `push` and `pop`.

use vstd::multiset::Multiset;
use vstd::prelude::*;

use crate::model::is_max_of;

verus! {

broadcast use vstd::multiset::group_multiset_axioms;

/// Each push adds one to the size, and each pop that returns a value takes
/// one away: the size is the number of pushes less the number of such pops.
pub proof fn lemma_size_accounting(m: Multiset<u64>, v: u64, x: u64)
    requires
        is_max_of(x, m),
    ensures
        m.insert(v).len() == m.len() + 1,
        m.remove(x).len() + 1 == m.len(),
{
}

/// After a push, the largest value held is the pushed value or the previous
/// largest, whichever is greater; on an empty heap it is the pushed value.
pub proof fn lemma_max_after_push(m: Multiset<u64>, v: u64, y: u64)
    requires
        is_max_of(y, m.insert(v)),
    ensures
        m.len() == 0 ==> y == v,
        forall|x: u64| is_max_of(x, m) ==> y == if v > x { v } else { x },
{
    assert(m.insert(v).contains(v));
    if m.len() == 0 {
        vstd::multiset::lemma_multiset_empty_len(m);
    }
    assert forall|x: u64| is_max_of(x, m) implies y == if v > x { v } else { x } by {
        assert(m.insert(v).contains(x));
        if y != v {
            assert(m.contains(y));
        }
    }
}

/// Two pops in a row return values that do not increase: the maximum of what
/// is left after removing a maximum is at most that maximum.
pub proof fn lemma_pops_non_increasing(m: Multiset<u64>, x: u64, y: u64)
    requires
        is_max_of(x, m),
        is_max_of(y, m.remove(x)),
    ensures
        y <= x,
{
    assert(m.contains(y));
}

/// `rs` is what successive pops return, each a largest value of what is
/// left, starting from the values `m` and going on until nothing is left.
pub open spec fn drains(m: Multiset<u64>, rs: Seq<u64>) -> bool
    decreases rs.len(),
{
    if rs.len() == 0 {
        m.len() == 0
    } else {
        is_max_of(rs[0], m) && drains(m.remove(rs[0]), rs.drop_first())
    }
}

/// What a heap holding `m` holds after pushing the values of `vs` in order.
pub open spec fn after_pushes(m: Multiset<u64>, vs: Seq<u64>) -> Multiset<u64>
    decreases vs.len(),
{
    if vs.len() == 0 {
        m
    } else {
        after_pushes(m.insert(vs[0]), vs.drop_first())
    }
}

/// Popping until nothing is left returns a sequence that never increases and
/// that holds exactly the values the heap held, duplicates counted.
pub proof fn lemma_drain_non_increasing(m: Multiset<u64>, rs: Seq<u64>)
    requires
        drains(m, rs),
    ensures
        forall|i: int, j: int| 0 <= i < j < rs.len() ==> rs[j] <= rs[i],
        rs.to_multiset() == m,
    decreases rs.len(),
{
    broadcast use vstd::seq_lib::group_to_multiset_ensures;

    if rs.len() == 0 {
        vstd::multiset::lemma_multiset_empty_len(m);
        vstd::multiset::lemma_multiset_empty_len(rs.to_multiset());
    } else {
        let t = rs.drop_first();
        lemma_drain_non_increasing(m.remove(rs[0]), t);
        assert forall|i: int, j: int| 0 <= i < j < rs.len() implies rs[j] <= rs[i] by {
            assert(rs[j] == t[j - 1]);
            if i > 0 {
                assert(rs[i] == t[i - 1]);
            } else {
                assert(t.to_multiset().contains(t[j - 1]));
                assert(m.contains(rs[j]));
            }
        }
        assert(rs.remove(0) =~= t);
        let n = rs.to_multiset();
        assert(n.remove(rs[0]) == m.remove(rs[0]));
        assert(rs.contains(rs[0]));
        assert forall|v: u64| n.count(v) == m.count(v) by {
            assert(n.remove(rs[0]).count(v) == m.remove(rs[0]).count(v));
        }
        assert(n =~= m);
    }
}

/// Pushing the values of `vs` adds exactly those values, duplicates counted.
pub proof fn lemma_after_pushes(m: Multiset<u64>, vs: Seq<u64>)
    ensures
        after_pushes(m, vs) == m.add(vs.to_multiset()),
    decreases vs.len(),
{
    broadcast use vstd::seq_lib::group_to_multiset_ensures;

    if vs.len() == 0 {
        vstd::multiset::lemma_multiset_empty_len(vs.to_multiset());
        assert(m.add(vs.to_multiset()) =~= m);
    } else {
        let t = vs.drop_first();
        lemma_after_pushes(m.insert(vs[0]), t);
        assert(vs.remove(0) =~= t);
        assert(m.insert(vs[0]).add(t.to_multiset()) =~= m.add(vs.to_multiset()));
    }
}

/// After pushing distinct values onto an empty heap, the first pop returns
/// the largest of them and the second pop the second largest, whichever tier
/// each value went to.
pub proof fn lemma_two_pops_after_distinct_pushes(vs: Seq<u64>, x: u64, y: u64)
    requires
        vs.no_duplicates(),
        is_max_of(x, after_pushes(Multiset::empty(), vs)),
        is_max_of(y, after_pushes(Multiset::empty(), vs).remove(x)),
    ensures
        vs.contains(x),
        vs.contains(y),
        y < x,
        forall|i: int| 0 <= i < vs.len() ==> vs[i] <= x,
        forall|i: int| 0 <= i < vs.len() && vs[i] != x ==> vs[i] <= y,
{
    broadcast use vstd::seq_lib::group_to_multiset_ensures;

    let m = after_pushes(Multiset::empty(), vs);
    lemma_after_pushes(Multiset::empty(), vs);
    assert(m =~= vs.to_multiset());
    assert(m.contains(y));
    vs.lemma_multiset_has_no_duplicates();
    assert(y != x);
    assert forall|i: int| 0 <= i < vs.len() implies vs[i] <= x by {
        assert(vs.contains(vs[i]));
        assert(m.contains(vs[i]));
    }
    assert forall|i: int| 0 <= i < vs.len() && vs[i] != x implies vs[i] <= y by {
        assert(vs.contains(vs[i]));
        assert(m.remove(x).contains(vs[i]));
    }
}

/// The second pop returns the second largest value: one that no value other
/// than the popped maximum exceeds, counting a duplicate of that maximum.
pub proof fn lemma_second_pop_is_second_largest(m: Multiset<u64>, x: u64, y: u64)
    requires
        is_max_of(x, m),
        is_max_of(y, m.remove(x)),
    ensures
        y <= x,
        forall|z: u64| m.contains(z) && z != x ==> z <= y,
        m.count(x) >= 2 ==> y == x,
{
    assert(m.contains(y));
    assert forall|z: u64| m.contains(z) && z != x implies z <= y by {
        assert(m.remove(x).contains(z));
    }
    if m.count(x) >= 2 {
        assert(m.remove(x).contains(x));
    }
}

/// A value pushed onto an empty heap is the value that the next pop returns,
/// and that pop leaves the heap empty.
pub proof fn lemma_push_then_pop_on_empty(v: u64, x: u64)
    requires
        is_max_of(x, Multiset::<u64>::empty().insert(v)),
    ensures
        x == v,
        Multiset::<u64>::empty().insert(v).remove(x) == Multiset::<u64>::empty(),
{
    assert(Multiset::<u64>::empty().insert(v).remove(x) =~= Multiset::<u64>::empty());
}

} // verus!
