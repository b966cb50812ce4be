use comb_heap::comb_heap::{CombHeap, LARGE_MAX_SIZE};

fn drain(h: &mut CombHeap) -> Vec<u64> {
    let mut out = Vec::new();
    while let Some(v) = h.pop() {
        out.push(v);
    }
    out
}

fn lcg(state: &mut u64) -> u64 {
    *state = state.wrapping_mul(6364136223846793005).wrapping_add(1442695040888963407);
    *state >> 33
}

#[test]
fn fresh_heap_is_empty() {
    let mut h = CombHeap::new();
    assert_eq!(h.len(), 0);
    assert_eq!(h.peek(), None);
    assert_eq!(h.pop(), None);
    assert_eq!(h.len(), 0);
}

#[test]
fn default_capacity() {
    assert_eq!(CombHeap::new().capacity(), 64);
    assert_eq!(LARGE_MAX_SIZE, 64);
    assert_eq!(CombHeap::with_capacity(2).capacity(), 2);
}

#[test]
fn push_one_then_pop() {
    let mut h = CombHeap::new();
    h.push(42);
    assert_eq!(h.len(), 1);
    assert_eq!(h.peek(), Some(&42));
    assert_eq!(h.pop(), Some(42));
    assert_eq!(h.len(), 0);
    assert_eq!(h.peek(), None);
    assert_eq!(h.pop(), None);
}

#[test]
fn drained_heap_is_empty() {
    let mut h = CombHeap::with_capacity(2);
    for v in [4u64, 8, 15, 16, 23, 42] {
        h.push(v);
    }
    assert_eq!(drain(&mut h), vec![42, 23, 16, 15, 8, 4]);
    assert_eq!(h.peek(), None);
    assert_eq!(h.pop(), None);
    assert_eq!(h.len(), 0);
}

#[test]
fn capacity_two_scenario() {
    let mut h = CombHeap::with_capacity(2);
    for v in [5u64, 1, 9, 3] {
        h.push(v);
    }
    assert_eq!(h.len(), 4);
    assert_eq!(h.pop(), Some(9));
    assert_eq!(h.pop(), Some(5));
    assert_eq!(h.pop(), Some(3));
    assert_eq!(h.pop(), Some(1));
    assert_eq!(h.pop(), None);
}

#[test]
fn refill_across_tiers_default_capacity() {
    let mut h = CombHeap::new();
    // 65 distinct values in a scrambled order.
    for i in 0..65u64 {
        h.push((i * 37) % 65 + 100);
    }
    assert_eq!(h.len(), 65);
    assert_eq!(h.pop(), Some(164));
    assert_eq!(h.pop(), Some(163));
    assert_eq!(h.len(), 63);
}

#[test]
fn refill_across_tiers_small_capacity() {
    let mut h = CombHeap::with_capacity(3);
    for v in [10u64, 40, 20, 30] {
        h.push(v);
    }
    assert_eq!(h.pop(), Some(40));
    assert_eq!(h.pop(), Some(30));
    assert_eq!(h.pop(), Some(20));
    assert_eq!(h.peek(), Some(&10));
}

#[test]
fn capacity_one_keeps_order() {
    let mut h = CombHeap::with_capacity(1);
    for v in [3u64, 7, 1, 7, 5] {
        h.push(v);
    }
    assert_eq!(drain(&mut h), vec![7, 7, 5, 3, 1]);
}

#[test]
fn duplicates_are_counted() {
    let mut h = CombHeap::with_capacity(2);
    for v in [5u64, 5, 5, 2, 5] {
        h.push(v);
    }
    assert_eq!(h.len(), 5);
    assert_eq!(drain(&mut h), vec![5, 5, 5, 5, 2]);
}

#[test]
fn extreme_values() {
    let mut h = CombHeap::with_capacity(2);
    for v in [0u64, u64::MAX, 1, u64::MAX - 1, 0] {
        h.push(v);
    }
    assert_eq!(drain(&mut h), vec![u64::MAX, u64::MAX - 1, 1, 0, 0]);
}

#[test]
fn pops_to_exhaustion_are_non_increasing() {
    let mut state = 7u64;
    let mut h = CombHeap::with_capacity(8);
    let mut pushed = Vec::new();
    for _ in 0..500 {
        let v = lcg(&mut state) % 1000;
        pushed.push(v);
        h.push(v);
    }
    let out = drain(&mut h);
    for w in out.windows(2) {
        assert!(w[0] >= w[1]);
    }
    pushed.sort_unstable_by(|a, b| b.cmp(a));
    assert_eq!(out, pushed);
}

#[test]
fn mixed_operations_match_a_plain_model() {
    let mut state = 12345u64;
    let mut h = CombHeap::with_capacity(4);
    let mut model: Vec<u64> = Vec::new();
    let mut pushes = 0usize;
    let mut pops = 0usize;
    for _ in 0..3000 {
        let r = lcg(&mut state);
        if r % 3 == 0 {
            let got = h.pop();
            let want = model.iter().copied().max();
            assert_eq!(got, want);
            if let Some(w) = want {
                let at = model.iter().position(|&x| x == w).unwrap();
                model.swap_remove(at);
                pops += 1;
            }
        } else {
            let v = if r % 5 == 0 { h.peek().map_or(0, |p| p + 1) } else { r % 200 };
            h.push(v);
            model.push(v);
            pushes += 1;
        }
        assert_eq!(h.len(), pushes - pops);
        assert_eq!(h.peek().copied(), model.iter().copied().max());
    }
}

#[test]
fn descending_pushes_refill_from_cold() {
    let mut h = CombHeap::new();
    for v in (1..=65u64).rev() {
        h.push(v);
    }
    assert_eq!(h.pop(), Some(65));
    assert_eq!(h.len(), 64);
    assert_eq!(h.peek(), Some(&64));
    assert_eq!(h.pop(), Some(64));
    assert_eq!(h.pop(), Some(63));
}

#[test]
fn full_hot_tier_demotes_its_minimum() {
    let mut h = CombHeap::new();
    for v in 1..=64u64 {
        h.push(v);
    }
    h.push(100);
    assert_eq!(h.len(), 65);
    let out = drain(&mut h);
    let mut want: Vec<u64> = (1..=64u64).rev().collect();
    want.insert(0, 100);
    assert_eq!(out, want);
}

#[test]
fn room_in_hot_takes_value_above_cold_max() {
    let mut h = CombHeap::new();
    for v in [5u64, 1, 3] {
        h.push(v);
    }
    assert_eq!(drain(&mut h), vec![5, 3, 1]);
}
