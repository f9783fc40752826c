use std::cell::Cell;
use std::sync::{Arc, Mutex};

use lru_memo::Cached;

#[test]
fn it_works() {
    let func = |(a, b): (i64, i64)| a * 2 + b;
    let mut cached = Cached::new(24, Box::new(func));
    assert_eq!(2 + 2, 4);
    assert_eq!(cached.call((4, 4)), 12);
    assert_eq!(cached.call((4, 4)), 12);
}

#[test]
fn test_with_side_effects() {
    let mutate_me: Arc<Mutex<i64>> = Arc::new(Mutex::new(12));
    let func = |(a, b): (i64, i64)| {
        let val = a * 3 - b;
        *mutate_me.lock().unwrap() = val;
        val
    };
    let mut cached = Cached::new(24, Box::new(func));
    assert_eq!(cached.call((4, 3)), 9);
    assert_eq!(*mutate_me.lock().unwrap(), 9);
    assert_eq!(cached.call((2, 2)), 4);
    assert_eq!(*mutate_me.lock().unwrap(), 4);
    assert_eq!(cached.call((4, 3)), 9);
    assert_eq!(*mutate_me.lock().unwrap(), 4);
}

#[test]
fn hit_returns_without_recompute() {
    let runs: Cell<u64> = Cell::new(0);
    let func = |x: i64| {
        runs.set(runs.get() + 1);
        x * 2
    };
    let mut cached = Cached::new(4, &func);
    assert_eq!(cached.call(21), 42);
    assert_eq!(runs.get(), 1);
    assert_eq!(cached.call(21), 42);
    assert_eq!(runs.get(), 1);
    assert_eq!(cached.call(21), 42);
    assert_eq!(runs.get(), 1);
}

#[test]
fn capacity_bound_holds() {
    let func = |x: i64| x + 1;
    let mut cached = Cached::new(2, func);
    let mut k: i64 = 0;
    while k < 10 {
        assert_eq!(cached.call(k), k + 1);
        assert!(cached.len() <= 2);
        k += 1;
    }
    assert_eq!(cached.len(), 2);
    assert_eq!(cached.capacity(), 2);
}

#[test]
fn eviction_takes_the_highest_rank() {
    // A fresh entry enters at the back of the recency order with no initial
    // promotion, so when no hit has promoted anything, the entry evicted on
    // a full-cache miss is the one that entered last among those present.
    let runs: Cell<u64> = Cell::new(0);
    let func = |x: i64| {
        runs.set(runs.get() + 1);
        x * 2
    };
    let mut cached = Cached::new(2, &func);
    assert_eq!(cached.call(1), 2);
    assert_eq!(cached.call(2), 4);
    assert_eq!(cached.call(3), 6);
    assert_eq!(runs.get(), 3);
    // Key 2 held the highest rank when 3 missed, so 2 is the one evicted.
    assert_eq!(cached.rank(1), Some(0));
    assert_eq!(cached.rank(3), Some(1));
    assert_eq!(cached.rank(2), None);
    assert_eq!(cached.len(), 2);
    // A survivor comes back without a recompute ...
    assert_eq!(cached.call(1), 2);
    assert_eq!(runs.get(), 3);
    // ... and the evicted key is computed afresh.
    assert_eq!(cached.call(2), 4);
    assert_eq!(runs.get(), 4);
}

#[test]
fn capacity_zero_never_retains() {
    let runs: Cell<u64> = Cell::new(0);
    let func = |x: i64| {
        runs.set(runs.get() + 1);
        x * 2
    };
    let mut cached = Cached::new(0, &func);
    assert_eq!(cached.call(7), 14);
    assert_eq!(runs.get(), 1);
    assert_eq!(cached.len(), 0);
    assert_eq!(cached.rank(7), None);
    assert_eq!(cached.call(7), 14);
    assert_eq!(runs.get(), 2);
    assert_eq!(cached.len(), 0);
}

#[test]
fn hits_promote_one_rank_at_a_time() {
    let func = |x: i64| x * 2;
    let mut cached = Cached::new(3, func);
    cached.call(1);
    cached.call(2);
    cached.call(3);
    // Insertion order gives keys 1, 2, 3 the ranks 0, 1, 2.
    assert_eq!(cached.rank(1), Some(0));
    assert_eq!(cached.rank(2), Some(1));
    assert_eq!(cached.rank(3), Some(2));
    // A hit on 3 swaps it with the entry one rank more recent.
    assert_eq!(cached.call(3), 6);
    assert_eq!(cached.rank(3), Some(1));
    assert_eq!(cached.rank(2), Some(2));
    assert_eq!(cached.rank(1), Some(0));
    // A further hit carries it to the front.
    assert_eq!(cached.call(3), 6);
    assert_eq!(cached.rank(3), Some(0));
    assert_eq!(cached.rank(1), Some(1));
    assert_eq!(cached.rank(2), Some(2));
    // At rank 0 another hit changes nothing.
    assert_eq!(cached.call(3), 6);
    assert_eq!(cached.rank(3), Some(0));
}

#[test]
fn side_effect_returns_after_eviction() {
    // The callable runs once per distinct key while the key stays cached,
    // and runs again only once eviction has removed the key.
    let runs: Cell<u64> = Cell::new(0);
    let func = |x: i64| {
        runs.set(runs.get() + 1);
        x + 100
    };
    let mut cached = Cached::new(1, &func);
    assert_eq!(cached.call(1), 101);
    assert_eq!(cached.call(1), 101);
    assert_eq!(cached.call(1), 101);
    assert_eq!(runs.get(), 1);
    assert_eq!(cached.call(2), 102);
    assert_eq!(runs.get(), 2);
    assert_eq!(cached.call(1), 101);
    assert_eq!(runs.get(), 3);
}

#[test]
fn tuple_keys_memoize() {
    let runs: Cell<u64> = Cell::new(0);
    let func = |(a, b): (i64, i64)| {
        runs.set(runs.get() + 1);
        a * 10 + b
    };
    let mut cached = Cached::new(8, &func);
    assert_eq!(cached.call((3, 4)), 34);
    assert_eq!(cached.call((4, 3)), 43);
    assert_eq!(cached.call((3, 4)), 34);
    assert_eq!(runs.get(), 2);
}
