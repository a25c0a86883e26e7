use chain_sync::pool::TtlPool;

#[test]
fn insert_same_peer_key_keeps_most_recent() {
    let mut pool: TtlPool<u64> = TtlPool::new(100, 10);
    pool.insert(1, 5, 111, 0);
    pool.insert(1, 5, 222, 1);
    assert_eq!(pool.len(), 1);
    let taken = pool.take(10, 1);
    assert_eq!(taken, vec![222]);
}

#[test]
fn same_key_from_distinct_peers_is_distinct_work() {
    let mut pool: TtlPool<u64> = TtlPool::new(100, 10);
    pool.insert(1, 5, 111, 0);
    pool.insert(2, 5, 222, 0);
    assert_eq!(pool.len(), 2);
    let taken = pool.take(10, 0);
    assert_eq!(taken, vec![111, 222]);
}

#[test]
fn take_returns_at_most_max_and_never_repeats() {
    let mut pool: TtlPool<u64> = TtlPool::new(100, 10);
    for k in 0..5u64 {
        pool.insert(1, k, 100 + k, 0);
    }
    let first = pool.take(3, 0);
    assert_eq!(first, vec![100, 101, 102]);
    let second = pool.take(3, 0);
    assert_eq!(second, vec![103, 104]);
    let third = pool.take(3, 0);
    assert!(third.is_empty());
}

#[test]
fn take_zero_returns_nothing() {
    let mut pool: TtlPool<u64> = TtlPool::new(100, 10);
    pool.insert(1, 1, 11, 0);
    assert!(pool.take(0, 0).is_empty());
    assert_eq!(pool.take(1, 0), vec![11]);
}

#[test]
fn expired_entry_is_never_returned() {
    let mut pool: TtlPool<u64> = TtlPool::new(10, 10);
    pool.insert(1, 1, 11, 0);
    pool.insert(1, 2, 22, 5);
    let taken = pool.take(10, 11);
    assert_eq!(taken, vec![22]);
    assert!(pool.take(10, 11).is_empty());
}

#[test]
fn entry_at_exact_ttl_age_is_still_live() {
    let mut pool: TtlPool<u64> = TtlPool::new(10, 10);
    pool.insert(1, 1, 11, 0);
    let taken = pool.take(10, 10);
    assert_eq!(taken, vec![11]);
}

#[test]
fn sweep_reclaims_expired_entries() {
    let mut pool: TtlPool<u64> = TtlPool::new(10, 10);
    pool.insert(1, 1, 11, 0);
    pool.insert(1, 2, 22, 20);
    assert_eq!(pool.len(), 2);
    pool.sweep(20);
    assert_eq!(pool.len(), 1);
    assert_eq!(pool.take(10, 20), vec![22]);
}

#[test]
fn full_pool_evicts_oldest_on_insert() {
    let mut pool: TtlPool<u64> = TtlPool::new(100, 2);
    assert!(!pool.insert(1, 1, 11, 0));
    assert!(!pool.insert(1, 2, 22, 0));
    assert!(pool.insert(1, 3, 33, 0));
    assert_eq!(pool.len(), 2);
    assert_eq!(pool.take(10, 0), vec![22, 33]);
}

#[test]
fn overwrite_in_full_pool_does_not_evict() {
    let mut pool: TtlPool<u64> = TtlPool::new(100, 2);
    pool.insert(1, 1, 11, 0);
    pool.insert(1, 2, 22, 0);
    assert!(!pool.insert(1, 2, 99, 1));
    assert_eq!(pool.take(10, 1), vec![11, 99]);
}
