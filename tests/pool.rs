use teepod::id_pool::{IdPool, PoolError};

#[test]
fn allocate_gives_lowest_free_then_exhausts() {
    let mut pool = IdPool::new(3, 6);
    assert_eq!(pool.allocate(), Some(3));
    assert_eq!(pool.allocate(), Some(4));
    assert_eq!(pool.allocate(), Some(5));
    assert_eq!(pool.allocate(), None);
}

#[test]
fn allocated_ids_are_distinct() {
    let mut pool = IdPool::new(10, 20);
    let mut seen: Vec<u32> = Vec::new();
    while let Some(x) = pool.allocate() {
        assert!(!seen.contains(&x));
        assert!((10..20).contains(&x));
        seen.push(x);
    }
    assert_eq!(seen.len(), 10);
}

#[test]
fn free_returns_id_to_pool() {
    let mut pool = IdPool::new(0, 3);
    assert_eq!(pool.allocate(), Some(0));
    assert_eq!(pool.allocate(), Some(1));
    pool.free(0);
    assert!(!pool.is_held(0));
    assert_eq!(pool.allocate(), Some(0));
    assert_eq!(pool.allocate(), Some(2));
    assert_eq!(pool.allocate(), None);
}

#[test]
fn free_twice_and_free_unheld_are_harmless() {
    let mut pool = IdPool::new(0, 3);
    assert_eq!(pool.allocate(), Some(0));
    assert_eq!(pool.allocate(), Some(1));
    pool.free(1);
    pool.free(1);
    pool.free(2);
    pool.free(100);
    assert!(pool.is_held(0));
    assert!(!pool.is_held(1));
    assert_eq!(pool.allocate(), Some(1));
    assert_eq!(pool.allocate(), Some(2));
    assert_eq!(pool.allocate(), None);
}

#[test]
fn occupied_id_is_skipped_by_allocate() {
    let mut pool = IdPool::new(5, 8);
    assert_eq!(pool.occupy(5), Ok(()));
    assert_eq!(pool.occupy(5), Ok(()));
    assert_eq!(pool.allocate(), Some(6));
    assert_eq!(pool.occupy(7), Ok(()));
    assert_eq!(pool.allocate(), None);
    pool.free(5);
    assert_eq!(pool.allocate(), Some(5));
}

#[test]
fn occupy_out_of_range_fails() {
    let mut pool = IdPool::new(5, 8);
    assert_eq!(pool.occupy(4), Err(PoolError::OutOfRange));
    assert_eq!(pool.occupy(8), Err(PoolError::OutOfRange));
    assert!(!pool.is_held(4));
    assert_eq!(pool.allocate(), Some(5));
}

#[test]
fn empty_range_is_exhausted() {
    let mut pool = IdPool::new(7, 7);
    assert_eq!(pool.allocate(), None);
    let mut reversed = IdPool::new(9, 2);
    assert_eq!(reversed.allocate(), None);
    assert_eq!(reversed.occupy(5), Err(PoolError::OutOfRange));
}

#[test]
fn pool_at_top_of_u32() {
    let mut pool = IdPool::new(u32::MAX - 2, u32::MAX);
    assert_eq!(pool.allocate(), Some(u32::MAX - 2));
    assert_eq!(pool.allocate(), Some(u32::MAX - 1));
    assert_eq!(pool.allocate(), None);
}
