use tezweb::memory::pool::{ObjectPool, POOL_SIZE};

#[test]
fn test_pool_reuses_objects() {
    let mut pool = ObjectPool::<String>::new();
    pool.put(Box::new("test".to_string()));
    let reused = pool.get();
    assert!(reused.is_some());
    assert_eq!(*reused.unwrap(), "test");
}

#[test]
fn test_empty_pool_returns_none() {
    let mut pool = ObjectPool::<u64>::new();
    assert!(pool.get().is_none());
}

#[test]
fn test_pool_capacity_limit() {
    let mut pool = ObjectPool::<u64>::new();
    for i in 0..POOL_SIZE {
        pool.put(Box::new(i as u64));
    }
    pool.put(Box::new(9999u64));
    let mut count = 0;
    while pool.get().is_some() {
        count += 1;
    }
    assert_eq!(count, POOL_SIZE);
}

#[test]
fn test_clear_empties_pool() {
    let mut pool = ObjectPool::<String>::new();
    pool.put(Box::new("a".to_string()));
    pool.put(Box::new("b".to_string()));
    pool.clear();
    assert!(pool.get().is_none());
}

#[test]
fn pool_gives_back_last_put_first() {
    let mut pool = ObjectPool::<u32>::new();
    pool.put(Box::new(1));
    pool.put(Box::new(2));
    pool.put(Box::new(3));
    assert_eq!(*pool.get().unwrap(), 3);
    assert_eq!(*pool.get().unwrap(), 2);
    pool.put(Box::new(4));
    assert_eq!(*pool.get().unwrap(), 4);
    assert_eq!(*pool.get().unwrap(), 1);
    assert!(pool.get().is_none());
}

#[test]
fn full_pool_drops_new_objects() {
    let mut pool = ObjectPool::<usize>::default();
    for i in 0..POOL_SIZE {
        pool.put(Box::new(i));
    }
    pool.put(Box::new(123456));
    assert_eq!(*pool.get().unwrap(), POOL_SIZE - 1);
}
