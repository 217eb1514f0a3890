use archflow_logic::ecs::component::ComponentId;
use archflow_logic::ecs::pool::{ColumnPool, PoolStats, TypePool};

#[test]
fn test_column_pool_acquire_release() {
    let mut pool = ColumnPool::new();

    assert_eq!(pool.total_allocations(), 0);
    assert_eq!(pool.total_releases(), 0);

    let column = pool.acquire(ComponentId::of::<u32>(), 4, 8);

    assert_eq!(column.capacity(), 32); // 8 * 4 bytes
    assert_eq!(column.len(), 0);
    assert_eq!(pool.total_allocations(), 1);

    pool.release(ComponentId::of::<u32>(), column);

    assert_eq!(pool.total_releases(), 1);
}

#[test]
fn test_column_pool_multiple_types() {
    let mut pool = ColumnPool::new();

    let col1 = pool.acquire(ComponentId::of::<u32>(), 4, 10);
    let col2 = pool.acquire(ComponentId::of::<f32>(), 4, 20);
    let col3 = pool.acquire(ComponentId::of::<u64>(), 8, 5);

    assert_eq!(pool.total_allocations(), 3);

    pool.release(ComponentId::of::<u32>(), col1);
    pool.release(ComponentId::of::<f32>(), col2);
    pool.release(ComponentId::of::<u64>(), col3);

    assert_eq!(pool.total_releases(), 3);
}

#[test]
fn test_pool_stats() {
    let mut pool = ColumnPool::new();

    let _col1 = pool.acquire(ComponentId::of::<u32>(), 4, 10);
    let _col2 = pool.acquire(ComponentId::of::<f32>(), 4, 20);

    let stats = PoolStats::from_pool(&pool);

    assert_eq!(stats.allocations, 2);
    assert_eq!(stats.pool_count, 2);
}

#[test]
fn test_type_pool_limits() {
    let mut pool = TypePool::new();

    for _i in 0..20 {
        let col = Vec::with_capacity(100);
        pool.push(col);
    }

    // Only 16 should be retained
    assert_eq!(pool.len(), 16);
}

#[test]
fn test_type_pool_try_pop() {
    let mut pool = TypePool::new();

    pool.push(Vec::with_capacity(50));
    pool.push(Vec::with_capacity(100));
    pool.push(Vec::with_capacity(75));

    let col = pool.try_pop(80);

    assert!(col.is_some());
    assert!(col.unwrap().capacity() >= 80);
}

#[test]
fn test_column_pool_clear() {
    let mut pool = ColumnPool::new();

    let _col1 = pool.acquire(ComponentId::of::<u32>(), 4, 10);
    let _col2 = pool.acquire(ComponentId::of::<f32>(), 4, 20);

    pool.clear();

    assert_eq!(pool.total_allocations(), 0);
    assert_eq!(pool.total_releases(), 0);
    assert_eq!(pool.pool_count(), 0);
}

#[test]
fn column_pool_reuses_released_buffer_without_counting() {
    let mut pool = ColumnPool::new();
    let col = pool.acquire(ComponentId::of::<u32>(), 4, 16);
    pool.release(ComponentId::of::<u32>(), col);
    let again = pool.acquire(ComponentId::of::<u32>(), 4, 16);
    assert!(again.capacity() >= 64);
    // Reuse is not a new allocation.
    assert_eq!(pool.total_allocations(), 1);
    assert_eq!(pool.total_releases(), 1);
}

#[test]
fn column_pool_try_acquire_without_pool_is_none() {
    let mut pool = ColumnPool::new();
    assert!(pool.try_acquire(ComponentId::of::<u8>(), 1, 4).is_none());
    assert_eq!(pool.total_allocations(), 0);
    assert_eq!(pool.pool_count(), 0);
}

#[test]
fn type_pool_try_pop_too_small_is_none() {
    let mut pool = TypePool::new();
    pool.push(Vec::with_capacity(8));
    assert!(pool.try_pop(1000).is_none());
    assert_eq!(pool.len(), 1);
}

#[test]
fn column_pool_try_acquire_reuses_without_counting() {
    let mut pool = ColumnPool::new();
    let col = pool.acquire(ComponentId::of::<u64>(), 8, 4);
    assert_eq!(pool.total_allocations(), 1);
    pool.release(ComponentId::of::<u64>(), col);
    let too_big = pool.try_acquire(ComponentId::of::<u64>(), 8, 1000);
    assert!(too_big.is_none());
    let reused = pool.try_acquire(ComponentId::of::<u64>(), 8, 4);
    assert!(reused.is_some());
    assert!(reused.unwrap().capacity() >= 32);
    assert_eq!(pool.total_allocations(), 1);
    assert!(pool.try_acquire(ComponentId::of::<u64>(), 8, 4).is_none());
}

#[test]
fn first_fitting_picks_first_large_enough() {
    assert_eq!(archflow_logic::ecs::pool::first_fitting(&vec![10, 50, 100, 80], 60), Some(2));
    assert_eq!(archflow_logic::ecs::pool::first_fitting(&vec![10, 50], 60), None);
    assert_eq!(archflow_logic::ecs::pool::first_fitting(&vec![], 0), None);
    assert_eq!(archflow_logic::ecs::pool::first_fitting(&vec![0], 0), Some(0));
}
