use pow_miner::memory::BufferPool;

#[test]
fn a_new_pool_is_free() {
    let pool: BufferPool<u8> = BufferPool::new(4, 16);
    assert_eq!(pool.len(), 4);
    assert_eq!(pool.in_use_count(), 0);
}

#[test]
fn a_pool_of_k_hands_out_k_handles_and_no_more() {
    let mut pool: BufferPool<u8> = BufferPool::new(3, 8);
    let a = pool.get().unwrap();
    let b = pool.get().unwrap();
    let c = pool.get().unwrap();
    assert_eq!(pool.in_use_count(), 3);
    assert!(pool.get().is_none());
    assert!(pool.get().is_none());
    assert_eq!(pool.in_use_count(), 3);
    let mut slots = vec![a.index(), b.index(), c.index()];
    slots.sort();
    assert_eq!(slots, vec![0, 1, 2]);
}

#[test]
fn an_empty_pool_hands_out_nothing() {
    let mut pool: BufferPool<u8> = BufferPool::new(0, 8);
    assert!(pool.get().is_none());
    assert_eq!(pool.in_use_count(), 0);
}

#[test]
fn a_released_slot_can_be_claimed_again() {
    let mut pool: BufferPool<u8> = BufferPool::new(2, 8);
    let a = pool.get().unwrap();
    let b = pool.get().unwrap();
    assert!(pool.get().is_none());
    let slot = a.index();
    pool.release(a);
    assert_eq!(pool.in_use_count(), 1);
    let again = pool.get().unwrap();
    assert_eq!(again.index(), slot);
    assert!(pool.get().is_none());
    pool.release(b);
    pool.release(again);
    assert_eq!(pool.in_use_count(), 0);
}

#[test]
fn a_buffer_comes_cleared_and_keeps_its_capacity() {
    let mut pool: BufferPool<u8> = BufferPool::new(1, 64);
    let mut a = pool.get().unwrap();
    assert!(a.is_empty());
    assert!(a.capacity() >= 64);
    a.extend_from_slice(&[1, 2, 3, 4]);
    assert_eq!(a.as_slice(), &[1, 2, 3, 4]);
    assert_eq!(a.len(), 4);
    pool.release(a);
    let b = pool.get().unwrap();
    assert!(b.is_empty());
    assert!(b.capacity() >= 64);
}

#[test]
fn releasing_into_a_free_slot_changes_nothing() {
    let mut first: BufferPool<u8> = BufferPool::new(2, 8);
    let mut second: BufferPool<u8> = BufferPool::new(2, 8);
    let stranger = second.get().unwrap();
    assert_eq!(stranger.index(), 0);
    first.release(stranger);
    assert_eq!(first.in_use_count(), 0);
    assert_eq!(first.len(), 2);
    assert!(first.get().is_some());
    assert!(first.get().is_some());
    assert!(first.get().is_none());
}

#[test]
fn a_pool_of_other_items() {
    let mut pool: BufferPool<u64> = BufferPool::new(1, 4);
    let mut h = pool.get().unwrap();
    h.push(7);
    assert_eq!(h[0], 7);
    pool.release(h);
    assert_eq!(pool.in_use_count(), 0);
}
