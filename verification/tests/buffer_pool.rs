use echo_reactor::buffer::BufferPool;

#[test]
fn acquire_count_guards_then_exhaust_then_release() {
    let count: u16 = 3;
    let mut pool = BufferPool::new(count, 8);
    assert_eq!(pool.free_count(), 3);

    let mut guards = Vec::new();
    for _ in 0..count {
        let g = pool.acquire().expect("a free slot must be available");
        guards.push(g);
    }
    assert_eq!(pool.free_count(), 0);

    // the count+1-th concurrent acquisition fails
    assert!(pool.acquire().is_none());

    // after one guard is released, acquisition succeeds again
    let released = guards.pop().unwrap();
    let released_idx = released.idx();
    pool.release(released);
    assert_eq!(pool.free_count(), 1);
    let again = pool.acquire().expect("released slot must be acquirable");
    assert_eq!(again.idx(), released_idx);
}

#[test]
fn acquired_guards_hold_distinct_slots() {
    let mut pool = BufferPool::new(4, 16);
    let mut idxs = Vec::new();
    while let Some(g) = pool.acquire() {
        idxs.push(g.idx());
    }
    assert_eq!(idxs.len(), 4);
    for a in 0..idxs.len() {
        for b in 0..idxs.len() {
            if a != b {
                assert_ne!(idxs[a], idxs[b]);
            }
        }
    }
}

#[test]
fn empty_pool_has_nothing_to_acquire() {
    let mut pool = BufferPool::new(0, 32);
    assert_eq!(pool.free_count(), 0);
    assert!(pool.acquire().is_none());
}

#[test]
fn pool_reports_its_configuration() {
    let pool = BufferPool::new(5, 64);
    assert_eq!(pool.count(), 5);
    assert_eq!(pool.size(), 64);
}

#[test]
fn acquire_is_lifo_over_a_fresh_pool() {
    let mut pool = BufferPool::new(3, 8);
    // free list starts as 0, 1, 2 and pops from the top
    assert_eq!(pool.acquire().unwrap().idx(), 2);
    assert_eq!(pool.acquire().unwrap().idx(), 1);
    assert_eq!(pool.acquire().unwrap().idx(), 0);
}

#[test]
fn slot_offsets_step_by_the_slot_size() {
    let pool = BufferPool::new(4, 16);
    assert_eq!(pool.slot_offsets(), vec![0usize, 16, 32, 48]);
    let empty = BufferPool::new(0, 16);
    assert_eq!(empty.slot_offsets(), Vec::<usize>::new());
}

#[test]
fn slots_start_zeroed_and_hold_written_bytes() {
    let mut pool = BufferPool::new(2, 4);
    assert_eq!(pool.slot_prefix(0, 4), vec![0u8, 0, 0, 0]);
    assert_eq!(pool.slot_prefix(1, 4), vec![0u8, 0, 0, 0]);

    pool.write_slot(1, &vec![9u8, 8, 7]);
    assert_eq!(pool.slot_prefix(1, 4), vec![9u8, 8, 7, 0]);
    // the neighbouring slot is untouched: guards own disjoint ranges
    assert_eq!(pool.slot_prefix(0, 4), vec![0u8, 0, 0, 0]);
}
