use chunked_arena::arena::Arena;

#[test]
fn refused_allocation_reports_counts_and_limits() {
    let mut arena: Arena<i32> = Arena::new(4, 2, 1024 * 1024 * 1024);
    arena.try_alloc(1).unwrap();
    arena.try_alloc(2).unwrap();
    let err = arena.try_alloc(3).unwrap_err();
    assert_eq!(err, "Arena capacity exceeded, 2/2, 8/1073741824");
    assert_eq!(arena.total_items(), 2);
    assert_eq!(arena.total_memory_usage(), 8);
    let err = arena.advanced_alloc(3).unwrap_err();
    assert_eq!(err, "Arena capacity exceeded, 2/2, 8/1073741824");
}

#[test]
fn refused_allocation_by_memory_limit() {
    // Three `u64` items need 24 bytes; 20 admit only two.
    let mut arena: Arena<u64> = Arena::new(1, 100, 20);
    assert!(arena.try_alloc(7).is_ok());
    assert!(arena.try_alloc(8).is_ok());
    let err = arena.try_alloc(9).unwrap_err();
    assert_eq!(err, "Arena capacity exceeded, 2/100, 16/20");
    assert_eq!(arena.total_memory_usage(), 16);
}

#[test]
fn zero_limits_refuse_everything() {
    let mut arena: Arena<u8> = Arena::new(4, 0, 0);
    let err = arena.try_alloc(1).unwrap_err();
    assert_eq!(err, "Arena capacity exceeded, 0/0, 0/0");
    assert_eq!(arena.total_items(), 0);
    assert_eq!(arena.total_chunks(), 1);
}

#[test]
fn chunks_double_when_full() {
    let mut arena: Arena<u32> = Arena::new(2, 1000, 1 << 20);
    let mut positions = Vec::new();
    for i in 0..7u32 {
        let (c, e, v) = arena.advanced_alloc(i).unwrap();
        assert_eq!(*v, i);
        positions.push((c, e));
    }
    assert_eq!(
        positions,
        vec![(0, 0), (0, 1), (1, 0), (1, 1), (1, 2), (1, 3), (2, 0)]
    );
    assert_eq!(arena.total_chunks(), 3);
    assert_eq!(values(&arena), (0..7).collect::<Vec<u32>>());
}

fn values<T: Copy>(arena: &Arena<T>) -> Vec<T> {
    let mut it = arena.iter();
    let mut out = Vec::new();
    while let Some(v) = it.next() {
        out.push(*v);
    }
    out
}

#[test]
fn zero_initial_capacity_grows_the_second_chunk() {
    // The empty first chunk has no room; the second chunk's vector grows on
    // its first push and takes the next item too.
    let mut arena: Arena<u32> = Arena::new(0, 10, 1 << 20);
    assert_eq!(arena.advanced_alloc(5).map(|(c, e, _)| (c, e)), Ok((1, 0)));
    assert_eq!(arena.advanced_alloc(6).map(|(c, e, _)| (c, e)), Ok((1, 1)));
    assert_eq!(arena.total_chunks(), 2);
    assert_eq!(values(&arena), vec![5, 6]);
}

#[test]
fn zero_sized_items_stay_in_one_chunk() {
    let mut arena: Arena<()> = Arena::new(1, 100, 0);
    for _ in 0..100 {
        arena.must_alloc(());
    }
    assert_eq!(arena.total_chunks(), 1);
    assert_eq!(arena.total_items(), 100);
    assert_eq!(arena.total_memory_usage(), 0);
}

#[test]
fn get_outside_the_items_is_none() {
    let mut arena: Arena<i32> = Arena::new(2, 10, 1 << 20);
    arena.try_alloc(1).unwrap();
    assert_eq!(arena.get(0, 0), Some(&1));
    assert_eq!(arena.get(0, 1), None);
    assert_eq!(arena.get(1, 0), None);
    assert!(arena.get_mut(0, 1).is_none());
    assert!(arena.get_mut(5, 0).is_none());
}

#[test]
fn write_changes_only_its_item() {
    let mut arena: Arena<i32> = Arena::new(2, 10, 1 << 20);
    for i in 0..5 {
        arena.try_alloc(i).unwrap();
    }
    *arena.get_mut(1, 1).unwrap() = 99;
    assert_eq!(values(&arena), vec![0, 1, 2, 99, 4]);
    assert_eq!(arena.get(1, 1), Some(&99));
    assert_eq!(arena.total_items(), 5);
}

#[test]
fn allocation_keeps_positions_and_snapshots() {
    let mut arena: Arena<i32> = Arena::new(1, 100, 1 << 20);
    let (c, e, _) = arena.advanced_alloc(10).unwrap();
    let id = arena.snapshot();
    assert_eq!(id, 0);
    for i in 0..20 {
        arena.must_alloc(i);
    }
    assert_eq!(arena.get(c, e), Some(&10));
    let snap: Vec<i32> = arena.get_snapshot(id).into_iter().copied().collect();
    assert_eq!(snap, vec![10]);
}

#[test]
fn snapshot_captures_all_items_now() {
    let mut arena: Arena<i32> = Arena::new(3, 100, 1 << 20);
    let empty = arena.snapshot();
    for i in 0..8 {
        arena.must_alloc(i);
    }
    let full = arena.snapshot();
    assert_eq!((empty, full), (0, 1));
    assert!(arena.get_snapshot(empty).is_empty());
    let snap: Vec<i32> = arena.get_snapshot(full).into_iter().copied().collect();
    assert_eq!(snap, (0..8).collect::<Vec<i32>>());
    assert_eq!(arena.snapshot_offsets(), &vec![(0, 0), (1, 5)]);
}

#[test]
fn reset_empties_and_restarts_with_one_slot() {
    let mut arena: Arena<i32> = Arena::new(4, 100, 1 << 20);
    for i in 0..10 {
        arena.must_alloc(i);
    }
    arena.snapshot();
    arena.reset();
    assert_eq!(arena.total_chunks(), 1);
    assert_eq!(arena.total_items(), 0);
    assert_eq!(arena.total_memory_usage(), 0);
    assert!(arena.snapshot_offsets().is_empty());
    assert_eq!(arena.max_items(), 100);
    assert_eq!(arena.max_memory_bytes(), 1 << 20);
    assert_eq!(arena.advanced_alloc(7).map(|(c, e, _)| (c, e)), Ok((0, 0)));
    assert_eq!(arena.advanced_alloc(8).map(|(c, e, _)| (c, e)), Ok((1, 0)));
    assert_eq!(arena.advanced_alloc(9).map(|(c, e, _)| (c, e)), Ok((1, 1)));
}

#[test]
fn iterator_carries_batch_size() {
    let mut arena: Arena<i32> = Arena::new(2, 10, 1 << 20);
    arena.try_alloc(1).unwrap();
    let it = arena.iter_with_batch_size(7);
    assert_eq!(it.batch_size, 7);
    assert!(it.next_value.is_none());
    assert_eq!(arena.iter().batch_size, 512);
    let empty: Arena<i32> = Arena::new(2, 10, 1 << 20);
    assert_eq!(empty.iter().next(), None);
}

#[test]
fn parts_round_trip() {
    let mut arena: Arena<i32> = Arena::new(2, 10, 1 << 20);
    for i in 0..5 {
        arena.try_alloc(i).unwrap();
    }
    arena.snapshot();
    let rebuilt = Arena::from_parts(
        arena.max_items(),
        arena.max_memory_bytes(),
        arena.chunks().clone(),
        arena.snapshot_offsets().clone(),
        arena.total_items(),
        arena.total_memory_usage(),
    );
    assert_eq!(rebuilt.total_items(), 5);
    assert_eq!(rebuilt.total_chunks(), 2);
    assert_eq!(values(&rebuilt), values(&arena));
    let snap: Vec<i32> = rebuilt.get_snapshot(0).into_iter().copied().collect();
    assert_eq!(snap, vec![0, 1, 2, 3, 4]);
}

#[test]
fn parts_are_taken_as_given() {
    let chunks = vec![vec![1i32, 2], vec![3]];
    // Counters that do not match the items are kept as they are.
    let a = Arena::from_parts(10, 100, chunks.clone(), vec![], 7, 5);
    assert_eq!((a.total_items(), a.total_memory_usage()), (7, 5));
    assert_eq!(a.get(1, 0), Some(&3));
    // A snapshot longer than its chunk gives the whole chunk.
    let b = Arena::from_parts(10, 100, chunks.clone(), vec![(1, 9)], 3, 12);
    let snap: Vec<i32> = b.get_snapshot(0).into_iter().copied().collect();
    assert_eq!(snap, vec![1, 2, 3]);
    // No chunk at all.
    let c = Arena::<i32>::from_parts(10, 100, vec![], vec![], 0, 0);
    assert_eq!(c.total_chunks(), 0);
    assert_eq!(c.get(0, 0), None);
}

#[test]
fn writes_show_in_snapshots_without_changing_their_length() {
    let mut arena: Arena<i32> = Arena::new(2, 100, 1 << 20);
    for i in 0..3 {
        arena.must_alloc(i);
    }
    let id = arena.snapshot();
    *arena.get_mut(0, 1).unwrap() = 40;
    for i in 3..10 {
        arena.must_alloc(i);
    }
    arena.snapshot();
    let snap: Vec<i32> = arena.get_snapshot(id).into_iter().copied().collect();
    assert_eq!(snap, vec![0, 40, 2]);
}
