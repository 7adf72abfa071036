use chunked_arena::arena::Arena;

fn assert_send_sync<T: Send + Sync>() {}

#[test]
fn arena_is_send_sync_when_t_is() {
    assert_send_sync::<Arena<i32>>();
}

#[test]
fn test_arena_allocation_and_snapshots() {
    let mut arena = Arena::new(4, 1000300, 1024 * 1024 * 1024);

    // Allocate some data into the arena
    arena.try_alloc(42).unwrap();
    arena.try_alloc(100).unwrap();

    // Take a snapshot
    arena.snapshot();

    println!(
        "Arena: {} {}, {}",
        arena.total_chunks(),
        arena.total_items(),
        arena.total_memory_usage()
    );

    // Allocate more data
    arena.try_alloc(200).unwrap();

    // Take another snapshot
    arena.snapshot();

    println!(
        "Arena: {} {}, {}",
        arena.total_chunks(),
        arena.total_items(),
        arena.total_memory_usage()
    );

    for i in 0..100 {
        arena.try_alloc(i).unwrap();
    }

    arena.snapshot();

    println!(
        "Arena: {} {}, {}",
        arena.total_chunks(),
        arena.total_items(),
        arena.total_memory_usage()
    );

    let snapshot_data3_len = arena.get_snapshot(2).len();

    assert_eq!(arena.total_items(), 103);

    // Add 1M objects after the snapshots; the snapshot data must not change.
    for i in 0..1_000_000 {
        arena.must_alloc(i);
    }

    println!(
        "Arena: {} {}, {}",
        arena.total_chunks(),
        arena.total_items(),
        arena.total_memory_usage()
    );

    assert_eq!(arena.total_chunks(), 18);
    assert_eq!(arena.total_items(), 1_000_103);

    let snapshot_data1: Vec<i32> = arena.get_snapshot(0).into_iter().copied().collect();
    let snapshot_data2: Vec<i32> = arena.get_snapshot(1).into_iter().copied().collect();
    let snapshot_data3: Vec<i32> = arena.get_snapshot(2).into_iter().copied().collect();

    assert_eq!(snapshot_data1, vec![42, 100]);
    assert_eq!(snapshot_data2, vec![42, 100, 200]);
    assert_eq!(snapshot_data3.len(), snapshot_data3_len);
    assert_eq!(snapshot_data3[0..3], [42, 100, 200]);

    for i in 0..100 {
        assert_eq!(snapshot_data3[3 + i], i as i32);
    }

    // Reading the snapshots again gives the same data.
    let snapshot_data1_again: Vec<i32> = arena.get_snapshot(0).into_iter().copied().collect();
    let snapshot_data2_again: Vec<i32> = arena.get_snapshot(1).into_iter().copied().collect();
    let snapshot_data3_again: Vec<i32> = arena.get_snapshot(2).into_iter().copied().collect();

    assert_eq!(snapshot_data1, snapshot_data1_again);
    assert_eq!(snapshot_data2, snapshot_data2_again);
    assert_eq!(snapshot_data3, snapshot_data3_again);

    arena.reset();
    assert_eq!(arena.total_chunks(), 1);
    assert_eq!(arena.total_items(), 0);
    assert_eq!(arena.total_memory_usage(), 0);
}

#[test]
fn test_arena_iterator() {
    let mut arena = Arena::new(4, 1000, 1024 * 1024 * 1024);

    for i in 0..1000 {
        arena.try_alloc(i).unwrap();
    }

    let mut iter = arena.iter();
    for i in 0..1000 {
        assert_eq!(iter.next(), Some(&i));
    }
    assert_eq!(iter.next(), None);
}

#[test]
fn test_alloc_and_retrieve() {
    let mut arena = Arena::new(4, 100, 1024 * 1024);

    let a: String = "Hello, World!".into();

    let (c0, i0, elem_ref) = arena.advanced_alloc(a).expect("Allocation failed");
    assert_eq!(elem_ref, &"Hello, World!");
    println!("{:?},{:?}", c0, i0);

    let b = "Hello, again!".into();
    let (c1, i1, elem_ref1) = arena.advanced_alloc(b).expect("Advanced allocation failed");
    assert_eq!(elem_ref1, &"Hello, again!");
    println!("{:?},{:?}", c1, i1);

    // Retrieve the elements using the indices and verify them
    let element = arena.get(c1, i1).expect("Element not found");
    assert_eq!(element, &"Hello, again!");
    println!("{:?}", element);

    //update a
    arena
        .get_mut(c0, i0)
        .expect("Element not found")
        .push_str("!!!");
    let element = arena.get(c0, i0).expect("Element not found");
    println!("{:?}", element);
    assert_eq!(element, &"Hello, World!!!!");

    //update b
    arena
        .get_mut(c1, i1)
        .expect("Element not found")
        .push_str("???");
    let element = arena.get(c1, i1).expect("Element not found");
    println!("{:?}", element);
    assert_eq!(element, &"Hello, again!???");
}
