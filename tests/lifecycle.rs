use polyglot_compute_lab::{
    BulkZipperList, BumpArena, BumpDll, DoublyLinkedList, IntSequence, SequenceError, UnsafeDll,
    ZipperList, NODE_BYTES,
};

#[test]
fn manual_list_survives_repeated_cycles() {
    let mut list = UnsafeDll::new();
    for round in 0..5 {
        for i in 0..50 {
            assert_eq!(list.insert((i * 7) as usize % 13, i + round), Ok(()));
        }
        assert_eq!(list.len(), 50);
        list.cleanup();
        assert_eq!(list.len(), 0);
        assert_eq!(list.sum(), 0);
        assert_eq!(list.to_vec(), Vec::<i32>::new());
    }
    assert_eq!(list.append(3), Ok(()));
    assert_eq!(list.to_vec(), vec![3]);
}

#[test]
fn shared_list_survives_repeated_cycles() {
    let mut list = DoublyLinkedList::new();
    for round in 0..5 {
        for i in 0..50 {
            assert_eq!(list.insert(i as usize / 2, i * round), Ok(()));
        }
        assert_eq!(list.len(), 50);
        list.teardown();
        assert_eq!(list.len(), 0);
        assert_eq!(list.sum(), 0);
    }
}

#[test]
fn arena_reset_matches_fresh_arena() {
    let mut reused = BumpDll::new(BumpArena::new(NODE_BYTES * 100));
    for round in 0..3 {
        for i in 0..40 {
            assert_eq!(reused.insert(i as usize % 5, i - round), Ok(()));
        }
        assert_eq!(reused.arena_offset(), 40 * NODE_BYTES);
        reused.reset();
        assert_eq!(reused.arena_offset(), 0);
        assert_eq!(reused.len(), 0);
    }
    let mut fresh = BumpDll::new(BumpArena::new(NODE_BYTES * 100));
    for i in 0..40 {
        assert_eq!(reused.insert(i as usize % 3, i), Ok(()));
        assert_eq!(fresh.insert(i as usize % 3, i), Ok(()));
    }
    assert_eq!(reused.to_vec(), fresh.to_vec());
    assert_eq!(reused.arena_offset(), fresh.arena_offset());
}

#[test]
fn full_arena_refuses_further_nodes() {
    let mut list = BumpDll::new(BumpArena::new(NODE_BYTES * 3 + NODE_BYTES - 1));
    assert_eq!(list.append(1), Ok(()));
    assert_eq!(list.insert(0, 2), Ok(()));
    assert_eq!(list.append(3), Ok(()));
    assert_eq!(list.append(4), Err(SequenceError::CapacityExceeded));
    assert_eq!(list.insert(0, 5), Err(SequenceError::CapacityExceeded));
    assert_eq!(list.insert(99, 6), Err(SequenceError::CapacityExceeded));
    assert_eq!(list.to_vec(), vec![2, 1, 3]);
    assert_eq!(list.arena_offset(), 3 * NODE_BYTES);
    list.reset();
    assert_eq!(list.append(7), Ok(()));
    assert_eq!(list.to_vec(), vec![7]);
}

#[test]
fn empty_arena_refuses_everything() {
    let mut list = BumpDll::new(BumpArena::new(NODE_BYTES - 1));
    assert_eq!(list.append(1), Err(SequenceError::CapacityExceeded));
    assert_eq!(list.to_vec(), Vec::<i32>::new());
}

#[test]
fn arena_comes_back_with_its_budget() {
    let mut list = BumpDll::new(BumpArena::new(1000));
    assert_eq!(list.append(1), Ok(()));
    assert_eq!(list.append(2), Ok(()));
    let arena = list.into_arena();
    assert_eq!(arena.capacity(), 1000);
    assert_eq!(arena.offset(), 2 * NODE_BYTES);
    let again = BumpDll::new(arena);
    assert_eq!(again.arena_offset(), 0);
}

#[test]
fn zipper_cursor_moves_keep_order() {
    let mut z = ZipperList::new(4);
    for i in 1..=5 {
        assert_eq!(z.append(i), Ok(()));
    }
    z.move_left();
    z.move_left();
    assert_eq!(z.to_vec(), vec![1, 2, 3, 4, 5]);
    assert_eq!(z.sum(), 15);
    assert_eq!(z.append(6), Ok(()));
    assert_eq!(z.to_vec(), vec![1, 2, 3, 4, 5, 6]);
    for _ in 0..10 {
        z.move_left();
    }
    z.move_right();
    assert_eq!(z.insert(1, 0), Ok(()));
    assert_eq!(z.to_vec(), vec![1, 0, 2, 3, 4, 5, 6]);
    for _ in 0..10 {
        z.move_right();
    }
    assert_eq!(z.to_vec(), vec![1, 0, 2, 3, 4, 5, 6]);
}

#[test]
fn bulk_zipper_moves_blocks_both_ways() {
    let mut z = BulkZipperList::new(0);
    for i in 0..10 {
        assert_eq!(z.append(i), Ok(()));
    }
    assert_eq!(z.insert(2, 100), Ok(()));
    assert_eq!(z.insert(9, 101), Ok(()));
    assert_eq!(z.insert(0, 102), Ok(()));
    assert_eq!(z.insert(50, 103), Ok(()));
    assert_eq!(z.to_vec(), vec![102, 0, 1, 100, 2, 3, 4, 5, 6, 7, 101, 8, 9, 103]);
    z.teardown();
    assert_eq!(z.len(), 0);
    assert_eq!(z.append(5), Ok(()));
    assert_eq!(z.to_vec(), vec![5]);
}

#[test]
fn zipper_cursor_follows_each_insert() {
    let mut z = ZipperList::new(0);
    let mut b = BulkZipperList::new(0);
    for i in 0..6 {
        assert_eq!(z.append(i), Ok(()));
        assert_eq!(b.append(i), Ok(()));
        assert_eq!(z.position(), z.len());
        assert_eq!(b.position(), b.len());
    }
    assert_eq!(z.insert(0, 10), Ok(()));
    assert_eq!(b.insert(0, 10), Ok(()));
    assert_eq!(z.position(), 1);
    assert_eq!(b.position(), 1);
    assert_eq!(z.insert(4, 11), Ok(()));
    assert_eq!(b.insert(4, 11), Ok(()));
    assert_eq!(z.position(), 5);
    assert_eq!(b.position(), 5);
    assert_eq!(z.insert(100, 12), Ok(()));
    assert_eq!(b.insert(100, 12), Ok(()));
    assert_eq!(z.position(), 9);
    assert_eq!(b.position(), 9);
    assert_eq!(z.to_vec(), b.to_vec());
    assert_eq!(z.to_vec(), vec![10, 0, 1, 2, 11, 3, 4, 5, 12]);
}

#[test]
fn seeded_inserts_leave_cursor_after_last_value() {
    let mut z = ZipperList::new(5);
    let mut b = BulkZipperList::new(5);
    for (index, value) in [(0usize, 0), (0, 1), (1, 2), (2, 3), (1, 4)] {
        assert_eq!(z.insert(index, value), Ok(()));
        assert_eq!(b.insert(index, value), Ok(()));
    }
    assert_eq!(z.to_vec(), vec![1, 4, 2, 3, 0]);
    assert_eq!(b.to_vec(), vec![1, 4, 2, 3, 0]);
    assert_eq!(z.position(), 2);
    assert_eq!(b.position(), 2);
    assert_eq!(z.sum(), 10);
}

#[test]
fn arena_offset_grows_one_node_per_element() {
    let mut list = BumpDll::new(BumpArena::new(NODE_BYTES * 4));
    assert_eq!(list.arena_offset(), 0);
    assert_eq!(list.append(1), Ok(()));
    assert_eq!(list.arena_offset(), NODE_BYTES);
    assert_eq!(list.insert(0, 2), Ok(()));
    assert_eq!(list.arena_offset(), 2 * NODE_BYTES);
    assert_eq!(list.insert(50, 3), Ok(()));
    assert_eq!(list.arena_offset(), 3 * NODE_BYTES);
    assert_eq!(list.insert(1, 4), Ok(()));
    assert_eq!(list.arena_offset(), 4 * NODE_BYTES);
    assert_eq!(list.insert(1, 5), Err(SequenceError::CapacityExceeded));
    assert_eq!(list.arena_offset(), 4 * NODE_BYTES);
    assert_eq!(list.to_vec(), vec![2, 4, 1, 3]);
}
