use polyglot_compute_lab::{
    run_insert_workload, BulkZipperList, BumpArena, BumpDll, DoublyLinkedList, IntSequence,
    SequenceError, UnsafeDll, ZipperList, DEFAULT_ARENA_BYTES, NODE_BYTES, REFERENCE_SEED,
};

fn backends() -> (DoublyLinkedList, UnsafeDll, BumpDll, ZipperList, BulkZipperList) {
    (
        DoublyLinkedList::new(),
        UnsafeDll::new(),
        BumpDll::new(BumpArena::new(DEFAULT_ARENA_BYTES)),
        ZipperList::new(16),
        BulkZipperList::new(16),
    )
}

fn append_range<S: IntSequence>(seq: &mut S, n: i32) {
    for i in 0..n {
        assert_eq!(seq.append(i), Ok(()));
    }
}

fn check_ascending<S: IntSequence>(mut seq: S, n: i32) {
    append_range(&mut seq, n);
    let expected: Vec<i32> = (0..n).collect();
    assert_eq!(seq.to_vec(), expected);
    assert_eq!(seq.len(), n as usize);
    assert_eq!(seq.sum(), n * (n - 1) / 2);
}

#[test]
fn ascending_appends_sum_to_triangle_number() {
    let (a, b, c, d, e) = backends();
    check_ascending(a, 1000);
    check_ascending(b, 1000);
    check_ascending(c, 1000);
    check_ascending(d, 1000);
    check_ascending(e, 1000);
}

#[test]
fn fresh_sequences_sum_to_zero() {
    let (a, b, c, d, e) = backends();
    assert_eq!(a.sum(), 0);
    assert_eq!(b.sum(), 0);
    assert_eq!(c.sum(), 0);
    assert_eq!(d.sum(), 0);
    assert_eq!(e.sum(), 0);
    assert_eq!(a.to_vec(), Vec::<i32>::new());
    assert_eq!(e.len(), 0);
}

fn check_insert_front<S: IntSequence>(mut seq: S) {
    append_range(&mut seq, 4);
    assert_eq!(seq.insert(0, 99), Ok(()));
    assert_eq!(seq.to_vec(), vec![99, 0, 1, 2, 3]);
    assert_eq!(seq.insert(0, -7), Ok(()));
    assert_eq!(seq.to_vec(), vec![-7, 99, 0, 1, 2, 3]);
}

#[test]
fn insert_at_zero_goes_first() {
    let (a, b, c, d, e) = backends();
    check_insert_front(a);
    check_insert_front(b);
    check_insert_front(c);
    check_insert_front(d);
    check_insert_front(e);
}

fn check_insert_middle<S: IntSequence>(mut seq: S) {
    append_range(&mut seq, 5);
    assert_eq!(seq.insert(2, 50), Ok(()));
    assert_eq!(seq.insert(5, 51), Ok(()));
    assert_eq!(seq.insert(1, 52), Ok(()));
    assert_eq!(seq.to_vec(), vec![0, 52, 1, 50, 2, 3, 51, 4]);
    assert_eq!(seq.sum(), 10 + 50 + 51 + 52);
}

#[test]
fn insert_in_the_middle_keeps_order() {
    let (a, b, c, d, e) = backends();
    check_insert_middle(a);
    check_insert_middle(b);
    check_insert_middle(c);
    check_insert_middle(d);
    check_insert_middle(e);
}

fn check_clamped_insert<S: IntSequence>(mut seq: S, mut twin: S) {
    append_range(&mut seq, 3);
    append_range(&mut twin, 3);
    assert_eq!(seq.insert(3, 40), Ok(()));
    assert_eq!(twin.append(40), Ok(()));
    assert_eq!(seq.insert(1000, 41), Ok(()));
    assert_eq!(twin.append(41), Ok(()));
    assert_eq!(seq.to_vec(), twin.to_vec());
    assert_eq!(seq.to_vec(), vec![0, 1, 2, 40, 41]);
}

#[test]
fn insert_past_end_clamps_to_append() {
    check_clamped_insert(DoublyLinkedList::new(), DoublyLinkedList::new());
    check_clamped_insert(UnsafeDll::new(), UnsafeDll::new());
    check_clamped_insert(
        BumpDll::new(BumpArena::new(DEFAULT_ARENA_BYTES)),
        BumpDll::new(BumpArena::new(DEFAULT_ARENA_BYTES)),
    );
    check_clamped_insert(ZipperList::new(0), ZipperList::new(0));
    check_clamped_insert(BulkZipperList::new(0), BulkZipperList::new(0));
}

fn check_rejected_insert<S: IntSequence>(mut seq: S) {
    append_range(&mut seq, 3);
    assert_eq!(seq.insert_checked(4, 9), Err(SequenceError::IndexOutOfRange));
    assert_eq!(seq.insert_checked(usize::MAX, 9), Err(SequenceError::IndexOutOfRange));
    assert_eq!(seq.to_vec(), vec![0, 1, 2]);
    assert_eq!(seq.insert_checked(3, 9), Ok(()));
    assert_eq!(seq.insert_checked(0, 8), Ok(()));
    assert_eq!(seq.to_vec(), vec![8, 0, 1, 2, 9]);
}

#[test]
fn insert_past_end_rejected_under_checked_policy() {
    let (a, b, c, d, e) = backends();
    check_rejected_insert(a);
    check_rejected_insert(b);
    check_rejected_insert(c);
    check_rejected_insert(d);
    check_rejected_insert(e);
}

fn workload<S: IntSequence>(mut seq: S, iterations: i32) -> (Vec<i32>, i32) {
    assert_eq!(run_insert_workload(&mut seq, REFERENCE_SEED, iterations), Ok(()));
    (seq.to_vec(), seq.sum())
}

#[test]
fn all_backends_agree_on_seeded_workload() {
    let (a, b, c, d, e) = backends();
    let reference = workload(a, 1000);
    assert_eq!(reference.0.len(), 1000);
    assert_eq!(reference.1, 499500);
    assert_eq!(workload(b, 1000), reference);
    assert_eq!(workload(c, 1000), reference);
    assert_eq!(workload(d, 1000), reference);
    assert_eq!(workload(e, 1000), reference);
    let mut sorted = reference.0.clone();
    sorted.sort();
    assert_eq!(sorted, (0..1000).collect::<Vec<i32>>());
}

#[test]
fn five_seeded_inserts_give_known_order() {
    let (a, b, c, d, e) = backends();
    let expected = vec![1, 4, 2, 3, 0];
    assert_eq!(workload(a, 5).0, expected);
    assert_eq!(workload(b, 5).0, expected);
    assert_eq!(workload(c, 5).0, expected);
    assert_eq!(workload(d, 5).0, expected);
    assert_eq!(workload(e, 5).0, expected);
}

#[test]
fn twenty_seeded_inserts_give_known_order() {
    let expected = vec![1, 10, 4, 2, 3, 16, 13, 12, 15, 18, 5, 8, 11, 6, 9, 19, 7, 17, 14, 0];
    assert_eq!(workload(ZipperList::new(0), 20).0, expected);
    assert_eq!(workload(BulkZipperList::new(0), 20).0, expected);
    assert_eq!(workload(UnsafeDll::new(), 20).0, expected);
}

#[test]
fn negative_iterations_do_nothing() {
    let mut seq = DoublyLinkedList::new();
    assert_eq!(run_insert_workload(&mut seq, REFERENCE_SEED, -5), Ok(()));
    assert_eq!(seq.len(), 0);
}

#[test]
fn sum_wraps_on_overflow() {
    let mut seq = ZipperList::new(0);
    assert_eq!(seq.append(i32::MAX), Ok(()));
    assert_eq!(seq.append(1), Ok(()));
    assert_eq!(seq.sum(), i32::MIN);
    let mut list = UnsafeDll::new();
    assert_eq!(list.append(i32::MIN), Ok(()));
    assert_eq!(list.append(-1), Ok(()));
    assert_eq!(list.sum(), i32::MAX);
}
