use polyglot_compute_lab::{
    run_rust_bump, run_rust_dll, run_rust_unsafe, run_rust_zipper, SequenceError,
    WorkloadGenerator, DEFAULT_ARENA_BYTES, NODE_BYTES, REFERENCE_SEED,
};

#[test]
fn append_runs_report_triangle_numbers() {
    assert_eq!(run_rust_dll(100), 4950);
    assert_eq!(run_rust_unsafe(100), 4950);
    assert_eq!(run_rust_bump(100), Ok(4950));
    assert_eq!(run_rust_zipper(100), 4950);
    assert_eq!(run_rust_dll(1), 0);
}

#[test]
fn append_runs_on_no_iterations_are_zero() {
    assert_eq!(run_rust_dll(0), 0);
    assert_eq!(run_rust_unsafe(-3), 0);
    assert_eq!(run_rust_bump(-1), Ok(0));
    assert_eq!(run_rust_zipper(0), 0);
}

#[test]
fn large_append_run_wraps_its_sum() {
    assert_eq!(run_rust_dll(100_000), 704_982_704);
    assert_eq!(run_rust_zipper(100_000), 704_982_704);
}

#[test]
fn bump_run_fails_fast_past_the_arena() {
    let fits = (DEFAULT_ARENA_BYTES / NODE_BYTES) as i32;
    assert_eq!(run_rust_bump(fits + 1), Err(SequenceError::CapacityExceeded));
}

#[test]
fn generator_follows_the_recurrence() {
    let mut g = WorkloadGenerator::new(REFERENCE_SEED);
    let picks: Vec<usize> = (0..6).map(|len| g.next(len)).collect();
    assert_eq!(picks, vec![0, 0, 1, 2, 1, 4]);
}

#[test]
fn generator_is_deterministic() {
    let mut a = WorkloadGenerator::new(42);
    let mut b = WorkloadGenerator::new(42);
    for len in [0usize, 7, 3, 1000, 1, 65536] {
        assert_eq!(a.next(len), b.next(len));
    }
    let mut c = WorkloadGenerator::new(u32::MAX);
    let first = c.next(1_000_000_007);
    assert_eq!(first, (u32::MAX as usize) % 1_000_000_007);
    assert!(c.next(10) < 10);
}
