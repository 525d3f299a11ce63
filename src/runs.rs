use vstd::prelude::*;
use crate::bump_list::{BumpArena, BumpDll, DEFAULT_ARENA_BYTES, NODE_BYTES};
use crate::manual_list::UnsafeDll;
use crate::model::{ascending, wrapped_total};
use crate::rc_list::DoublyLinkedList;
use crate::sequence::SequenceError;
use crate::workload::{append_and_sum, rounds};
use crate::zipper::ZipperList;

verus! {

/// Appends `0..iterations` to a fresh index-linked list and returns the
/// sum.
pub fn run_rust_dll(iterations: i32) -> (r: i32)
    ensures
        r as int == wrapped_total(ascending(rounds(iterations))),
{
    let mut dll = DoublyLinkedList::new();
    let r = append_and_sum(&mut dll, iterations).unwrap();
    assert(Seq::<i32>::empty() + ascending(rounds(iterations)) =~= ascending(rounds(iterations)));
    r
}

/// Appends `0..iterations` to a fresh hand-managed list, takes the sum, then
/// releases every node.
pub fn run_rust_unsafe(iterations: i32) -> (r: i32)
    ensures
        r as int == wrapped_total(ascending(rounds(iterations))),
{
    let mut dll = UnsafeDll::new();
    let s = append_and_sum(&mut dll, iterations).unwrap();
    assert(Seq::<i32>::empty() + ascending(rounds(iterations)) =~= ascending(rounds(iterations)));
    dll.cleanup();
    s
}

/// Appends `0..iterations` to a list in a fresh 64 MiB arena and returns the
/// sum; refused when the arena cannot hold that many nodes.
pub fn run_rust_bump(iterations: i32) -> (r: Result<i32, SequenceError>)
    ensures
        r is Ok <==> rounds(iterations) <= DEFAULT_ARENA_BYTES / NODE_BYTES,
        r is Ok ==> r.unwrap() as int == wrapped_total(ascending(rounds(iterations))),
        r is Err ==> r == Err::<i32, SequenceError>(SequenceError::CapacityExceeded),
{
    let mut dll = BumpDll::new(BumpArena::new(DEFAULT_ARENA_BYTES));
    let r = append_and_sum(&mut dll, iterations);
    assert(Seq::<i32>::empty() + ascending(rounds(iterations)) =~= ascending(rounds(iterations)));
    r
}

/// Appends `0..iterations` to a fresh zipper whose buffers are reserved up
/// front, and returns the sum.
pub fn run_rust_zipper(iterations: i32) -> (r: i32)
    ensures
        r as int == wrapped_total(ascending(rounds(iterations))),
{
    let reserve: usize = if iterations < 0 { 0 } else { iterations as usize };
    let mut list = ZipperList::new(reserve);
    let r = append_and_sum(&mut list, iterations).unwrap();
    assert(Seq::<i32>::empty() + ascending(rounds(iterations)) =~= ascending(rounds(iterations)));
    r
}

} // verus!
