//! Five interchangeable backends for an ordered sequence of `i32` values,
//! each with its own way of owning memory, and the deterministic workload
//! that drives them all alike.
//!
//! Every backend implements [`IntSequence`], whose contracts fix the
//! elements after each operation exactly, so any two backends fed the same
//! operations hold the same elements in the same order.
pub mod bump_list;
pub mod laws;
mod links;
pub mod manual_list;
pub mod model;
pub mod rc_list;
pub mod runs;
pub mod sequence;
pub mod workload;
pub mod zipper;

pub use bump_list::{BumpArena, BumpDll, DEFAULT_ARENA_BYTES, NODE_BYTES};
pub use manual_list::UnsafeDll;
pub use rc_list::DoublyLinkedList;
pub use runs::{run_rust_bump, run_rust_dll, run_rust_unsafe, run_rust_zipper};
pub use sequence::{IntSequence, SequenceError};
pub use workload::{append_and_sum, run_insert_workload, WorkloadGenerator, REFERENCE_SEED};
pub use zipper::{BulkZipperList, ZipperList};
