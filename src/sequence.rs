use vstd::prelude::*;
use crate::model::{insert_clamped, wrapped_total};

verus! {

/// Why an operation on a sequence was refused. A refused operation leaves
/// the sequence as it was.
#[derive(Clone, Copy, Debug, PartialEq, Eq, Structural)]
pub enum SequenceError {
    /// No storage is left for another element.
    CapacityExceeded,
    /// A checked insert named a position past the end.
    IndexOutOfRange,
}

/// The operation surface shared by every backend: an ordered sequence of
/// `i32` values that grows by appending and by positional inserts.
///
/// `elements()` is the sequence in order, head first. `room()` is how many
/// more elements fit: the rest of a bounded arena, or the rest of the address
/// space for a heap-backed structure.
pub trait IntSequence: Sized {
    spec fn elements(&self) -> Seq<i32>;

    spec fn wf(&self) -> bool;

    spec fn room(&self) -> nat;

    /// The number of elements.
    fn len(&self) -> (r: usize)
        requires
            self.wf(),
        ensures
            r == self.elements().len(),
    ;

    /// Adds `value` at the end.
    fn append(&mut self, value: i32) -> (r: Result<(), SequenceError>)
        requires
            old(self).wf(),
        ensures
            final(self).wf(),
            r is Ok <==> old(self).room() > 0,
            r is Ok ==> final(self).elements() == old(self).elements().push(value)
                && final(self).room() == old(self).room() - 1,
            r is Err ==> r == Err::<(), SequenceError>(SequenceError::CapacityExceeded)
                && final(self).elements() == old(self).elements()
                && final(self).room() == old(self).room(),
    ;

    /// Inserts `value` so that it lands at position `index`; an index at or
    /// past the end appends.
    fn insert(&mut self, index: usize, value: i32) -> (r: Result<(), SequenceError>)
        requires
            old(self).wf(),
        ensures
            final(self).wf(),
            r is Ok <==> old(self).room() > 0,
            r is Ok ==> final(self).elements() == insert_clamped(
                old(self).elements(),
                index as int,
                value,
            ) && final(self).room() == old(self).room() - 1,
            r is Err ==> r == Err::<(), SequenceError>(SequenceError::CapacityExceeded)
                && final(self).elements() == old(self).elements()
                && final(self).room() == old(self).room(),
    ;

    /// The sum of all elements, wrapping on 32-bit overflow.
    fn sum(&self) -> (r: i32)
        requires
            self.wf(),
        ensures
            r as int == wrapped_total(self.elements()),
    ;

    /// The elements in order, head first.
    fn to_vec(&self) -> (r: Vec<i32>)
        requires
            self.wf(),
        ensures
            r@ == self.elements(),
    ;

    /// Releases every element; the sequence is empty afterwards and all of
    /// its storage is available again.
    fn teardown(&mut self)
        requires
            old(self).wf(),
        ensures
            final(self).wf(),
            final(self).elements() == Seq::<i32>::empty(),
            final(self).room() == old(self).room() + old(self).elements().len(),
    ;

    /// Inserts under the rejecting policy: an index up to the length inserts
    /// there (the length itself appends), a larger one is refused.
    fn insert_checked(&mut self, index: usize, value: i32) -> (r: Result<(), SequenceError>)
        requires
            old(self).wf(),
        ensures
            final(self).wf(),
            index > old(self).elements().len() ==> {
                &&& r == Err::<(), SequenceError>(SequenceError::IndexOutOfRange)
                &&& final(self).elements() == old(self).elements()
                &&& final(self).room() == old(self).room()
            },
            index <= old(self).elements().len() ==> {
                &&& r is Ok <==> old(self).room() > 0
                &&& r is Ok ==> final(self).elements() == old(self).elements().insert(
                    index as int,
                    value,
                ) && final(self).room() == old(self).room() - 1
                &&& r is Err ==> r == Err::<(), SequenceError>(SequenceError::CapacityExceeded)
                    && final(self).elements() == old(self).elements()
                    && final(self).room() == old(self).room()
            },
    {
        if index > self.len() {
            Err(SequenceError::IndexOutOfRange)
        } else {
            let ghost before = self.elements();
            let r = self.insert(index, value);
            assert(before.insert(before.len() as int, value) =~= before.push(value));
            r
        }
    }
}

} // verus!
