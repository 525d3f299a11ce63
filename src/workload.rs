use vstd::prelude::*;
use crate::model::{ascending, insert_clamped, wrapped_total};
use crate::sequence::{IntSequence, SequenceError};

verus! {

/// Seed used by every benchmark workload, so that all backends see the same
/// index stream.
pub const REFERENCE_SEED: u32 = 123456789;

/// One step of the generator's linear congruential recurrence, kept to 31 bits.
pub open spec fn lcg_next(seed: int) -> int {
    (seed * 1103515245 + 12345) % 0x8000_0000
}

/// The seed after `k` steps from `seed`.
pub open spec fn seed_after(seed: int, k: nat) -> int
    decreases k,
{
    if k == 0 {
        seed
    } else {
        lcg_next(seed_after(seed, (k - 1) as nat))
    }
}

/// The index drawn from `seed` for a sequence of length `len`.
pub open spec fn pick_index(seed: int, len: int) -> int {
    if len == 0 {
        0
    } else {
        seed % len
    }
}

/// The sequence after `n` rounds of the insert workload from `start`: round
/// `k` inserts the value `k` at the index drawn from the `k`-th seed for the
/// current length.
pub open spec fn insert_workload(seed: int, start: Seq<i32>, n: nat) -> Seq<i32>
    decreases n,
{
    if n == 0 {
        start
    } else {
        let prev = insert_workload(seed, start, (n - 1) as nat);
        insert_clamped(
            prev,
            pick_index(seed_after(seed, (n - 1) as nat), prev.len() as int),
            (n - 1) as i32,
        )
    }
}

/// Rounds a signed iteration count up to zero.
pub open spec fn rounds(iterations: i32) -> nat {
    if iterations < 0 {
        0
    } else {
        iterations as nat
    }
}

/// A deterministic stream of insert positions. The same seed and the same
/// sequence of lengths always give the same indices.
pub struct WorkloadGenerator {
    seed: u64,
}

impl WorkloadGenerator {
    pub closed spec fn seed(&self) -> int {
        self.seed as int
    }

    pub closed spec fn wf(&self) -> bool {
        self.seed < 0x1_0000_0000
    }

    pub fn new(seed: u32) -> (r: Self)
        ensures
            r.wf(),
            r.seed() == seed,
    {
        WorkloadGenerator { seed: seed as u64 }
    }

    /// The next index for a sequence of `current_len` elements: `0` when it
    /// is empty, else the current seed modulo the length. The seed then
    /// advances one step.
    pub fn next(&mut self, current_len: usize) -> (r: usize)
        requires
            old(self).wf(),
        ensures
            final(self).wf(),
            r == pick_index(old(self).seed(), current_len as int),
            final(self).seed() == lcg_next(old(self).seed()),
            current_len > 0 ==> r < current_len,
    {
        let index: usize = if current_len == 0 {
            0
        } else {
            (self.seed % (current_len as u64)) as usize
        };
        let s = self.seed;
        assert(s * 1103515245 + 12345 < 0x8000_0000_0000_0000) by (nonlinear_arith)
            requires
                s < 0x1_0000_0000,
        ;
        let t: u64 = s * 1103515245 + 12345;
        let masked: u64 = t & 0x7fff_ffff;
        assert(masked == t % 0x8000_0000) by (bit_vector)
            requires
                masked == t & 0x7fff_ffff,
        ;
        self.seed = masked;
        index
    }
}

/// Runs the insert workload: `iterations` rounds, round `k` inserting `k` at
/// the index the generator draws for the sequence's current length. Stops at
/// the first refused insert.
pub fn run_insert_workload<S: IntSequence>(seq: &mut S, seed: u32, iterations: i32) -> (r: Result<
    (),
    SequenceError,
>)
    requires
        old(seq).wf(),
    ensures
        final(seq).wf(),
        r is Ok <==> old(seq).room() >= rounds(iterations),
        r is Ok ==> final(seq).elements() == insert_workload(
            seed as int,
            old(seq).elements(),
            rounds(iterations),
        ),
        r is Err ==> r == Err::<(), SequenceError>(SequenceError::CapacityExceeded)
            && final(seq).elements() == insert_workload(
            seed as int,
            old(seq).elements(),
            old(seq).room(),
        ),
{
    let ghost start = seq.elements();
    let mut generator = WorkloadGenerator::new(seed);
    let mut i: i32 = 0;
    while i < iterations
        invariant
            seq.wf(),
            generator.wf(),
            0 <= i,
            i as nat <= rounds(iterations),
            i as nat <= old(seq).room(),
            seq.room() == old(seq).room() - i,
            generator.seed() == seed_after(seed as int, i as nat),
            seq.elements() == insert_workload(seed as int, start, i as nat),
            start == old(seq).elements(),
        decreases iterations - i,
    {
        let len = seq.len();
        let index = generator.next(len);
        match seq.insert(index, i) {
            Ok(()) => {},
            Err(e) => {
                return Err(e);
            },
        }
        i += 1;
    }
    Ok(())
}

/// Appends `0, 1, ..., iterations - 1` in order, then returns the sum. Stops
/// at the first refused append.
pub fn append_and_sum<S: IntSequence>(seq: &mut S, iterations: i32) -> (r: Result<
    i32,
    SequenceError,
>)
    requires
        old(seq).wf(),
    ensures
        final(seq).wf(),
        r is Ok <==> old(seq).room() >= rounds(iterations),
        r is Ok ==> final(seq).elements() == old(seq).elements() + ascending(rounds(iterations))
            && r.unwrap() as int == wrapped_total(final(seq).elements()),
        r is Err ==> r == Err::<i32, SequenceError>(SequenceError::CapacityExceeded)
            && final(seq).elements() == old(seq).elements() + ascending(old(seq).room()),
{
    let ghost start = seq.elements();
    let mut i: i32 = 0;
    while i < iterations
        invariant
            seq.wf(),
            0 <= i,
            i as nat <= rounds(iterations),
            i as nat <= old(seq).room(),
            seq.room() == old(seq).room() - i,
            seq.elements() == start + ascending(i as nat),
            start == old(seq).elements(),
        decreases iterations - i,
    {
        match seq.append(i) {
            Ok(()) => {},
            Err(e) => {
                return Err(e);
            },
        }
        assert(start + ascending((i + 1) as nat) =~= (start + ascending(i as nat)).push(i));
        i += 1;
    }
    Ok(seq.sum())
}

} // verus!
