use vstd::prelude::*;
use crate::model::{
    ascending, insert_clamped, lemma_total_insert, lemma_total_push, lemma_wrap_in_range, total,
    wrapped_total,
};
use crate::sequence::IntSequence;
use crate::workload::{insert_workload, pick_index, rounds, seed_after};

verus! {

/// Appending `0, 1, ..., n - 1` to an empty sequence gives exactly those
/// values in that order, and their total is `n * (n - 1) / 2`; while that
/// fits in an `i32` it is also what `sum()` reports. (The values are `i32`,
/// so `n` is at most `2^31`.)
pub proof fn lemma_ascending_sum(n: nat)
    requires
        n <= i32::MAX + 1,
    ensures
        Seq::<i32>::empty() + ascending(n) == ascending(n),
        total(ascending(n)) == n * (n - 1) / 2,
        n * (n - 1) / 2 <= i32::MAX ==> wrapped_total(ascending(n)) == n * (n - 1) / 2,
    decreases n,
{
    assert(Seq::<i32>::empty() + ascending(n) =~= ascending(n));
    if n > 0 {
        let m = (n - 1) as nat;
        lemma_ascending_sum(m);
        assert(ascending(n) =~= ascending(m).push(m as i32));
        lemma_total_push(ascending(m), m as i32);
        assert(n * (n - 1) / 2 == m * (m - 1) / 2 + m) by (nonlinear_arith)
            requires
                m == n - 1,
                n > 0,
        ;
    }
    if n * (n - 1) / 2 <= i32::MAX {
        assert(0 <= n * (n - 1) / 2) by (nonlinear_arith);
        lemma_wrap_in_range(n * (n - 1) / 2);
    }
}

/// An empty sequence sums to zero.
pub proof fn lemma_empty_sum()
    ensures
        wrapped_total(Seq::<i32>::empty()) == 0,
{
    lemma_wrap_in_range(0);
}

/// Inserting at index 0 of a non-empty sequence puts the value first and
/// keeps every other element, in order, behind it.
pub proof fn lemma_insert_front(s: Seq<i32>, v: i32)
    requires
        s.len() > 0,
    ensures
        insert_clamped(s, 0, v)[0] == v,
        insert_clamped(s, 0, v).drop_first() == s,
        insert_clamped(s, 0, v).len() == s.len() + 1,
{
    assert(insert_clamped(s, 0, v).drop_first() =~= s);
}

/// Under the clamping policy, an insert at or past the end is an append.
pub proof fn lemma_insert_past_end(s: Seq<i32>, index: int, v: i32)
    requires
        index >= s.len(),
    ensures
        insert_clamped(s, index, v) == s.push(v),
{
}

/// Every round of the insert workload adds exactly one element, and the
/// element added in round `k` is `k`: after `n` rounds the sequence has grown
/// by `n` and its total by `0 + 1 + ... + (n - 1)`, wherever the inserts
/// landed.
pub proof fn lemma_insert_workload_total(seed: int, start: Seq<i32>, n: nat)
    requires
        n <= i32::MAX + 1,
    ensures
        insert_workload(seed, start, n).len() == start.len() + n,
        total(insert_workload(seed, start, n)) == total(start) + total(ascending(n)),
    decreases n,
{
    if n > 0 {
        let m = (n - 1) as nat;
        lemma_insert_workload_total(seed, start, m);
        let prev = insert_workload(seed, start, m);
        let i = pick_index(seed_after(seed, m), prev.len() as int);
        if 0 <= i < prev.len() {
            lemma_total_insert(prev, i, m as i32);
        } else {
            lemma_total_push(prev, m as i32);
        }
        assert(ascending(n) =~= ascending(m).push(m as i32));
        lemma_total_push(ascending(m), m as i32);
    }
}

/// Any two backends that start from the same elements and complete the
/// insert workload with the same seed and iteration count end with the same
/// elements in the same order, and so report the same sum.
pub proof fn lemma_backends_agree<A: IntSequence, B: IntSequence>(
    a_before: A,
    a_after: A,
    b_before: B,
    b_after: B,
    seed: u32,
    iterations: i32,
)
    requires
        a_before.elements() == b_before.elements(),
        a_after.elements() == insert_workload(
            seed as int,
            a_before.elements(),
            rounds(iterations),
        ),
        b_after.elements() == insert_workload(
            seed as int,
            b_before.elements(),
            rounds(iterations),
        ),
    ensures
        a_after.elements() == b_after.elements(),
        wrapped_total(a_after.elements()) == wrapped_total(b_after.elements()),
{
}

} // verus!
