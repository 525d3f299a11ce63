use vstd::prelude::*;
use vstd::arithmetic::div_mod::{lemma_fundamental_div_mod, lemma_mod_multiples_vanish};

verus! {

/// 2^32: the number of distinct `i32` values.
pub open spec fn i32_range() -> int {
    0x1_0000_0000
}

/// `x` reduced into the `i32` range the way two's-complement addition does.
pub open spec fn wrap_i32(x: int) -> int {
    (x + 0x8000_0000) % i32_range() - 0x8000_0000
}

/// The mathematical sum of the elements, without any overflow.
pub open spec fn total(s: Seq<i32>) -> int
    decreases s.len(),
{
    if s.len() == 0 {
        0
    } else {
        total(s.drop_last()) + s.last() as int
    }
}

/// The value that `sum()` reports: the total with 32-bit wrap-around.
pub open spec fn wrapped_total(s: Seq<i32>) -> int {
    wrap_i32(total(s))
}

/// The sequence after a positional insert under the clamping policy:
/// an index at or past the end appends.
pub open spec fn insert_clamped(s: Seq<i32>, index: int, value: i32) -> Seq<i32> {
    if 0 <= index < s.len() {
        s.insert(index, value)
    } else {
        s.push(value)
    }
}

/// `0, 1, ..., n - 1` as `i32` values.
pub open spec fn ascending(n: nat) -> Seq<i32> {
    Seq::new(n, |i: int| i as i32)
}

pub proof fn lemma_wrap_in_range(x: int)
    ensures
        i32::MIN <= wrap_i32(x) <= i32::MAX,
        i32::MIN <= x <= i32::MAX ==> wrap_i32(x) == x,
{
}

pub proof fn lemma_wrap_add(a: int, b: int)
    ensures
        wrap_i32(wrap_i32(a) + b) == wrap_i32(a + b),
        wrap_i32(a + wrap_i32(b)) == wrap_i32(a + b),
{
    lemma_wrap_shift(a, b);
    lemma_wrap_shift(b, a);
}

proof fn lemma_wrap_shift(a: int, b: int)
    ensures
        wrap_i32(wrap_i32(a) + b) == wrap_i32(a + b),
{
    let m = i32_range();
    let h: int = 0x8000_0000;
    let q = (a + h) / m;
    lemma_fundamental_div_mod(a + h, m);
    assert(wrap_i32(a) + b + h == m * (-q) + (a + b + h)) by (nonlinear_arith)
        requires
            a + h == m * q + (a + h) % m,
            wrap_i32(a) == (a + h) % m - h,
    ;
    lemma_mod_multiples_vanish(-q, a + b + h, m);
}

/// `wrapping_add` on `i32` values wraps their exact sum.
pub proof fn lemma_wrapping_add_is_wrap(x: i32, y: i32)
    ensures
        x.wrapping_add(y) as int == wrap_i32(x as int + y as int),
{
    let s = x as int + y as int;
    if s > i32::MAX {
        assert((s + 0x8000_0000) % i32_range() == s + 0x8000_0000 - i32_range());
    } else if s < i32::MIN {
        assert((s + 0x8000_0000) % i32_range() == s + 0x8000_0000 + i32_range());
    } else {
        assert((s + 0x8000_0000) % i32_range() == s + 0x8000_0000);
    }
}

pub proof fn lemma_total_push(s: Seq<i32>, v: i32)
    ensures
        total(s.push(v)) == total(s) + v,
{
    assert(s.push(v).drop_last() =~= s);
}

pub proof fn lemma_total_concat(a: Seq<i32>, b: Seq<i32>)
    ensures
        total(a + b) == total(a) + total(b),
    decreases b.len(),
{
    if b.len() == 0 {
        assert(a + b =~= a);
    } else {
        assert((a + b).drop_last() =~= a + b.drop_last());
        lemma_total_concat(a, b.drop_last());
    }
}

pub proof fn lemma_total_reverse(s: Seq<i32>)
    ensures
        total(s.reverse()) == total(s),
    decreases s.len(),
{
    if s.len() > 0 {
        let t = s.drop_last();
        assert(s.reverse() =~= seq![s.last()] + t.reverse());
        assert(seq![s.last()] =~= Seq::<i32>::empty().push(s.last()));
        lemma_total_push(Seq::<i32>::empty(), s.last());
        lemma_total_reverse(t);
        lemma_total_concat(seq![s.last()], t.reverse());
    }
}

pub proof fn lemma_total_insert(s: Seq<i32>, i: int, v: i32)
    requires
        0 <= i <= s.len(),
    ensures
        total(s.insert(i, v)) == total(s) + v,
{
    assert(s.insert(i, v) =~= s.subrange(0, i).push(v) + s.subrange(i, s.len() as int));
    assert(s =~= s.subrange(0, i) + s.subrange(i, s.len() as int));
    lemma_total_concat(s.subrange(0, i).push(v), s.subrange(i, s.len() as int));
    lemma_total_concat(s.subrange(0, i), s.subrange(i, s.len() as int));
    lemma_total_push(s.subrange(0, i), v);
}

} // verus!
