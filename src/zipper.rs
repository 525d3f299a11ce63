use vstd::prelude::*;
use crate::model::{
    lemma_total_concat, lemma_total_reverse, lemma_wrap_add, lemma_wrapping_add_is_wrap, total,
    wrap_i32, wrapped_total,
};
use crate::sequence::{IntSequence, SequenceError};

verus! {

/// Where the cursor lands before the pushed value: at `index`, or at the end
/// when `index` is past it.
pub open spec fn cursor_after(len: nat, index: usize) -> nat {
    if (index as nat) < len {
        index as nat
    } else {
        len
    }
}

/// `s.push(x)` read backwards starts with `x`.
proof fn lemma_reverse_push(s: Seq<i32>, x: i32)
    ensures
        s.push(x).reverse() == seq![x] + s.reverse(),
{
    assert(s.push(x).reverse() =~= seq![x] + s.reverse());
}

proof fn lemma_reverse_concat(a: Seq<i32>, b: Seq<i32>)
    ensures
        (a + b).reverse() == b.reverse() + a.reverse(),
{
    assert((a + b).reverse() =~= b.reverse() + a.reverse());
}

proof fn lemma_reverse_reverse(s: Seq<i32>)
    ensures
        s.reverse().reverse() == s,
{
    assert(s.reverse().reverse() =~= s);
}

/// Pushing onto the left buffer inserts at the cursor.
proof fn lemma_insert_at_cursor(l: Seq<i32>, r: Seq<i32>, v: i32)
    ensures
        l.push(v) + r == (l + r).insert(l.len() as int, v),
{
    assert(l.push(v) + r =~= (l + r).insert(l.len() as int, v));
}

/// Wrapping sum of one buffer, in storage order.
fn buffer_sum(v: &Vec<i32>) -> (r: i32)
    ensures
        r as int == wrapped_total(v@),
{
    let mut acc: i32 = 0;
    let mut i: usize = 0;
    while i < v.len()
        invariant
            i <= v.len(),
            acc as int == wrap_i32(total(v@.subrange(0, i as int))),
        decreases v.len() - i,
    {
        proof {
            assert(v@.subrange(0, i + 1) =~= v@.subrange(0, i as int).push(v@[i as int]));
            assert(v@.subrange(0, i + 1).drop_last() =~= v@.subrange(0, i as int));
            lemma_wrapping_add_is_wrap(acc, v@[i as int]);
            lemma_wrap_add(total(v@.subrange(0, i as int)), v@[i as int] as int);
        }
        acc = acc.wrapping_add(v[i]);
        i += 1;
    }
    assert(v@.subrange(0, i as int) =~= v@);
    acc
}

/// The sum of both buffers of a zipper.
fn zipper_sum(left: &Vec<i32>, right: &Vec<i32>) -> (r: i32)
    ensures
        r as int == wrapped_total(left@ + right@.reverse()),
{
    let a = buffer_sum(left);
    let b = buffer_sum(right);
    proof {
        lemma_total_concat(left@, right@.reverse());
        lemma_total_reverse(right@);
        lemma_wrapping_add_is_wrap(a, b);
        lemma_wrap_add(total(left@), b as int);
        lemma_wrap_add(total(left@), total(right@));
    }
    a.wrapping_add(b)
}

/// The buffers read as one sequence: `left` in order, then `right` backwards.
fn zipper_to_vec(left: &Vec<i32>, right: &Vec<i32>) -> (r: Vec<i32>)
    ensures
        r@ == left@ + right@.reverse(),
{
    let mut out: Vec<i32> = Vec::new();
    let mut i: usize = 0;
    while i < left.len()
        invariant
            i <= left.len(),
            out@ == left@.subrange(0, i as int),
        decreases left.len() - i,
    {
        out.push(left[i]);
        i += 1;
        assert(out@ =~= left@.subrange(0, i as int));
    }
    let mut j: usize = right.len();
    while j > 0
        invariant
            j <= right.len(),
            out@ == left@ + right@.subrange(j as int, right.len() as int).reverse(),
        decreases j,
    {
        j -= 1;
        out.push(right[j]);
        assert(out@ =~= left@ + right@.subrange(j as int, right.len() as int).reverse());
    }
    assert(right@.subrange(0, right.len() as int) =~= right@);
    out
}

/// A sequence kept as two stacks around a cursor: `left` holds the elements
/// before the cursor in order, `right` those after it with the one nearest the
/// cursor last. Elements cross the cursor one pop and push at a time.
pub struct ZipperList {
    left: Vec<i32>,
    right: Vec<i32>,
}

impl ZipperList {
    /// An empty zipper whose buffers are reserved for `capacity` elements each.
    pub fn new(capacity: usize) -> (r: Self)
        ensures
            r.wf(),
            r.elements() == Seq::<i32>::empty(),
            r.cursor() == 0,
            r.room() == usize::MAX as nat,
    {
        let r = ZipperList { left: Vec::with_capacity(capacity), right: Vec::with_capacity(capacity) };
        assert(r.left@ + r.right@.reverse() =~= Seq::<i32>::empty());
        r
    }

    /// The cursor position: the number of elements before it.
    pub closed spec fn cursor(&self) -> nat {
        self.left@.len()
    }

    /// The two buffers: elements before the cursor in order, and elements
    /// after it with the one nearest the cursor last.
    pub closed spec fn buffers(&self) -> (Seq<i32>, Seq<i32>) {
        (self.left@, self.right@)
    }

    /// The buffers are fixed by the elements and the cursor, so two zippers
    /// with equal elements and cursors hold equal buffers.
    pub proof fn lemma_buffers(&self)
        ensures
            self.cursor() <= self.elements().len(),
            self.buffers().0 == self.elements().subrange(0, self.cursor() as int),
            self.buffers().1 == self.elements().subrange(
                self.cursor() as int,
                self.elements().len() as int,
            ).reverse(),
    {
        let e = self.elements();
        assert(self.left@ =~= e.subrange(0, self.cursor() as int));
        lemma_reverse_reverse(self.right@);
        assert(self.right@.reverse() =~= e.subrange(self.cursor() as int, e.len() as int));
    }

    /// The cursor position.
    pub fn position(&self) -> (r: usize)
        ensures
            r == self.cursor(),
    {
        self.left.len()
    }

    /// Moves the cursor one place towards the head, if it is not there yet.
    pub fn move_left(&mut self)
        requires
            old(self).wf(),
        ensures
            final(self).wf(),
            final(self).elements() == old(self).elements(),
            final(self).room() == old(self).room(),
            final(self).cursor() == if old(self).cursor() > 0 {
                old(self).cursor() - 1
            } else {
                0
            },
    {
        if let Some(val) = self.left.pop() {
            proof {
                lemma_reverse_push(old(self).right@, val);
                assert(old(self).left@ =~= self.left@.push(val));
                assert(self.left@ + seq![val] + old(self).right@.reverse() =~= self.left@.push(val)
                    + old(self).right@.reverse());
            }
            self.right.push(val);
        }
    }

    /// Moves the cursor one place towards the tail, if it is not there yet.
    pub fn move_right(&mut self)
        requires
            old(self).wf(),
        ensures
            final(self).wf(),
            final(self).elements() == old(self).elements(),
            final(self).room() == old(self).room(),
            final(self).cursor() == if old(self).cursor() < old(self).elements().len() {
                old(self).cursor() + 1
            } else {
                old(self).cursor()
            },
    {
        if let Some(val) = self.right.pop() {
            proof {
                lemma_reverse_push(self.right@, val);
                assert(old(self).right@ =~= self.right@.push(val));
                assert(old(self).left@ + (seq![val] + self.right@.reverse()) =~= old(self).left@.push(
                    val,
                ) + self.right@.reverse());
            }
            self.left.push(val);
        }
    }
}

impl IntSequence for ZipperList {
    closed spec fn elements(&self) -> Seq<i32> {
        self.left@ + self.right@.reverse()
    }

    closed spec fn wf(&self) -> bool {
        self.left@.len() + self.right@.len() <= usize::MAX
    }

    closed spec fn room(&self) -> nat {
        (usize::MAX - self.left@.len() - self.right@.len()) as nat
    }

    fn len(&self) -> (r: usize) {
        self.left.len() + self.right.len()
    }

    /// Moves the cursor to the tail (a no-op when it is already there, as in
    /// a pure append workload) and pushes onto `left`.
    fn append(&mut self, value: i32) -> (r: Result<(), SequenceError>)
        ensures
            r is Ok ==> final(self).cursor() == final(self).elements().len(),
    {
        let n = self.left.len() + self.right.len();
        self.insert(n, value)
    }

    fn insert(&mut self, index: usize, value: i32) -> (r: Result<(), SequenceError>)
        ensures
            r is Ok ==> final(self).cursor() == cursor_after(old(self).elements().len(), index) + 1,
    {
        if self.left.len() + self.right.len() == usize::MAX {
            return Err(SequenceError::CapacityExceeded);
        }
        let ghost before = self.elements();
        let ghost n = before.len();
        if index < self.left.len() {
            while self.left.len() > index
                invariant
                    self.wf(),
                    self.elements() == before,
                    index <= self.left@.len(),
                    self.left@.len() + self.right@.len() < usize::MAX,
                decreases self.left@.len(),
            {
                self.move_left();
            }
        } else {
            let mut k: usize = index - self.left.len();
            while k > 0 && self.right.len() > 0
                invariant
                    self.wf(),
                    self.elements() == before,
                    self.left@.len() + self.right@.len() < usize::MAX,
                    self.right@.len() == 0 || self.left@.len() + k == index,
                    index >= self.left@.len(),
                decreases k,
            {
                self.move_right();
                k -= 1;
            }
        }
        proof {
            lemma_insert_at_cursor(self.left@, self.right@.reverse(), value);
            if index as int >= n {
                assert(self.left@.len() == n);
                assert(before.insert(n as int, value) =~= before.push(value));
            }
        }
        self.left.push(value);
        Ok(())
    }

    fn sum(&self) -> (r: i32) {
        zipper_sum(&self.left, &self.right)
    }

    fn to_vec(&self) -> (r: Vec<i32>) {
        zipper_to_vec(&self.left, &self.right)
    }

    fn teardown(&mut self) {
        self.left.clear();
        self.right.clear();
        assert(self.left@ + self.right@.reverse() =~= Seq::<i32>::empty());
    }
}

/// Moves the top `count` elements of `src` onto `dst` as one block: the
/// destination is written front to back while the source is read back to
/// front, so the block arrives reversed, then the source is cut short.
fn transfer_block(src: &mut Vec<i32>, dst: &mut Vec<i32>, count: usize)
    requires
        count <= old(src)@.len(),
    ensures
        final(src)@ == old(src)@.subrange(0, old(src)@.len() - count),
        final(dst)@ == old(dst)@ + old(src)@.subrange(
            old(src)@.len() - count,
            old(src)@.len() as int,
        ).reverse(),
{
    let n = src.len();
    let start = n - count;
    let mut i: usize = 0;
    while i < count
        invariant
            n == src@.len(),
            start == n - count,
            i <= count,
            src@ == old(src)@,
            dst@ == old(dst)@ + src@.subrange(n - i, n as int).reverse(),
        decreases count - i,
    {
        dst.push(src[n - 1 - i]);
        i += 1;
        assert(dst@ =~= old(dst)@ + src@.subrange(n - i, n as int).reverse());
    }
    src.truncate(start);
}

/// The zipper representation with block transfers across the cursor instead
/// of one pop and push per element. Observably the same as [`ZipperList`].
pub struct BulkZipperList {
    left: Vec<i32>,
    right: Vec<i32>,
}

impl BulkZipperList {
    /// The cursor position: the number of elements before it.
    pub closed spec fn cursor(&self) -> nat {
        self.left@.len()
    }

    /// The two buffers: elements before the cursor in order, and elements
    /// after it with the one nearest the cursor last.
    pub closed spec fn buffers(&self) -> (Seq<i32>, Seq<i32>) {
        (self.left@, self.right@)
    }

    /// The buffers are fixed by the elements and the cursor, so two zippers
    /// with equal elements and cursors hold equal buffers.
    pub proof fn lemma_buffers(&self)
        ensures
            self.cursor() <= self.elements().len(),
            self.buffers().0 == self.elements().subrange(0, self.cursor() as int),
            self.buffers().1 == self.elements().subrange(
                self.cursor() as int,
                self.elements().len() as int,
            ).reverse(),
    {
        let e = self.elements();
        assert(self.left@ =~= e.subrange(0, self.cursor() as int));
        lemma_reverse_reverse(self.right@);
        assert(self.right@.reverse() =~= e.subrange(self.cursor() as int, e.len() as int));
    }

    /// The cursor position.
    pub fn position(&self) -> (r: usize)
        ensures
            r == self.cursor(),
    {
        self.left.len()
    }

    /// An empty zipper whose buffers are reserved for `capacity` elements each.
    pub fn new(capacity: usize) -> (r: Self)
        ensures
            r.wf(),
            r.elements() == Seq::<i32>::empty(),
            r.cursor() == 0,
            r.room() == usize::MAX as nat,
    {
        let r = BulkZipperList {
            left: Vec::with_capacity(capacity),
            right: Vec::with_capacity(capacity),
        };
        assert(r.left@ + r.right@.reverse() =~= Seq::<i32>::empty());
        r
    }
}

impl IntSequence for BulkZipperList {
    closed spec fn elements(&self) -> Seq<i32> {
        self.left@ + self.right@.reverse()
    }

    closed spec fn wf(&self) -> bool {
        self.left@.len() + self.right@.len() <= usize::MAX
    }

    closed spec fn room(&self) -> nat {
        (usize::MAX - self.left@.len() - self.right@.len()) as nat
    }

    fn len(&self) -> (r: usize) {
        self.left.len() + self.right.len()
    }

    fn append(&mut self, value: i32) -> (r: Result<(), SequenceError>)
        ensures
            r is Ok ==> final(self).cursor() == final(self).elements().len(),
    {
        let n = self.left.len() + self.right.len();
        self.insert(n, value)
    }

    fn insert(&mut self, index: usize, value: i32) -> (r: Result<(), SequenceError>)
        ensures
            r is Ok ==> final(self).cursor() == cursor_after(old(self).elements().len(), index) + 1,
    {
        let left_len = self.left.len();
        let right_len = self.right.len();
        if left_len + right_len == usize::MAX {
            return Err(SequenceError::CapacityExceeded);
        }
        let ghost l = self.left@;
        let ghost r = self.right@;
        let ghost before = self.elements();
        if index < left_len {
            transfer_block(&mut self.left, &mut self.right, left_len - index);
            proof {
                let a = l.subrange(0, index as int);
                let b = l.subrange(index as int, left_len as int);
                assert(l =~= a + b);
                lemma_reverse_concat(r, b.reverse());
                lemma_reverse_reverse(b);
                assert(self.left@ + self.right@.reverse() =~= l + r.reverse());
            }
        } else if index > left_len {
            let count = index - left_len;
            let move_count = if count > right_len { right_len } else { count };
            transfer_block(&mut self.right, &mut self.left, move_count);
            proof {
                let a = r.subrange(0, right_len - move_count);
                let b = r.subrange(right_len - move_count, right_len as int);
                assert(r =~= a + b);
                lemma_reverse_concat(a, b);
                assert(self.left@ + self.right@.reverse() =~= l + r.reverse());
            }
        }
        proof {
            lemma_insert_at_cursor(self.left@, self.right@.reverse(), value);
            if index as int >= before.len() {
                assert(self.left@.len() == before.len());
                assert(before.insert(before.len() as int, value) =~= before.push(value));
            }
        }
        self.left.push(value);
        Ok(())
    }

    fn sum(&self) -> (r: i32) {
        zipper_sum(&self.left, &self.right)
    }

    fn to_vec(&self) -> (r: Vec<i32>) {
        zipper_to_vec(&self.left, &self.right)
    }

    fn teardown(&mut self) {
        self.left.clear();
        self.right.clear();
        assert(self.left@ + self.right@.reverse() =~= Seq::<i32>::empty());
    }
}

/// The two zipper variants differ only in how elements cross the cursor:
/// with the same elements and the same cursor they hold the same buffers.
/// Their inserts and appends fix both, so the same operations leave them with
/// identical buffers.
pub proof fn lemma_zippers_agree(z: &ZipperList, b: &BulkZipperList)
    requires
        z.elements() == b.elements(),
        z.cursor() == b.cursor(),
    ensures
        z.buffers() == b.buffers(),
{
    z.lemma_buffers();
    b.lemma_buffers();
}

} // verus!
