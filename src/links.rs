use vstd::prelude::*;
use crate::model::{lemma_wrap_add, lemma_wrapping_add_is_wrap, total, wrap_i32, wrapped_total};

verus! {

/// One node of a doubly linked sequence. Links are slot numbers in the node
/// store that the owning backend manages: `next` is the forward link, `prev`
/// a back-reference that owns nothing and is only ever looked up.
#[derive(Clone, Copy)]
pub struct Node {
    pub value: i32,
    pub next: Option<usize>,
    pub prev: Option<usize>,
}

impl Node {
    /// A node holding `value` with neither neighbour.
    pub fn detached(value: i32) -> (r: Node)
        ensures
            r.value == value,
            r.next.is_none(),
            r.prev.is_none(),
    {
        Node { value, next: None, prev: None }
    }
}

/// Head, tail and length of a doubly linked sequence whose nodes live in a
/// separate store. The ghost `order` lists the slots of the linked nodes,
/// head first; slots outside it belong to the store alone.
pub struct Links {
    head: Option<usize>,
    tail: Option<usize>,
    len: usize,
    order: Ghost<Seq<usize>>,
}

impl Links {
    /// Slots of the linked nodes, head first.
    pub closed spec fn order(&self) -> Seq<usize> {
        self.order@
    }

    closed spec fn next_of(&self, k: int) -> Option<usize> {
        if k + 1 < self.order@.len() {
            Some(self.order@[k + 1])
        } else {
            None
        }
    }

    closed spec fn prev_of(&self, k: int) -> Option<usize> {
        if k == 0 {
            None
        } else {
            Some(self.order@[k - 1])
        }
    }

    /// The node at position `k` is in the store and linked to its neighbours
    /// in both directions.
    closed spec fn linked_at(&self, nodes: Seq<Node>, k: int) -> bool {
        &&& self.order@[k] < nodes.len()
        &&& nodes[self.order@[k] as int].next == self.next_of(k)
        &&& nodes[self.order@[k] as int].prev == self.prev_of(k)
    }

    pub closed spec fn wf(&self, nodes: Seq<Node>) -> bool {
        &&& self.len == self.order@.len()
        &&& self.order@.no_duplicates()
        &&& forall|k: int| 0 <= k < self.order@.len() ==> #[trigger] self.linked_at(nodes, k)
        &&& self.head == if self.len == 0 {
            None::<usize>
        } else {
            Some(self.order@[0])
        }
        &&& self.tail == if self.len == 0 {
            None::<usize>
        } else {
            Some(self.order@[self.len - 1])
        }
    }

    /// The values of the linked nodes, head first.
    pub open spec fn values(&self, nodes: Seq<Node>) -> Seq<i32> {
        Seq::new(self.order().len(), |k: int| nodes[self.order()[k] as int].value)
    }

    pub fn new() -> (r: Links)
        ensures
            r.order() == Seq::<usize>::empty(),
            forall|nodes: Seq<Node>| r.wf(nodes),
    {
        Links { head: None, tail: None, len: 0, order: Ghost(Seq::empty()) }
    }

    pub fn len(&self, Ghost(nodes): Ghost<Seq<Node>>) -> (r: usize)
        requires
            self.wf(nodes),
        ensures
            r == self.order().len(),
    {
        self.len
    }

    /// Changing nodes that are not linked changes neither the shape nor the
    /// values of the sequence.
    pub proof fn lemma_frame(&self, n1: Seq<Node>, n2: Seq<Node>)
        requires
            self.wf(n1),
            n1.len() <= n2.len(),
            forall|k: int|
                0 <= k < self.order().len() ==> n2[#[trigger] self.order()[k] as int] == n1[self.order()[k] as int],
        ensures
            self.wf(n2),
            self.values(n2) == self.values(n1),
    {
        assert forall|k: int| 0 <= k < self.order@.len() implies #[trigger] self.linked_at(n2, k) by {
            assert(self.linked_at(n1, k));
            assert(n2[self.order()[k] as int] == n1[self.order()[k] as int]);
        }
        assert forall|k: int| 0 <= k < self.order@.len() implies n2[self.order@[k] as int].value
            == n1[self.order@[k] as int].value by {
            assert(n2[self.order()[k] as int] == n1[self.order()[k] as int]);
        }
        assert(self.values(n2) =~= self.values(n1));
    }

    /// Links the unlinked node in `slot` after the tail.
    pub fn link_back(&mut self, nodes: &mut Vec<Node>, slot: usize)
        requires
            old(self).wf(old(nodes)@),
            slot < old(nodes)@.len(),
            !old(self).order().contains(slot),
            old(self).order().len() < usize::MAX,
        ensures
            final(self).wf(final(nodes)@),
            final(self).order() == old(self).order().push(slot),
            final(self).values(final(nodes)@) == old(self).values(old(nodes)@).push(
                old(nodes)@[slot as int].value,
            ),
            final(nodes)@.len() == old(nodes)@.len(),
            forall|j: int|
                0 <= j < old(nodes)@.len() ==> #[trigger] final(nodes)@[j].value == old(nodes)@[j].value,
    {
        let ghost o = self.order@;
        let ghost n0 = nodes@;
        let ghost n = o.len() as int;
        match self.tail {
            Some(t) => {
                proof {
                    assert(self.linked_at(n0, n - 1));
                }
                nodes[t].next = Some(slot);
                nodes[slot].prev = Some(t);
                nodes[slot].next = None;
            },
            None => {
                nodes[slot].prev = None;
                nodes[slot].next = None;
                self.head = Some(slot);
            },
        }
        self.tail = Some(slot);
        self.len = self.len + 1;
        self.order = Ghost(o.push(slot));
        proof {
            assert forall|k: int| 0 <= k < self.order@.len() implies #[trigger] self.linked_at(
                nodes@,
                k,
            ) by {
                if k < n {
                    assert(o[k] != slot);
                    assert(o.push(slot)[k] == o[k]);
                }
                if k < n - 1 {
                    assert(old(self).linked_at(n0, k));
                    assert(o[k] != o[n - 1]);
                }
            }
            assert forall|i: int, j: int|
                0 <= i < self.order@.len() && 0 <= j < self.order@.len() && i != j implies self.order@[i]
                != self.order@[j] by {
                if i < n && j < n {
                    assert(o[i] != o[j]);
                } else if i < n {
                    assert(o.contains(o[i]));
                } else if j < n {
                    assert(o.contains(o[j]));
                }
            }
            assert(self.values(nodes@) =~= old(self).values(n0).push(n0[slot as int].value)) by {
                assert forall|k: int| 0 <= k < n implies nodes@[o[k] as int].value == n0[o[k] as int].value by {
                    assert(old(self).linked_at(n0, k));
                }
            }
        }
    }

    /// Links the unlinked node in `slot` just before the node in slot `at`,
    /// which stands at position `pos`.
    pub fn link_before(&mut self, nodes: &mut Vec<Node>, at: usize, Ghost(pos): Ghost<int>, slot: usize)
        requires
            old(self).wf(old(nodes)@),
            0 <= pos < old(self).order().len(),
            old(self).order()[pos] == at,
            slot < old(nodes)@.len(),
            !old(self).order().contains(slot),
            old(self).order().len() < usize::MAX,
        ensures
            final(self).wf(final(nodes)@),
            final(self).order() == old(self).order().insert(pos, slot),
            final(self).values(final(nodes)@) == old(self).values(old(nodes)@).insert(
                pos,
                old(nodes)@[slot as int].value,
            ),
            final(nodes)@.len() == old(nodes)@.len(),
            forall|j: int|
                0 <= j < old(nodes)@.len() ==> #[trigger] final(nodes)@[j].value == old(nodes)@[j].value,
    {
        let ghost o = self.order@;
        let ghost n0 = nodes@;
        let ghost n = o.len() as int;
        proof {
            assert(self.linked_at(n0, pos));
            if pos > 0 {
                assert(self.linked_at(n0, pos - 1));
            }
        }
        let prev = nodes[at].prev;
        nodes[slot].next = Some(at);
        nodes[slot].prev = prev;
        nodes[at].prev = Some(slot);
        match prev {
            Some(p) => {
                nodes[p].next = Some(slot);
            },
            None => {
                self.head = Some(slot);
            },
        }
        self.len = self.len + 1;
        let ghost o2 = o.insert(pos, slot);
        self.order = Ghost(o2);
        proof {
            assert forall|k: int| 0 <= k < o2.len() implies #[trigger] self.linked_at(nodes@, k) by {
                if k < pos {
                    assert(o2[k] == o[k]);
                    assert(o[k] != slot);
                    assert(o[k] != at);
                    assert(old(self).linked_at(n0, k));
                    if k < pos - 1 {
                        assert(o[k] != o[pos - 1]);
                    }
                } else if k > pos {
                    assert(o2[k] == o[k - 1]);
                    assert(o[k - 1] != slot);
                    assert(old(self).linked_at(n0, k - 1));
                    if k > pos + 1 {
                        assert(o[k - 1] != o[pos]);
                        if pos > 0 {
                            assert(o[k - 1] != o[pos - 1]);
                        }
                    } else if pos > 0 {
                        assert(o[pos] != o[pos - 1]);
                    }
                }
            }
            assert forall|i: int, j: int|
                0 <= i < o2.len() && 0 <= j < o2.len() && i != j implies o2[i] != o2[j] by {
                if i != pos && j != pos {
                    let ii = if i < pos { i } else { i - 1 };
                    let jj = if j < pos { j } else { j - 1 };
                    assert(o[ii] != o[jj]);
                } else if i != pos {
                    let ii = if i < pos { i } else { i - 1 };
                    assert(o.contains(o[ii]));
                } else {
                    let jj = if j < pos { j } else { j - 1 };
                    assert(o.contains(o[jj]));
                }
            }
            assert forall|k: int| 0 <= k < n implies nodes@[o[k] as int].value == n0[o[k] as int].value by {
                assert(old(self).linked_at(n0, k));
            }
            assert(self.values(nodes@) =~= old(self).values(n0).insert(pos, n0[slot as int].value));
        }
    }

    /// The slot of the node at position `index`, found by walking forward
    /// from the head; `None` once the walk runs off the end.
    pub fn slot_at(&self, nodes: &Vec<Node>, index: usize) -> (r: Option<usize>)
        requires
            self.wf(nodes@),
        ensures
            index < self.order().len() ==> r == Some(self.order()[index as int]),
            index >= self.order().len() ==> r is None,
    {
        let mut cur = self.head;
        let mut i: usize = 0;
        loop
            invariant
                self.wf(nodes@),
                i <= index,
                i <= self.order@.len(),
                cur == if i < self.order@.len() {
                    Some(self.order@[i as int])
                } else {
                    None::<usize>
                },
            decreases self.order@.len() - i,
        {
            match cur {
                None => {
                    return None;
                },
                Some(c) => {
                    if i == index {
                        return Some(c);
                    }
                    proof {
                        assert(self.linked_at(nodes@, i as int));
                    }
                    cur = nodes[c].next;
                    i += 1;
                },
            }
        }
    }

    /// Unlinks the head node, severing its forward link first, and returns
    /// its slot.
    pub fn unlink_front(&mut self, nodes: &mut Vec<Node>) -> (r: usize)
        requires
            old(self).wf(old(nodes)@),
            old(self).order().len() > 0,
        ensures
            final(self).wf(final(nodes)@),
            r == old(self).order()[0],
            final(self).order() == old(self).order().drop_first(),
            final(self).values(final(nodes)@) == old(self).values(old(nodes)@).drop_first(),
            final(nodes)@.len() == old(nodes)@.len(),
    {
        let ghost o = self.order@;
        let ghost n0 = nodes@;
        let ghost n = o.len() as int;
        proof {
            assert(self.linked_at(n0, 0));
            if n > 1 {
                assert(self.linked_at(n0, 1));
            }
        }
        let h = self.head.unwrap();
        let next = nodes[h].next;
        nodes[h].next = None;
        match next {
            Some(m) => {
                nodes[m].prev = None;
                self.head = Some(m);
            },
            None => {
                self.head = None;
                self.tail = None;
            },
        }
        self.len = self.len - 1;
        let ghost o2 = o.drop_first();
        self.order = Ghost(o2);
        proof {
            assert forall|k: int| 0 <= k < o2.len() implies #[trigger] self.linked_at(nodes@, k) by {
                assert(o2[k] == o[k + 1]);
                assert(old(self).linked_at(n0, k + 1));
                assert(o[k + 1] != o[0]);
                if k > 0 {
                    assert(o[k + 1] != o[1]);
                }
            }
            assert forall|i: int, j: int|
                0 <= i < o2.len() && 0 <= j < o2.len() && i != j implies o2[i] != o2[j] by {
                assert(o[i + 1] != o[j + 1]);
            }
            assert forall|k: int| 1 <= k < n implies nodes@[o[k] as int].value == n0[o[k] as int].value by {
                assert(old(self).linked_at(n0, k));
            }
            assert(self.values(nodes@) =~= old(self).values(n0).drop_first());
        }
        h
    }

    /// Walks forward from the head adding up the values, wrapping on 32-bit
    /// overflow.
    pub fn sum(&self, nodes: &Vec<Node>) -> (r: i32)
        requires
            self.wf(nodes@),
        ensures
            r as int == wrapped_total(self.values(nodes@)),
    {
        let ghost vals = self.values(nodes@);
        let mut acc: i32 = 0;
        let mut cur = self.head;
        let mut i: usize = 0;
        loop
            invariant
                self.wf(nodes@),
                vals == self.values(nodes@),
                i <= self.order@.len(),
                cur == if i < self.order@.len() {
                    Some(self.order@[i as int])
                } else {
                    None::<usize>
                },
                acc as int == wrap_i32(total(vals.subrange(0, i as int))),
            decreases self.order@.len() - i,
        {
            match cur {
                None => {
                    assert(vals.subrange(0, i as int) =~= vals);
                    return acc;
                },
                Some(c) => {
                    proof {
                        assert(self.linked_at(nodes@, i as int));
                        assert(vals.subrange(0, i + 1) =~= vals.subrange(0, i as int).push(vals[i as int]));
                        assert(vals.subrange(0, i + 1).drop_last() =~= vals.subrange(0, i as int));
                        lemma_wrapping_add_is_wrap(acc, nodes@[c as int].value);
                        lemma_wrap_add(total(vals.subrange(0, i as int)), vals[i as int] as int);
                    }
                    acc = acc.wrapping_add(nodes[c].value);
                    cur = nodes[c].next;
                    i += 1;
                },
            }
        }
    }

    /// The values in order, collected by a forward walk.
    pub fn to_vec(&self, nodes: &Vec<Node>) -> (r: Vec<i32>)
        requires
            self.wf(nodes@),
        ensures
            r@ == self.values(nodes@),
    {
        let ghost vals = self.values(nodes@);
        let mut out: Vec<i32> = Vec::new();
        let mut cur = self.head;
        let mut i: usize = 0;
        loop
            invariant
                self.wf(nodes@),
                vals == self.values(nodes@),
                i <= self.order@.len(),
                cur == if i < self.order@.len() {
                    Some(self.order@[i as int])
                } else {
                    None::<usize>
                },
                out@ == vals.subrange(0, i as int),
            decreases self.order@.len() - i,
        {
            match cur {
                None => {
                    assert(vals.subrange(0, i as int) =~= vals);
                    return out;
                },
                Some(c) => {
                    proof {
                        assert(self.linked_at(nodes@, i as int));
                    }
                    out.push(nodes[c].value);
                    cur = nodes[c].next;
                    i += 1;
                    assert(out@ =~= vals.subrange(0, i as int));
                },
            }
        }
    }

    /// Every linked slot lies inside the store.
    pub proof fn lemma_slots_in_store(&self, nodes: Seq<Node>)
        requires
            self.wf(nodes),
        ensures
            forall|k: int| 0 <= k < self.order().len() ==> #[trigger] self.order()[k] < nodes.len(),
            self.order().no_duplicates(),
            self.order().len() <= usize::MAX,
    {
        assert forall|k: int| 0 <= k < self.order().len() implies #[trigger] self.order()[k] < nodes.len() by {
            assert(self.linked_at(nodes, k));
        }
    }

    /// Adding a node at the end of the store leaves the sequence as it was.
    pub proof fn lemma_store_push(&self, nodes: Seq<Node>, node: Node)
        requires
            self.wf(nodes),
            nodes.len() <= usize::MAX,
        ensures
            self.wf(nodes.push(node)),
            self.values(nodes.push(node)) == self.values(nodes),
            !self.order().contains(nodes.len() as usize),
    {
        self.lemma_slots_in_store(nodes);
        self.lemma_frame(nodes, nodes.push(node));
        assert forall|k: int| 0 <= k < self.order().len() implies self.order()[k] != nodes.len() as usize by {
            assert(self.order()[k] < nodes.len());
        }
    }

    /// An empty sequence is well formed over any store.
    pub proof fn lemma_empty(&self, n1: Seq<Node>, n2: Seq<Node>)
        requires
            self.wf(n1),
            self.order().len() == 0,
        ensures
            self.wf(n2),
            self.values(n2) == Seq::<i32>::empty(),
    {
        assert(self.values(n2) =~= Seq::<i32>::empty());
    }
}

} // verus!
