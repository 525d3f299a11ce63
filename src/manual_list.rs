use vstd::prelude::*;
use crate::links::{Links, Node};
use crate::sequence::{IntSequence, SequenceError};

verus! {

/// A doubly linked sequence whose node lifetimes are managed by hand. Every
/// node is obtained from the store by an explicit allocation and given back
/// by an explicit release; a released slot may be handed out again.
///
/// The store never loses track of a node: each slot ever allocated is either
/// linked into the sequence or on the released list, never both, and never
/// twice on that list. Allocation happens only once an operation is sure to
/// link the node, so an insert past the end wastes nothing.
pub struct UnsafeDll {
    nodes: Vec<Node>,
    released: Vec<usize>,
    links: Links,
}

impl UnsafeDll {
    pub fn new() -> (r: Self)
        ensures
            r.wf(),
            r.elements() == Seq::<i32>::empty(),
            r.room() == usize::MAX as nat,
            r.allocated() == 0,
    {
        UnsafeDll { nodes: Vec::new(), released: Vec::new(), links: Links::new() }
    }

    /// How many slots have ever been allocated.
    pub closed spec fn allocated(&self) -> nat {
        self.nodes@.len()
    }

    /// The slots given back so far and not handed out again.
    pub closed spec fn released(&self) -> Seq<usize> {
        self.released@
    }

    /// The slots of the linked nodes, head first.
    pub closed spec fn live(&self) -> Seq<usize> {
        self.links.order()
    }

    /// The store's bookkeeping on a well-formed list: every slot ever
    /// allocated is either linked or released, never both, and no slot is
    /// released twice. So after any append or insert nothing has leaked.
    pub proof fn lemma_accounting(&self)
        requires
            self.wf(),
        ensures
            self.live().len() == self.elements().len(),
            self.released().len() + self.elements().len() == self.allocated(),
            self.released().no_duplicates(),
            self.live().no_duplicates(),
            forall|s: usize|
                s < self.allocated() ==> self.live().contains(s) || #[trigger] self.released().contains(s),
            forall|i: int|
                0 <= i < self.released().len() ==> #[trigger] self.released()[i] < self.allocated()
                    && !self.live().contains(self.released()[i]),
    {
        self.links.lemma_slots_in_store(self.nodes@);
    }

    /// Obtains a slot holding a detached node with `value`: a released slot if
    /// there is one, else a new one.
    fn allocate(&mut self, value: i32) -> (slot: usize)
        requires
            old(self).wf(),
        ensures
            final(self).links == old(self).links,
            final(self).links.wf(final(self).nodes@),
            final(self).links.values(final(self).nodes@) == old(self).elements(),
            slot < final(self).nodes@.len(),
            final(self).nodes@[slot as int].value == value,
            !final(self).links.order().contains(slot),
            !final(self).released@.contains(slot),
            final(self).released@.no_duplicates(),
            final(self).released@.len() + final(self).links.order().len() + 1 == final(self).nodes@.len(),
            forall|i: int|
                0 <= i < final(self).released@.len() ==> #[trigger] final(self).released@[i]
                    < final(self).nodes@.len() && !final(self).links.order().contains(
                    final(self).released@[i],
                ),
            forall|s: usize|
                s < final(self).nodes@.len() ==> s == slot || final(self).links.order().contains(s)
                    || #[trigger] final(self).released@.contains(s),
    {
        let node = Node::detached(value);
        proof {
            self.links.lemma_slots_in_store(self.nodes@);
        }
        match self.released.pop() {
            Some(slot) => {
                proof {
                    assert(old(self).released@.last() == slot);
                    assert(old(self).released@ =~= self.released@.push(slot));
                    assert forall|i: int| 0 <= i < self.released@.len() implies self.released@[i] != slot by {
                        assert(old(self).released@[i] == self.released@[i]);
                    }
                    assert forall|k: int| 0 <= k < self.links.order().len() implies #[trigger] self.links.order()[k] != slot by {
                        assert(old(self).released@.contains(slot));
                    }
                }
                let ghost before = self.nodes@;
                self.nodes.set(slot, node);
                proof {
                    self.links.lemma_frame(before, self.nodes@);
                    assert forall|s: usize|
                        s < self.nodes@.len() implies s == slot || self.links.order().contains(s)
                        || #[trigger] self.released@.contains(s) by {
                        if old(self).released@.contains(s) && s != slot {
                            let i = choose|i: int| 0 <= i < old(self).released@.len() && old(self).released@[i] == s;
                            assert(self.released@[i] == s);
                        }
                    }
                }
                slot
            },
            None => {
                let slot = self.nodes.len();
                proof {
                    self.links.lemma_store_push(self.nodes@, node);
                }
                self.nodes.push(node);
                slot
            },
        }
    }

    /// Gives the node in `slot` back to the store. Only a slot that is
    /// allocated, unlinked and not yet released can be given back, so no node
    /// is ever released twice.
    fn release(&mut self, slot: usize)
        requires
            old(self).links.wf(old(self).nodes@),
            slot < old(self).nodes@.len(),
            !old(self).links.order().contains(slot),
            !old(self).released@.contains(slot),
            old(self).released@.no_duplicates(),
            old(self).released@.len() + old(self).links.order().len() + 1 == old(self).nodes@.len(),
            forall|i: int|
                0 <= i < old(self).released@.len() ==> #[trigger] old(self).released@[i] < old(self).nodes@.len() && !old(self).links.order().contains(old(self).released@[i]),
            forall|s: usize|
                s < old(self).nodes@.len() ==> s == slot || old(self).links.order().contains(s)
                    || #[trigger] old(self).released@.contains(s),
        ensures
            final(self).wf(),
            final(self).nodes == old(self).nodes,
            final(self).links == old(self).links,
            final(self).released@ == old(self).released@.push(slot),
    {
        self.released.push(slot);
        proof {
            assert forall|i: int, j: int|
                0 <= i < self.released@.len() && 0 <= j < self.released@.len() && i != j implies self.released@[i]
                != self.released@[j] by {
                if i < old(self).released@.len() && j < old(self).released@.len() {
                    assert(old(self).released@[i] != old(self).released@[j]);
                } else if i < old(self).released@.len() {
                    assert(old(self).released@.contains(old(self).released@[i]));
                } else if j < old(self).released@.len() {
                    assert(old(self).released@.contains(old(self).released@[j]));
                }
            }
            assert forall|s: usize|
                s < self.nodes@.len() implies self.links.order().contains(s)
                || #[trigger] self.released@.contains(s) by {
                if s == slot {
                    assert(self.released@[self.released@.len() - 1] == s);
                } else if old(self).released@.contains(s) {
                    let i = choose|i: int| 0 <= i < old(self).released@.len() && old(self).released@[i] == s;
                    assert(self.released@[i] == s);
                }
            }
        }
    }

    /// Linking a freshly allocated slot restores the store's bookkeeping.
    proof fn lemma_linked_slot(&self, before: Seq<usize>, pos: int, slot: usize)
        requires
            self.links.wf(self.nodes@),
            0 <= pos <= before.len(),
            self.links.order() == before.insert(pos, slot),
            !self.released@.contains(slot),
            self.released@.no_duplicates(),
            self.released@.len() + before.len() + 1 == self.nodes@.len(),
            forall|i: int|
                0 <= i < self.released@.len() ==> #[trigger] self.released@[i] < self.nodes@.len()
                    && !before.contains(self.released@[i]),
            forall|s: usize|
                s < self.nodes@.len() ==> s == slot || before.contains(s)
                    || #[trigger] self.released@.contains(s),
        ensures
            self.wf(),
    {
        let o = self.links.order();
        assert(o[pos] == slot);
        assert forall|i: int| 0 <= i < self.released@.len() implies #[trigger] self.released@[i]
            < self.nodes@.len() && !o.contains(self.released@[i]) by {
            let r = self.released@[i];
            if o.contains(r) {
                let k = choose|k: int| 0 <= k < o.len() && o[k] == r;
                if k < pos {
                    assert(before[k] == r);
                } else if k > pos {
                    assert(before[k - 1] == r);
                } else {
                    assert(self.released@.contains(r));
                }
            }
        }
        assert forall|s: usize| s < self.nodes@.len() implies o.contains(s)
            || #[trigger] self.released@.contains(s) by {
            if s == slot {
                assert(o[pos] == s);
            } else if before.contains(s) {
                let k = choose|k: int| 0 <= k < before.len() && before[k] == s;
                if k < pos {
                    assert(o[k] == s);
                } else {
                    assert(o[k + 1] == s);
                }
            }
        }
    }

    /// Releases every node, walking from the head and reading each node's
    /// successor before giving the node back. Afterwards every slot ever
    /// allocated has been released exactly once.
    pub fn cleanup(&mut self)
        requires
            old(self).wf(),
        ensures
            final(self).wf(),
            final(self).elements() == Seq::<i32>::empty(),
            final(self).allocated() == old(self).allocated(),
            final(self).released().no_duplicates(),
            final(self).released().len() == final(self).allocated(),
            forall|s: usize| s < final(self).allocated() ==> #[trigger] final(self).released().contains(s),
    {
        proof {
            self.links.lemma_slots_in_store(self.nodes@);
        }
        while self.links.len(Ghost(self.nodes@)) > 0
            invariant
                self.wf(),
                self.nodes@.len() == old(self).nodes@.len(),
            decreases self.links.order().len(),
        {
            let ghost before = *self;
            let slot = self.links.unlink_front(&mut self.nodes);
            proof {
                before.links.lemma_slots_in_store(before.nodes@);
                let o = before.links.order();
                assert(o[0] == slot);
                assert forall|k: int| 0 <= k < self.links.order().len() implies #[trigger] self.links.order()[k]
                    != slot by {
                    assert(self.links.order()[k] == o[k + 1]);
                    assert(o[k + 1] != o[0]);
                }
                assert(!self.links.order().contains(slot));
                assert(o.contains(slot));
                assert(!self.released@.contains(slot));
                assert forall|i: int| 0 <= i < self.released@.len() implies #[trigger] self.released@[i]
                    < self.nodes@.len() && !self.links.order().contains(self.released@[i]) by {
                    let r = self.released@[i];
                    assert(!o.contains(r));
                    if self.links.order().contains(r) {
                        let k = choose|k: int| 0 <= k < self.links.order().len() && self.links.order()[k] == r;
                        assert(o[k + 1] == r);
                    }
                }
                assert forall|s: usize| s < self.nodes@.len() implies s == slot || self.links.order().contains(s)
                    || #[trigger] self.released@.contains(s) by {
                    if o.contains(s) && s != slot {
                        let k = choose|k: int| 0 <= k < o.len() && o[k] == s;
                        assert(k != 0);
                        assert(self.links.order()[k - 1] == s);
                    }
                }
            }
            self.release(slot);
        }
        proof {
            self.links.lemma_empty(self.nodes@, self.nodes@);
            assert forall|s: usize| s < self.nodes@.len() implies #[trigger] self.released@.contains(s) by {
                assert(!self.links.order().contains(s));
            }
        }
    }
}

impl IntSequence for UnsafeDll {
    closed spec fn elements(&self) -> Seq<i32> {
        self.links.values(self.nodes@)
    }

    closed spec fn wf(&self) -> bool {
        &&& self.links.wf(self.nodes@)
        &&& self.released@.no_duplicates()
        &&& self.released@.len() + self.links.order().len() == self.nodes@.len()
        &&& forall|i: int|
            0 <= i < self.released@.len() ==> #[trigger] self.released@[i] < self.nodes@.len()
                && !self.links.order().contains(self.released@[i])
        &&& forall|s: usize|
            s < self.nodes@.len() ==> self.links.order().contains(s)
                || #[trigger] self.released@.contains(s)
    }

    closed spec fn room(&self) -> nat {
        (usize::MAX - self.links.order().len()) as nat
    }

    fn len(&self) -> (r: usize) {
        self.links.len(Ghost(self.nodes@))
    }

    fn append(&mut self, value: i32) -> (r: Result<(), SequenceError>) {
        if self.links.len(Ghost(self.nodes@)) == usize::MAX {
            return Err(SequenceError::CapacityExceeded);
        }
        let slot = self.allocate(value);
        let ghost before = self.links.order();
        self.links.link_back(&mut self.nodes, slot);
        proof {
            assert(before.push(slot) =~= before.insert(before.len() as int, slot));
            self.lemma_linked_slot(before, before.len() as int, slot);
        }
        Ok(())
    }

    fn insert(&mut self, index: usize, value: i32) -> (r: Result<(), SequenceError>) {
        if self.links.len(Ghost(self.nodes@)) == usize::MAX {
            return Err(SequenceError::CapacityExceeded);
        }
        match self.links.slot_at(&self.nodes, index) {
            Some(at) => {
                let slot = self.allocate(value);
                let ghost before = self.links.order();
                self.links.link_before(&mut self.nodes, at, Ghost(index as int), slot);
                proof {
                    self.lemma_linked_slot(before, index as int, slot);
                }
                Ok(())
            },
            None => self.append(value),
        }
    }

    fn sum(&self) -> (r: i32) {
        self.links.sum(&self.nodes)
    }

    fn to_vec(&self) -> (r: Vec<i32>) {
        self.links.to_vec(&self.nodes)
    }

    fn teardown(&mut self) {
        proof {
            self.links.lemma_slots_in_store(self.nodes@);
        }
        self.cleanup();
    }
}

} // verus!
