use vstd::prelude::*;
use crate::links::{Links, Node};
use crate::sequence::{IntSequence, SequenceError};

verus! {

/// A doubly linked sequence over a growable node store. Nodes are plain
/// slots and links are slot numbers: the forward link is the one traversal
/// follows, and the backward link is only a look-up key, so no reference
/// cycle can arise. Nodes are never given back one by one: the store only
/// grows, and teardown unlinks every node from the head and then empties it.
pub struct DoublyLinkedList {
    nodes: Vec<Node>,
    links: Links,
}

impl DoublyLinkedList {
    pub fn new() -> (r: Self)
        ensures
            r.wf(),
            r.elements() == Seq::<i32>::empty(),
            r.room() == usize::MAX as nat,
    {
        let r = DoublyLinkedList { nodes: Vec::new(), links: Links::new() };
        assert(r.links.values(r.nodes@) =~= Seq::<i32>::empty());
        r
    }

    /// How many nodes the store holds.
    pub closed spec fn stored(&self) -> nat {
        self.nodes@.len()
    }

    /// The store holds exactly the linked nodes: no node outlives its place
    /// in the sequence, so after `teardown` nothing is retained.
    pub proof fn lemma_no_stray_nodes(&self)
        requires
            self.wf(),
        ensures
            self.stored() == self.elements().len(),
    {
    }

    /// Stores a fresh node and returns its slot; the sequence is unchanged.
    fn new_node(&mut self, value: i32) -> (slot: usize)
        requires
            old(self).wf(),
        ensures
            final(self).links == old(self).links,
            final(self).links.wf(final(self).nodes@),
            final(self).links.values(final(self).nodes@) == old(self).elements(),
            slot < final(self).nodes@.len(),
            final(self).nodes@[slot as int].value == value,
            !final(self).links.order().contains(slot),
            final(self).nodes@.len() == old(self).nodes@.len() + 1,
            slot == old(self).nodes@.len(),
    {
        let slot = self.nodes.len();
        let node = Node::detached(value);
        proof {
            self.links.lemma_store_push(self.nodes@, node);
        }
        self.nodes.push(node);
        slot
    }
}

impl IntSequence for DoublyLinkedList {
    closed spec fn elements(&self) -> Seq<i32> {
        self.links.values(self.nodes@)
    }

    closed spec fn wf(&self) -> bool {
        &&& self.links.wf(self.nodes@)
        &&& self.nodes@.len() == self.links.order().len()
    }

    closed spec fn room(&self) -> nat {
        (usize::MAX - self.links.order().len()) as nat
    }

    fn len(&self) -> (r: usize) {
        self.links.len(Ghost(self.nodes@))
    }

    fn append(&mut self, value: i32) -> (r: Result<(), SequenceError>) {
        if self.links.len(Ghost(self.nodes@)) == usize::MAX {
            return Err(SequenceError::CapacityExceeded);
        }
        let slot = self.new_node(value);
        self.links.link_back(&mut self.nodes, slot);
        Ok(())
    }

    fn insert(&mut self, index: usize, value: i32) -> (r: Result<(), SequenceError>) {
        if self.links.len(Ghost(self.nodes@)) == usize::MAX {
            return Err(SequenceError::CapacityExceeded);
        }
        match self.links.slot_at(&self.nodes, index) {
            Some(at) => {
                let slot = self.new_node(value);
                self.links.link_before(&mut self.nodes, at, Ghost(index as int), slot);
                Ok(())
            },
            None => self.append(value),
        }
    }

    fn sum(&self) -> (r: i32) {
        self.links.sum(&self.nodes)
    }

    fn to_vec(&self) -> (r: Vec<i32>) {
        self.links.to_vec(&self.nodes)
    }

    /// Unlinks the nodes one at a time from the head, cutting each forward
    /// link before the node goes, then drops the emptied store.
    fn teardown(&mut self) {
        proof {
            self.links.lemma_slots_in_store(self.nodes@);
        }
        while self.links.len(Ghost(self.nodes@)) > 0
            invariant
                self.links.wf(self.nodes@),
            decreases self.links.order().len(),
        {
            self.links.unlink_front(&mut self.nodes);
        }
        let ghost emptied = self.nodes@;
        self.nodes.clear();
        proof {
            self.links.lemma_empty(emptied, self.nodes@);
        }
    }
}

} // verus!
