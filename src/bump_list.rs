use vstd::prelude::*;
use crate::links::{Links, Node};
use crate::sequence::{IntSequence, SequenceError};

verus! {

/// Bytes one node takes from an arena: a 32-bit value and two links.
pub const NODE_BYTES: usize = 24;

/// Size of the arena used by the benchmark workloads: 64 MiB.
pub const DEFAULT_ARENA_BYTES: usize = 64 * 1024 * 1024;

/// A bump allocator for nodes: a fixed byte budget and an offset that only
/// grows, by `NODE_BYTES` per allocation. Nodes are never freed one by one;
/// `reset` gives everything back at once. An allocation that would pass the
/// end of the budget is refused.
pub struct BumpArena {
    nodes: Vec<Node>,
    capacity: usize,
    slots: usize,
}

impl BumpArena {
    pub closed spec fn wf(&self) -> bool {
        &&& self.slots * NODE_BYTES <= self.capacity
        &&& self.slots == self.capacity / NODE_BYTES
        &&& self.nodes@.len() <= self.slots
    }

    /// The byte budget.
    pub closed spec fn capacity_spec(&self) -> nat {
        self.capacity as nat
    }

    /// How many nodes have been handed out since the last reset.
    pub closed spec fn used(&self) -> nat {
        self.nodes@.len()
    }

    /// How many nodes the budget holds in all.
    pub open spec fn slots_spec(&self) -> nat {
        self.capacity_spec() / (NODE_BYTES as nat)
    }

    /// An arena with a budget of `capacity_bytes` and nothing handed out.
    pub fn new(capacity_bytes: usize) -> (r: Self)
        ensures
            r.wf(),
            r.capacity_spec() == capacity_bytes,
            r.used() == 0,
    {
        let slots = capacity_bytes / NODE_BYTES;
        assert(slots * NODE_BYTES <= capacity_bytes) by (nonlinear_arith)
            requires
                slots == capacity_bytes / NODE_BYTES,
                NODE_BYTES == 24,
        ;
        BumpArena { nodes: Vec::new(), capacity: capacity_bytes, slots }
    }

    /// The byte budget.
    pub fn capacity(&self) -> (r: usize)
        ensures
            r == self.capacity_spec(),
    {
        self.capacity
    }

    /// Bytes handed out since the last reset.
    pub fn offset(&self) -> (r: usize)
        requires
            self.wf(),
        ensures
            r == self.used() * NODE_BYTES,
            r <= self.capacity_spec(),
    {
        let used = self.nodes.len();
        assert(used * NODE_BYTES <= self.slots * NODE_BYTES) by (nonlinear_arith)
            requires
                used <= self.slots,
        ;
        used * NODE_BYTES
    }

    /// Takes the offset back to zero; every node handed out is gone.
    pub fn reset(&mut self)
        requires
            old(self).wf(),
        ensures
            final(self).wf(),
            final(self).capacity_spec() == old(self).capacity_spec(),
            final(self).used() == 0,
    {
        self.nodes.clear();
    }

    /// Carves a detached node holding `value` out of the arena, or refuses
    /// when the budget has no room for another node.
    fn alloc_node(&mut self, value: i32) -> (r: Option<usize>)
        requires
            old(self).wf(),
        ensures
            final(self).wf(),
            final(self).capacity == old(self).capacity,
            final(self).slots == old(self).slots,
            r is None <==> old(self).nodes@.len() == old(self).slots,
            r is None ==> final(self).nodes == old(self).nodes,
            r is Some ==> r == Some(old(self).nodes@.len() as usize) && final(self).nodes@
                == old(self).nodes@.push(Node { value, next: None, prev: None }),
    {
        if self.nodes.len() == self.slots {
            return None;
        }
        let slot = self.nodes.len();
        self.nodes.push(Node::detached(value));
        Some(slot)
    }
}

/// A doubly linked sequence whose nodes come from a bump arena that it owns
/// for its lifetime. Owning the arena is what keeps a second sequence from
/// using it at the same time. Teardown is a reset of the arena.
pub struct BumpDll {
    arena: BumpArena,
    links: Links,
}

impl BumpDll {
    /// An empty sequence over `arena`, which is reset first.
    pub fn new(arena: BumpArena) -> (r: Self)
        requires
            arena.wf(),
        ensures
            r.wf(),
            r.elements() == Seq::<i32>::empty(),
            r.capacity() == arena.capacity_spec(),
            r.offset() == 0,
            r.room() == arena.slots_spec(),
    {
        let mut arena = arena;
        arena.reset();
        let r = BumpDll { arena, links: Links::new() };
        assert(r.links.values(r.arena.nodes@) =~= Seq::<i32>::empty());
        r
    }

    /// The arena's byte budget.
    pub closed spec fn capacity(&self) -> nat {
        self.arena.capacity_spec()
    }

    /// Bytes of the arena in use.
    pub closed spec fn offset(&self) -> nat {
        self.arena.used() * (NODE_BYTES as nat)
    }

    /// Bytes of the arena in use.
    pub fn arena_offset(&self) -> (r: usize)
        requires
            self.wf(),
        ensures
            r == self.offset(),
    {
        self.arena.offset()
    }

    /// Ends the sequence and hands the arena back, still holding its nodes.
    pub fn into_arena(self) -> (r: BumpArena)
        requires
            self.wf(),
        ensures
            r.wf(),
            r.capacity_spec() == self.capacity(),
            r.used() == self.elements().len(),
    {
        self.arena
    }

    /// Empties the sequence by resetting the arena. The result is the state
    /// of a sequence freshly built over an arena of the same size.
    pub fn reset(&mut self)
        requires
            old(self).wf(),
        ensures
            final(self).wf(),
            final(self).elements() == Seq::<i32>::empty(),
            final(self).capacity() == old(self).capacity(),
            final(self).offset() == 0,
            final(self).room() == final(self).capacity() / (NODE_BYTES as nat),
            final(self).room() == old(self).room() + old(self).elements().len(),
    {
        self.arena.reset();
        self.links = Links::new();
        assert(self.links.values(self.arena.nodes@) =~= Seq::<i32>::empty());
    }

    /// Two empty sequences over arenas of the same budget cannot be told
    /// apart: same elements, same offset, same room. So a reset sequence
    /// behaves exactly like a freshly built one.
    pub proof fn lemma_empty_lists_agree(a: &BumpDll, b: &BumpDll)
        requires
            a.wf(),
            b.wf(),
            a.elements().len() == 0,
            b.elements().len() == 0,
            a.capacity() == b.capacity(),
        ensures
            a.elements() == b.elements(),
            a.offset() == 0,
            b.offset() == 0,
            a.room() == b.room(),
    {
        assert(a.elements() =~= b.elements());
    }

    /// Every node in use belongs to the sequence, so the offset counts its
    /// elements, and the room left is what the rest of the budget holds.
    pub proof fn lemma_offset_room(&self)
        requires
            self.wf(),
        ensures
            self.offset() == self.elements().len() * NODE_BYTES,
            self.offset() <= self.capacity(),
            self.room() == self.capacity() / (NODE_BYTES as nat) - self.elements().len(),
            self.elements().len() <= self.capacity() / (NODE_BYTES as nat),
    {
        let used = self.arena.nodes@.len();
        let slots = self.arena.slots;
        assert(used * NODE_BYTES <= slots * NODE_BYTES) by (nonlinear_arith)
            requires
                used <= slots,
        ;
    }

    /// Takes a node from the arena; the sequence is unchanged.
    fn new_node(&mut self, value: i32) -> (r: Option<usize>)
        requires
            old(self).wf(),
        ensures
            final(self).links == old(self).links,
            final(self).arena.wf(),
            final(self).arena.capacity == old(self).arena.capacity,
            final(self).arena.slots == old(self).arena.slots,
            final(self).links.wf(final(self).arena.nodes@),
            final(self).links.values(final(self).arena.nodes@) == old(self).elements(),
            r is None <==> old(self).room() == 0,
            r is None ==> final(self).arena.nodes == old(self).arena.nodes,
            r is Some ==> {
                let slot = r.unwrap();
                &&& slot < final(self).arena.nodes@.len()
                &&& final(self).arena.nodes@[slot as int].value == value
                &&& !final(self).links.order().contains(slot)
                &&& final(self).arena.nodes@.len() == old(self).arena.nodes@.len() + 1
            },
    {
        proof {
            self.links.lemma_store_push(self.arena.nodes@, Node { value, next: None, prev: None });
        }
        self.arena.alloc_node(value)
    }
}

impl IntSequence for BumpDll {
    closed spec fn elements(&self) -> Seq<i32> {
        self.links.values(self.arena.nodes@)
    }

    closed spec fn wf(&self) -> bool {
        &&& self.arena.wf()
        &&& self.links.wf(self.arena.nodes@)
        &&& self.arena.nodes@.len() == self.links.order().len()
    }

    closed spec fn room(&self) -> nat {
        (self.arena.slots - self.arena.nodes@.len()) as nat
    }

    fn len(&self) -> (r: usize) {
        self.links.len(Ghost(self.arena.nodes@))
    }

    fn append(&mut self, value: i32) -> (r: Result<(), SequenceError>)
        ensures
            r is Ok ==> final(self).offset() == old(self).offset() + NODE_BYTES,
            r is Err ==> final(self).offset() == old(self).offset(),
            final(self).capacity() == old(self).capacity(),
    {
        match self.new_node(value) {
            Some(slot) => {
                self.links.link_back(&mut self.arena.nodes, slot);
                Ok(())
            },
            None => Err(SequenceError::CapacityExceeded),
        }
    }

    fn insert(&mut self, index: usize, value: i32) -> (r: Result<(), SequenceError>)
        ensures
            r is Ok ==> final(self).offset() == old(self).offset() + NODE_BYTES,
            r is Err ==> final(self).offset() == old(self).offset(),
            final(self).capacity() == old(self).capacity(),
    {
        if self.arena.nodes.len() == self.arena.slots {
            return Err(SequenceError::CapacityExceeded);
        }
        match self.links.slot_at(&self.arena.nodes, index) {
            Some(at) => {
                let slot = self.new_node(value).unwrap();
                self.links.link_before(&mut self.arena.nodes, at, Ghost(index as int), slot);
                Ok(())
            },
            None => self.append(value),
        }
    }

    fn sum(&self) -> (r: i32) {
        self.links.sum(&self.arena.nodes)
    }

    fn to_vec(&self) -> (r: Vec<i32>) {
        self.links.to_vec(&self.arena.nodes)
    }

    fn teardown(&mut self) {
        self.reset();
    }
}

} // verus!
