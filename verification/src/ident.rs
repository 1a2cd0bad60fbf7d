//! The cache-key identity: one runtime node-key domain made of the arena
//! incarnation, the slot, and the slot's generation.
//!
//! A key is minted only for a live node. Dead, missing, and tombstoned slots
//! have no identity, and a key minted before a node was removed never
//! resolves again.

use vstd::prelude::*;

verus! {

/// A slot index in one document arena.
pub type NodeId = u32;

/// The single arena-scoped, generation-stamped runtime node identity.
#[derive(Debug, Clone, Copy, PartialEq, Eq, PartialOrd, Ord, Hash, Structural)]
pub struct NodeKey {
    pub incarnation: u64,
    pub slot: u32,
    pub generation: u32,
}

/// The generation a slot takes when its node is removed; it wraps after the
/// last representable generation.
pub open spec fn next_generation(generation: u32) -> u32 {
    if generation == u32::MAX {
        0
    } else {
        (generation + 1) as u32
    }
}

/// One arena slot: whether it holds a live node, and its generation.
#[derive(Debug, Clone, Copy, PartialEq, Eq, Structural)]
pub struct NodeSlot {
    pub live: bool,
    pub generation: u32,
}

/// The liveness surface of a document arena: its incarnation, its slots, and
/// its implicit root.
#[derive(Debug)]
pub struct Document {
    incarnation: u64,
    slots: Vec<NodeSlot>,
    root: NodeId,
}

impl Document {
    pub closed spec fn spec_incarnation(&self) -> u64 {
        self.incarnation
    }

    pub closed spec fn spec_slots(&self) -> Seq<NodeSlot> {
        self.slots@
    }

    pub closed spec fn spec_root(&self) -> NodeId {
        self.root
    }

    /// The implicit root's id.
    pub fn root(&self) -> (root: NodeId)
        ensures
            root == self.spec_root(),
    {
        self.root
    }

    /// The slot `id`, when it exists and holds a live node.
    pub open spec fn live_slot(&self, id: NodeId) -> Option<NodeSlot> {
        if (id as int) < self.spec_slots().len() && self.spec_slots()[id as int].live {
            Some(self.spec_slots()[id as int])
        } else {
            None
        }
    }

    /// The key of `id`, when it is live.
    pub open spec fn spec_key_of(&self, id: NodeId) -> Option<NodeKey> {
        match self.live_slot(id) {
            Some(slot) => Some(
                NodeKey { incarnation: self.spec_incarnation(), slot: id, generation: slot.generation },
            ),
            None => None,
        }
    }

    /// A document whose only node is its live root, slot 0.
    pub fn new(incarnation: u64) -> (doc: Self)
        ensures
            doc.spec_incarnation() == incarnation,
            doc.spec_slots() == seq![NodeSlot { live: true, generation: 0 }],
            doc.spec_root() == 0,
    {
        let mut slots = Vec::new();
        slots.push(NodeSlot { live: true, generation: 0 });
        Document { incarnation, slots, root: 0 }
    }

    /// Append a live node in a fresh slot and return its id.
    pub fn add_node(&mut self) -> (id: NodeId)
        requires
            old(self).spec_slots().len() < u32::MAX,
        ensures
            id as int == old(self).spec_slots().len(),
            final(self).spec_slots() == old(self).spec_slots().push(
                NodeSlot { live: true, generation: 0 },
            ),
            final(self).spec_incarnation() == old(self).spec_incarnation(),
            final(self).spec_root() == old(self).spec_root(),
    {
        let id = self.slots.len() as u32;
        self.slots.push(NodeSlot { live: true, generation: 0 });
        id
    }

    /// Tombstone a live node. Its generation advances, so every key minted
    /// for it before removal is stale. Removing a dead or missing slot
    /// changes nothing and returns `false`.
    pub fn remove_node(&mut self, id: NodeId) -> (removed: bool)
        ensures
            removed == old(self).live_slot(id) is Some,
            final(self).spec_incarnation() == old(self).spec_incarnation(),
            final(self).spec_root() == old(self).spec_root(),
            removed ==> final(self).spec_slots() == old(self).spec_slots().update(
                id as int,
                NodeSlot {
                    live: false,
                    generation: next_generation(old(self).spec_slots()[id as int].generation),
                },
            ),
            !removed ==> final(self).spec_slots() == old(self).spec_slots(),
    {
        let index = id as usize;
        if index < self.slots.len() && self.slots[index].live {
            let current = self.slots[index].generation;
            let generation = if current == u32::MAX { 0 } else { current + 1 };
            self.slots.set(index, NodeSlot { live: false, generation });
            true
        } else {
            false
        }
    }

    /// The key of a live node, or `None` for a dead, tombstoned, or missing
    /// slot.
    pub fn key_of(&self, id: NodeId) -> (key: Option<NodeKey>)
        ensures
            key == self.spec_key_of(id),
    {
        let index = id as usize;
        if index < self.slots.len() && self.slots[index].live {
            Some(NodeKey { incarnation: self.incarnation, slot: id, generation: self.slots[index].generation })
        } else {
            None
        }
    }

    /// The live node a key names, or `None` when the key is stale, from
    /// another incarnation, or names no slot.
    pub fn node_for_key(&self, key: NodeKey) -> (id: Option<NodeId>)
        ensures
            id == (if self.spec_key_of(key.slot) == Some(key) {
                Some(key.slot)
            } else {
                None::<NodeId>
            }),
    {
        let index = key.slot as usize;
        if key.incarnation == self.incarnation && index < self.slots.len()
            && self.slots[index].live && self.slots[index].generation == key.generation {
            Some(key.slot)
        } else {
            None
        }
    }
}

/// Mint a key only for a live node. Dead, missing, and tombstoned slots have
/// no identity.
pub fn key_of(doc: &Document, id: NodeId) -> (key: Option<NodeKey>)
    ensures
        key == doc.spec_key_of(id),
        key matches Some(k) ==> k.slot == id && k.incarnation == doc.spec_incarnation(),
{
    doc.key_of(id)
}

/// A minted key resolves back to the node it was minted for: the key names
/// its slot, and that slot's key is the key itself.
pub proof fn lemma_key_round_trip(doc: &Document, id: NodeId)
    requires
        doc.spec_key_of(id) is Some,
    ensures
        doc.spec_key_of(id).unwrap().slot == id,
        doc.spec_key_of(doc.spec_key_of(id).unwrap().slot) == doc.spec_key_of(id),
{
}

/// Removing a live node makes every key minted for it stale, and leaves the
/// keys of all other nodes unchanged.
pub proof fn lemma_removal_stales_key(before: &Document, after: &Document, id: NodeId, other: NodeId)
    requires
        before.live_slot(id) is Some,
        after.spec_incarnation() == before.spec_incarnation(),
        after.spec_slots() == before.spec_slots().update(
            id as int,
            NodeSlot { live: false, generation: next_generation(before.spec_slots()[id as int].generation) },
        ),
        other != id,
    ensures
        after.spec_key_of(id) is None,
        after.spec_key_of(before.spec_key_of(id).unwrap().slot) != before.spec_key_of(id),
        after.spec_key_of(other) == before.spec_key_of(other),
{
}

} // verus!
