//! The persistent index allocator: the global chunk index table, owning the
//! single monotonically increasing counter that keeps persistent identities
//! unique across the whole world, and the per-chunk entity counts.

use crate::entity::ChunkKey;
use vstd::prelude::*;

verus! {

/// The global chunk index table.  It must be seeded from the base store's
/// existing counter and per-chunk counts before any allocation, so newly
/// issued identities never collide with existing ones.  No identity is ever
/// freed or recycled.
#[derive(PartialEq, Eq, Debug)]
pub struct IndexTable {
    /// The next persistent identity to issue.
    pub next_persistent_index: u32,
    /// The spatial key of every known chunk.
    pub chunk_keys: Vec<ChunkKey>,
    /// The entity count of every known chunk, parallel to `chunk_keys`.
    pub num_entities: Vec<u32>,
}

impl IndexTable {
    /// The two parallel columns describe the same chunks.
    pub open spec fn wf(self) -> bool {
        self.chunk_keys@.len() == self.num_entities@.len()
    }

    /// Builds a table from the base store's global metadata, as plain values.
    pub fn new(next_persistent_index: u32, chunk_keys: Vec<ChunkKey>, num_entities: Vec<u32>) -> (r:
        IndexTable)
        requires
            chunk_keys@.len() == num_entities@.len(),
        ensures
            r.wf(),
            r.next_persistent_index == next_persistent_index,
            r.chunk_keys@ == chunk_keys@,
            r.num_entities@ == num_entities@,
    {
        IndexTable { next_persistent_index, chunk_keys, num_entities }
    }

    /// Issues a fresh identity: returns the current counter value and
    /// increments the counter by one.  The counter never decreases, so an
    /// issued identity is never issued again.
    pub fn next_id(&mut self) -> (r: u32)
        requires
            old(self).next_persistent_index < u32::MAX,
        ensures
            r == old(self).next_persistent_index,
            final(self).next_persistent_index == old(self).next_persistent_index + 1,
            final(self).chunk_keys@ == old(self).chunk_keys@,
            final(self).num_entities@ == old(self).num_entities@,
    {
        let r = self.next_persistent_index;
        self.next_persistent_index = self.next_persistent_index + 1;
        r
    }

    /// Records one newly created entity in the chunk at position `chunk_pos`
    /// of the table.
    pub fn record_created(&mut self, chunk_pos: usize)
        requires
            chunk_pos < old(self).num_entities@.len(),
            old(self).num_entities@[chunk_pos as int] < u32::MAX,
        ensures
            final(self).num_entities@ == old(self).num_entities@.update(
                chunk_pos as int,
                (old(self).num_entities@[chunk_pos as int] + 1) as u32,
            ),
            final(self).chunk_keys@ == old(self).chunk_keys@,
            final(self).next_persistent_index == old(self).next_persistent_index,
    {
        let n = self.num_entities[chunk_pos];
        self.num_entities.set(chunk_pos, n + 1);
    }
}

} // verus!
