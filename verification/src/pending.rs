//! The patch overlay and its assembler.  An overlay is a sparse tree of
//! path segment to folder-or-file, mirroring the target store's layout; only
//! modified or newly created paths appear in it, and absent paths inherit
//! unchanged from the base store.

use crate::dup::GridEntry;
use crate::entity::ChunkKey;
use crate::fmt::{chunk_file_name, chunk_file_name_seq, dec_seq, fmt_u32};
use vstd::prelude::*;

verus! {

/// One node of a patch overlay.  A node is a file or a folder, never both:
/// the overlay is a strict tree.  `Folder(None)` and `File(None)` mark a
/// path whose content is left unchanged by the patch.
#[derive(Debug, PartialEq, Eq)]
pub enum PendingFs {
    /// The overlay's top level: the root directory's named entries.
    Root(Vec<(String, PendingFs)>),
    /// A folder and its named entries, in order.
    Folder(Option<Vec<(String, PendingFs)>>),
    /// A file and its raw bytes.
    File(Option<Vec<u8>>),
}

/// The mathematical shape of an overlay node: names as character sequences,
/// file contents as byte sequences.
pub enum FsView {
    /// The top level's named entries.
    Root(Seq<(Seq<char>, FsView)>),
    /// A folder's named entries, in order.
    Folder(Option<Seq<(Seq<char>, FsView)>>),
    /// A file's bytes.
    File(Option<Seq<u8>>),
}

impl View for PendingFs {
    type V = FsView;

    open spec fn view(&self) -> FsView
        decreases self,
    {
        match self {
            PendingFs::Root(entries) => FsView::Root(entries_view(entries@)),
            PendingFs::Folder(Some(entries)) => FsView::Folder(Some(entries_view(entries@))),
            PendingFs::Folder(None) => FsView::Folder(None),
            PendingFs::File(Some(bytes)) => FsView::File(Some(bytes@)),
            PendingFs::File(None) => FsView::File(None),
        }
    }
}

/// The views of a folder's entries: each name as characters beside the view
/// of its node.
pub open spec fn entries_view(entries: Seq<(String, PendingFs)>) -> Seq<(Seq<char>, FsView)>
    decreases entries,
{
    Seq::new(
        entries.len(),
        |i: int|
            if 0 <= i < entries.len() {
                (entries[i].0@, entries[i].1@)
            } else {
                (Seq::empty(), FsView::File(None))
            },
    )
}

/// The entry lists agree in length and, position by position, in name
/// characters and node view.
pub open spec fn entries_match(a: Seq<(String, PendingFs)>, b: Seq<(String, PendingFs)>) -> bool {
    &&& a.len() == b.len()
    &&& forall|i: int|
        #![trigger a[i], b[i]]
        0 <= i < a.len() ==> a[i].0@ == b[i].0@ && a[i].1@ == b[i].1@
}

/// Entry lists that agree position by position have the same view.
pub proof fn lemma_entries_match_view(a: Seq<(String, PendingFs)>, b: Seq<(String, PendingFs)>)
    requires
        entries_match(a, b),
    ensures
        entries_view(a) == entries_view(b),
{
    assert forall|i: int| 0 <= i < a.len() implies entries_view(a)[i] == entries_view(b)[i] by {
        let pa = a[i];
        let pb = b[i];
        assert(pa.0@ == pb.0@ && pa.1@ == pb.1@);
    }
    assert(entries_view(a) =~= entries_view(b));
}

impl PendingFs {
    /// An independent value copy of the node, equal to the original in every
    /// name and byte.
    pub fn deep_copy(&self) -> (r: PendingFs)
        ensures
            r@ == self@,
        decreases *self,
    {
        match self {
            PendingFs::Root(entries) => {
                let copied = copy_entries(entries);
                let r = PendingFs::Root(copied);
                proof {
                    lemma_entries_match_view(copied@, entries@);
                }
                r
            },
            PendingFs::Folder(Some(entries)) => {
                let copied = copy_entries(entries);
                let r = PendingFs::Folder(Some(copied));
                proof {
                    lemma_entries_match_view(copied@, entries@);
                }
                r
            },
            PendingFs::Folder(None) => PendingFs::Folder(None),
            PendingFs::File(Some(bytes)) => PendingFs::File(Some(copy_bytes(bytes))),
            PendingFs::File(None) => PendingFs::File(None),
        }
    }
}

/// Copies a folder's entry list, name by name and node by node.
fn copy_entries(entries: &Vec<(String, PendingFs)>) -> (r: Vec<(String, PendingFs)>)
    ensures
        entries_match(r@, entries@),
    decreases *entries,
{
    let mut r: Vec<(String, PendingFs)> = Vec::new();
    let mut i: usize = 0;
    while i < entries.len()
        invariant
            i <= entries@.len(),
            r@.len() == i,
            forall|j: int|
                0 <= j < i ==> #[trigger] r@[j].0@ == entries@[j].0@ && r@[j].1@ == entries@[j].1@,
        decreases entries@.len() - i,
    {
        let name = entries[i].0.clone();
        let node = entries[i].1.deep_copy();
        r.push((name, node));
        i = i + 1;
    }
    r
}

/// The buffered outputs of a run, waiting to be assembled into one overlay:
/// re-encoded chunk record blobs, replicated grid subtrees, and the updated
/// encoding of the chunk index table.
pub struct Pending {
    /// Chunk record blobs, named after their chunk key.
    pub entity_files: Vec<(String, PendingFs)>,
    /// Grid subtrees, named after their owning persistent identity.
    pub grid_files: Vec<(String, PendingFs)>,
    /// The re-encoded chunk index table.
    pub chunk_index: Vec<u8>,
}

impl Default for Pending {
    /// Empty buffers: nothing recorded yet.
    fn default() -> (r: Pending)
        ensures
            r.entity_files@.len() == 0,
            r.grid_files@.len() == 0,
            r.chunk_index@.len() == 0,
    {
        Pending { entity_files: Vec::new(), grid_files: Vec::new(), chunk_index: Vec::new() }
    }
}

/// The overlay a run's buffered outputs assemble into: the fixed path
/// skeleton of the target store, with the grid subtrees under the
/// grid-storage folder, the chunk record blobs under the chunk-storage
/// folder, and the chunk index table as a single file beside them.
pub open spec fn is_patch_tree(
    v: FsView,
    grids: Seq<(Seq<char>, FsView)>,
    chunks: Seq<(Seq<char>, FsView)>,
    index: Seq<u8>,
) -> bool {
    &&& v matches FsView::Root(top)
    &&& top.len() == 1
    &&& top[0].0 == "World"@
    &&& top[0].1 matches FsView::Folder(Some(world))
    &&& world.len() == 1
    &&& world[0].0 == "0"@
    &&& world[0].1 matches FsView::Folder(Some(zero))
    &&& zero.len() == 2
    &&& zero[0].0 == "Bricks"@
    &&& zero[0].1 matches FsView::Folder(Some(bricks))
    &&& bricks.len() == 1
    &&& bricks[0].0 == "Grids"@
    &&& bricks[0].1 == FsView::Folder(Some(grids))
    &&& zero[1].0 == "Entities"@
    &&& zero[1].1 matches FsView::Folder(Some(entities))
    &&& entities.len() == 2
    &&& entities[0].0 == "Chunks"@
    &&& entities[0].1 == FsView::Folder(Some(chunks))
    &&& entities[1].0 == "ChunkIndex.mps"@
    &&& entities[1].1 == FsView::File(Some(index))
}

impl Pending {
    /// Buffers one chunk's re-encoded record blob under the chunk's file
    /// name.
    pub fn record_chunk(&mut self, key: ChunkKey, bytes: Vec<u8>)
        ensures
            final(self).entity_files@.len() == old(self).entity_files@.len() + 1,
            forall|j: int|
                0 <= j < old(self).entity_files@.len() ==> final(self).entity_files@[j] == old(
                    self,
                ).entity_files@[j],
            final(self).entity_files@.last().0@ == chunk_file_name_seq(key),
            final(self).entity_files@.last().1 == PendingFs::File(Some(bytes)),
            final(self).grid_files@ == old(self).grid_files@,
            final(self).chunk_index@ == old(self).chunk_index@,
    {
        let name = chunk_file_name(key);
        self.entity_files.push((name, PendingFs::File(Some(bytes))));
    }

    /// Buffers one grid subtree under the decimal name of its owning
    /// identity.
    pub fn record_grid(&mut self, id: u32, subtree: PendingFs)
        ensures
            final(self).grid_files@.len() == old(self).grid_files@.len() + 1,
            forall|j: int|
                0 <= j < old(self).grid_files@.len() ==> final(self).grid_files@[j] == old(
                    self,
                ).grid_files@[j],
            final(self).grid_files@.last().0@ == dec_seq(id as int),
            final(self).grid_files@.last().1 == subtree,
            final(self).entity_files@ == old(self).entity_files@,
            final(self).chunk_index@ == old(self).chunk_index@,
    {
        let name = fmt_u32(id);
        self.grid_files.push((name, subtree));
    }

    /// Buffers a chunk's replicated grid subtrees, in order, each under the
    /// decimal name of its identity.
    pub fn record_grids(&mut self, mut entries: Vec<GridEntry>)
        ensures
            final(self).grid_files@.len() == old(self).grid_files@.len() + entries@.len(),
            forall|j: int|
                0 <= j < old(self).grid_files@.len() ==> final(self).grid_files@[j] == old(
                    self,
                ).grid_files@[j],
            forall|k: int|
                0 <= k < entries@.len() ==> {
                    let entry = final(self).grid_files@[old(self).grid_files@.len() + k];
                    entry.0@ == dec_seq((#[trigger] entries@[k]).id as int) && entry.1
                        == entries@[k].subtree
                },
            final(self).entity_files@ == old(self).entity_files@,
            final(self).chunk_index@ == old(self).chunk_index@,
    {
        let ghost all = entries@;
        let ghost start = self.grid_files@.len() as int;
        let ghost mut k: int = 0;
        while entries.len() > 0
            invariant
                0 <= k,
                all.len() == k + entries@.len(),
                entries@ == all.skip(k),
                start == old(self).grid_files@.len(),
                self.grid_files@.len() == start + k,
                forall|j: int|
                    0 <= j < start ==> self.grid_files@[j] == old(self).grid_files@[j],
                forall|j: int|
                    0 <= j < k ==> {
                        let entry = self.grid_files@[start + j];
                        entry.0@ == dec_seq((#[trigger] all[j]).id as int) && entry.1
                            == all[j].subtree
                    },
                self.entity_files@ == old(self).entity_files@,
                self.chunk_index@ == old(self).chunk_index@,
            decreases entries@.len(),
        {
            let entry = entries.remove(0);
            proof {
                assert(entry == all[k]);
                assert(entries@ =~= all.skip(k + 1));
            }
            self.record_grid(entry.id, entry.subtree);
            proof {
                k = k + 1;
            }
        }
    }

    /// Stores the re-encoded chunk index table, replacing any earlier
    /// encoding.
    pub fn set_chunk_index(&mut self, bytes: Vec<u8>)
        ensures
            final(self).chunk_index@ == bytes@,
            final(self).entity_files@ == old(self).entity_files@,
            final(self).grid_files@ == old(self).grid_files@,
    {
        self.chunk_index = bytes;
    }

    /// Assembles every buffered output into one overlay under the store's
    /// fixed path skeleton, draining the buffers: a second call without new
    /// buffered data yields the same skeleton holding nothing.
    pub fn patch(&mut self) -> (r: PendingFs)
        ensures
            is_patch_tree(
                r@,
                entries_view(old(self).grid_files@),
                entries_view(old(self).entity_files@),
                old(self).chunk_index@,
            ),
            final(self).entity_files@.len() == 0,
            final(self).grid_files@.len() == 0,
            final(self).chunk_index@.len() == 0,
    {
        let mut grids: Vec<(String, PendingFs)> = Vec::new();
        core::mem::swap(&mut grids, &mut self.grid_files);
        let mut chunks: Vec<(String, PendingFs)> = Vec::new();
        core::mem::swap(&mut chunks, &mut self.entity_files);
        let mut index: Vec<u8> = Vec::new();
        core::mem::swap(&mut index, &mut self.chunk_index);

        let mut bricks: Vec<(String, PendingFs)> = Vec::new();
        bricks.push((String::from_str("Grids"), PendingFs::Folder(Some(grids))));

        let mut entities: Vec<(String, PendingFs)> = Vec::new();
        entities.push((String::from_str("Chunks"), PendingFs::Folder(Some(chunks))));
        entities.push((String::from_str("ChunkIndex.mps"), PendingFs::File(Some(index))));

        let mut zero: Vec<(String, PendingFs)> = Vec::new();
        zero.push((String::from_str("Bricks"), PendingFs::Folder(Some(bricks))));
        zero.push((String::from_str("Entities"), PendingFs::Folder(Some(entities))));

        let mut world: Vec<(String, PendingFs)> = Vec::new();
        world.push((String::from_str("0"), PendingFs::Folder(Some(zero))));

        let mut top: Vec<(String, PendingFs)> = Vec::new();
        top.push((String::from_str("World"), PendingFs::Folder(Some(world))));

        let r = PendingFs::Root(top);
        proof {
            assert(entries_view(top@)[0] == (top@[0].0@, top@[0].1@));
            assert(entries_view(world@)[0] == (world@[0].0@, world@[0].1@));
            assert(entries_view(zero@)[0] == (zero@[0].0@, zero@[0].1@));
            assert(entries_view(zero@)[1] == (zero@[1].0@, zero@[1].1@));
            assert(entries_view(bricks@)[0] == (bricks@[0].0@, bricks@[0].1@));
            assert(entries_view(entities@)[0] == (entities@[0].0@, entities@[0].1@));
            assert(entries_view(entities@)[1] == (entities@[1].0@, entities@[1].1@));
            assert(r@ == FsView::Root(entries_view(top@)));
            assert(is_patch_tree(
                r@,
                entries_view(old(self).grid_files@),
                entries_view(old(self).entity_files@),
                old(self).chunk_index@,
            ));
        }
        r
    }
}

/// Copies a file's bytes.
fn copy_bytes(bytes: &Vec<u8>) -> (r: Vec<u8>)
    ensures
        r@ == bytes@,
{
    let mut r: Vec<u8> = Vec::new();
    let mut i: usize = 0;
    while i < bytes.len()
        invariant
            i <= bytes@.len(),
            r@ =~= bytes@.take(i as int),
        decreases bytes@.len() - i,
    {
        r.push(bytes[i]);
        proof {
            assert(r@ =~= bytes@.take(i as int + 1));
        }
        i = i + 1;
    }
    proof {
        assert(bytes@.take(bytes@.len() as int) =~= bytes@);
    }
    r
}

} // verus!
