//! The duplication engine.  For each source entity of a chunk it produces
//! one spatially offset duplicate per pattern cell except the origin, each
//! carrying a freshly allocated persistent identity, and files a copy of the
//! source's grid subtree — when it owns one — under every duplicate's new
//! identity.

use crate::entity::{Entity, EntityData};
use crate::errors::Error;
use crate::index::IndexTable;
use crate::pattern::{
    cells, dups_per_entity, duplicate_at, lemma_step_in_range, pattern_wf, placed_source,
    translation_fits, Pattern,
};
use crate::pending::{FsView, PendingFs};
use vstd::prelude::*;

verus! {

/// Every entity of the sequence carries a persistent identity.  Only such
/// entities can be duplication sources.
pub open spec fn all_have_ids(ents: Seq<Entity>) -> bool {
    forall|i: int| 0 <= i < ents.len() ==> (#[trigger] ents[i].id) is Some
}

/// The duplicates of one source entity: one per pattern cell except the
/// origin, in cell order, with identities allocated consecutively from
/// `base`.
pub open spec fn duplicates_of(src: Entity, p: Pattern, base: int) -> Seq<Entity> {
    Seq::new(dups_per_entity(p) as nat, |t: int| duplicate_at(src, p, t + 1, base + t))
}

/// The translations of every entity of the sequence stay within `i64` over
/// the pattern's cells.
pub open spec fn all_fit(ents: Seq<Entity>, p: Pattern) -> bool {
    forall|i: int| 0 <= i < ents.len() ==> translation_fits((#[trigger] ents[i]).location, p)
}

/// A subtree is supplied for an entity exactly when its payload tag marks it
/// as a dynamic-grid owner: the linker fetches the subtree of every owner,
/// and of nothing else.
pub open spec fn subtrees_match(ents: Seq<Entity>, subs: Seq<Option<PendingFs>>) -> bool {
    &&& subs.len() == ents.len()
    &&& forall|i: int|
        0 <= i < ents.len() ==> ((#[trigger] subs[i]) is Some <==> ents[i].data
            == EntityData::DynamicBrickGrid)
}

/// The entities one source contributes to its chunk: the source left in
/// place, followed by its duplicates in cell order.
pub open spec fn entity_block(e: Entity, p: Pattern, base: int) -> Seq<Entity> {
    seq![placed_source(e, p)] + duplicates_of(e, p, base)
}

/// The full entity sequence of a chunk after duplication: each source's
/// block in source order, with identities allocated consecutively from
/// `base`, `dups_per_entity(p)` of them per source.
pub open spec fn chunk_result(ents: Seq<Entity>, p: Pattern, base: int) -> Seq<Entity>
    decreases ents.len(),
{
    if ents.len() <= 0 {
        Seq::empty()
    } else {
        chunk_result(ents.drop_last(), p, base) + entity_block(
            ents.last(),
            p,
            base + (ents.len() - 1) * dups_per_entity(p),
        )
    }
}

/// A replicated grid subtree, to be filed in the overlay under the identity
/// `id`.
#[derive(Debug)]
pub struct GridEntry {
    /// The persistent identity that owns this copy of the subtree.
    pub id: u32,
    /// The subtree content.
    pub subtree: PendingFs,
}

/// The identity and subtree shape of each grid entry.
pub open spec fn grid_views(gs: Seq<GridEntry>) -> Seq<(u32, FsView)> {
    Seq::new(gs.len(), |i: int| (gs[i].id, gs[i].subtree@))
}

/// The grid entries one grid-owning source contributes: one under its own
/// identity, then one per duplicate under the duplicate's fresh identity,
/// all carrying the same subtree content.
pub open spec fn grid_block(owner_id: u32, sub: FsView, p: Pattern, base: int) -> Seq<
    (u32, FsView),
> {
    seq![(owner_id, sub)] + Seq::new(dups_per_entity(p) as nat, |t: int| (((base + t) as u32), sub))
}

/// The grid entries of a whole chunk: for each grid-owning source, its block
/// of entries, in source order.
pub open spec fn chunk_grids(
    ents: Seq<Entity>,
    subs: Seq<Option<PendingFs>>,
    p: Pattern,
    base: int,
) -> Seq<(u32, FsView)>
    recommends
        subs.len() == ents.len(),
    decreases ents.len(),
{
    if ents.len() <= 0 {
        Seq::empty()
    } else {
        chunk_grids(ents.drop_last(), subs.take(ents.len() - 1), p, base) + (match (
        subs[ents.len() - 1], ents.last().id) {
            (Some(sub), Some(owner_id)) => grid_block(
                owner_id,
                sub@,
                p,
                base + (ents.len() - 1) * dups_per_entity(p),
            ),
            _ => Seq::empty(),
        })
    }
}

/// Produces the duplicates of one source entity, allocating one fresh
/// identity per duplicate and recording each created entity in the chunk at
/// `chunk_pos` of the table.  An entity without a persistent identity cannot
/// be a duplication source and is rejected; the table is then untouched.
pub fn duplicate_entity(src: &Entity, p: &Pattern, table: &mut IndexTable, chunk_pos: usize) -> (r:
    Result<Vec<Entity>, Error>)
    requires
        pattern_wf(*p),
        translation_fits(src.location, *p),
        chunk_pos < old(table).num_entities@.len(),
        old(table).next_persistent_index + dups_per_entity(*p) <= u32::MAX,
        old(table).num_entities@[chunk_pos as int] + dups_per_entity(*p) <= u32::MAX,
    ensures
        final(table).chunk_keys@ == old(table).chunk_keys@,
        match r {
            Ok(dups) => {
                &&& src.id is Some
                &&& dups@ == duplicates_of(*src, *p, old(table).next_persistent_index as int)
                &&& final(table).next_persistent_index == old(table).next_persistent_index
                    + dups_per_entity(*p)
                &&& final(table).num_entities@ == old(table).num_entities@.update(
                    chunk_pos as int,
                    (old(table).num_entities@[chunk_pos as int] + dups_per_entity(*p)) as u32,
                )
            },
            Err(e) => {
                &&& src.id is None
                &&& e == Error::InvariantViolation
                &&& *final(table) == *old(table)
            },
        },
{
    if src.id.is_none() {
        return Err(Error::InvariantViolation);
    }
    let ghost base = table.next_persistent_index as int;
    let ghost counts0 = table.num_entities@;
    let ghost count0 = table.num_entities@[chunk_pos as int];
    let rows64: u64 = p.rows as u64;
    let cell_count: u64 = (p.columns as u64) * rows64;
    let mut dups: Vec<Entity> = Vec::new();
    let mut t: u64 = 1;
    proof {
        assert(cell_count == cells(*p) && 1 <= cell_count) by (nonlinear_arith)
            requires
                cell_count == (p.columns as u64) * (p.rows as u64),
                cells(*p) == p.columns * p.rows,
                1 <= p.columns,
                1 <= p.rows,
        ;
        assert(counts0.update(chunk_pos as int, count0 as u32) =~= counts0);
    }
    while t < cell_count
        invariant
            pattern_wf(*p),
            translation_fits(src.location, *p),
            rows64 == p.rows,
            cell_count == cells(*p),
            1 <= t <= cell_count,
            chunk_pos < table.num_entities@.len(),
            base + dups_per_entity(*p) <= u32::MAX,
            count0 + dups_per_entity(*p) <= u32::MAX,
            counts0.len() == table.num_entities@.len(),
            count0 == counts0[chunk_pos as int],
            dups@ =~= duplicates_of(*src, *p, base).take(t - 1),
            table.next_persistent_index == base + t - 1,
            table.num_entities@ == counts0.update(chunk_pos as int, (count0 + t - 1) as u32),
            table.chunk_keys@ == old(table).chunk_keys@,
        decreases cell_count - t,
    {
        let col64: u64 = t / rows64;
        let row64: u64 = t % rows64;
        proof {
            assert(col64 < p.columns && row64 < p.rows) by (nonlinear_arith)
                requires
                    col64 == t as int / p.rows as int,
                    row64 == t as int % p.rows as int,
                    1 <= p.rows,
                    1 <= p.columns,
                    0 <= t < p.columns * p.rows,
            ;
            lemma_step_in_range(
                p.step as int,
                col64 as int,
                p.columns - 1,
                src.location.x as int,
            );
            lemma_step_in_range(p.step as int, row64 as int, p.rows - 1, src.location.y as int);
        }
        let dx: i64 = p.step * (col64 as i64);
        let dy: i64 = p.step * (row64 as i64);
        let id: u32 = table.next_id();
        let dup = Entity {
            id: Some(id),
            location: crate::entity::Vec3 {
                x: src.location.x + dx,
                y: src.location.y + dy,
                z: src.location.z,
            },
            frozen: src.frozen || p.freeze_source,
            data: src.data,
        };
        proof {
            assert(dup == duplicate_at(*src, *p, t as int, base + t - 1));
        }
        dups.push(dup);
        table.record_created(chunk_pos);
        proof {
            assert(dups@ =~= duplicates_of(*src, *p, base).take(t as int));
            assert(table.num_entities@ =~= counts0.update(chunk_pos as int, (count0 + t) as u32));
        }
        t = t + 1;
    }
    proof {
        assert(duplicates_of(*src, *p, base).take(cell_count - 1) =~= duplicates_of(
            *src,
            *p,
            base,
        ));
        assert(table.num_entities@ == counts0.update(
            chunk_pos as int,
            (count0 + dups_per_entity(*p)) as u32,
        ));
    }
    Ok(dups)
}

/// Filing one more grid entry appends its identity and subtree shape to the
/// entries' views.
proof fn lemma_grid_views_push(gs: Seq<GridEntry>, g: GridEntry)
    ensures
        grid_views(gs.push(g)) == grid_views(gs).push((g.id, g.subtree@)),
{
    assert(grid_views(gs.push(g)) =~= grid_views(gs).push((g.id, g.subtree@)));
}

/// Extending the processed prefix by one source entity appends that source's
/// block to the chunk's entity sequence.
proof fn lemma_chunk_result_step(ents: Seq<Entity>, p: Pattern, base: int, i: int)
    requires
        0 <= i < ents.len(),
    ensures
        chunk_result(ents.take(i + 1), p, base) == chunk_result(ents.take(i), p, base)
            + entity_block(ents[i], p, base + i * dups_per_entity(p)),
{
    let s1 = ents.take(i + 1);
    assert(s1.drop_last() =~= ents.take(i));
    assert(s1.last() == ents[i]);
}

/// Extending the processed prefix by one source entity appends that source's
/// grid block — or nothing, when it owns no subtree — to the chunk's grid
/// entries.
pub proof fn lemma_chunk_grids_step(
    ents: Seq<Entity>,
    subs: Seq<Option<PendingFs>>,
    p: Pattern,
    base: int,
    i: int,
)
    requires
        0 <= i < ents.len(),
        subs.len() == ents.len(),
    ensures
        chunk_grids(ents.take(i + 1), subs.take(i + 1), p, base) == chunk_grids(
            ents.take(i),
            subs.take(i),
            p,
            base,
        ) + (match (subs[i], ents[i].id) {
            (Some(sub), Some(owner_id)) => grid_block(
                owner_id,
                sub@,
                p,
                base + i * dups_per_entity(p),
            ),
            _ => Seq::empty(),
        }),
{
    let s1 = ents.take(i + 1);
    let b1 = subs.take(i + 1);
    assert(s1.drop_last() =~= ents.take(i));
    assert(b1.take(s1.len() - 1) =~= subs.take(i));
    assert(s1.last() == ents[i]);
    assert(b1[s1.len() - 1] == subs[i]);
}

/// What one chunk's duplication produces: the chunk's full entity sequence,
/// originals and duplicates, and the grid entries to file in the overlay.
#[derive(Debug)]
pub struct ChunkOutput {
    /// Every entity destined for the chunk, sources and duplicates, in the
    /// order they are to be encoded.
    pub entities: Vec<Entity>,
    /// The replicated grid subtrees, keyed by owning identity.
    pub grids: Vec<GridEntry>,
}

/// Tests whether every entity of the sequence carries a persistent
/// identity.
fn check_ids(ents: &Vec<Entity>) -> (b: bool)
    ensures
        b == all_have_ids(ents@),
{
    let mut i: usize = 0;
    while i < ents.len()
        invariant
            i <= ents@.len(),
            forall|j: int| 0 <= j < i ==> (#[trigger] ents@[j].id) is Some,
        decreases ents@.len() - i,
    {
        if ents[i].id.is_none() {
            return false;
        }
        i = i + 1;
    }
    true
}

/// Duplicates every entity of one chunk over the pattern.  Each source stays
/// in place and yields `columns * rows - 1` duplicates with consecutively
/// allocated identities; each grid-owning source's subtree is filed once
/// under its own identity and once under each duplicate's.  An entity
/// without a persistent identity is rejected, and the table is then left
/// untouched.
///
/// Duplicates stay filed in their source's chunk even where the translated
/// location falls outside the chunk's spatial bounds; re-bucketing a
/// duplicate into the chunk matching its new location is a policy this
/// engine does not apply.
pub fn duplicate_chunk(
    entities: &Vec<Entity>,
    subtrees: &Vec<Option<PendingFs>>,
    p: &Pattern,
    table: &mut IndexTable,
    chunk_pos: usize,
) -> (r: Result<ChunkOutput, Error>)
    requires
        pattern_wf(*p),
        all_fit(entities@, *p),
        subtrees_match(entities@, subtrees@),
        chunk_pos < old(table).num_entities@.len(),
        old(table).next_persistent_index + entities@.len() * dups_per_entity(*p) <= u32::MAX,
        old(table).num_entities@[chunk_pos as int] + entities@.len() * dups_per_entity(*p)
            <= u32::MAX,
    ensures
        final(table).chunk_keys@ == old(table).chunk_keys@,
        match r {
            Ok(out) => {
                &&& all_have_ids(entities@)
                &&& out.entities@ == chunk_result(
                    entities@,
                    *p,
                    old(table).next_persistent_index as int,
                )
                &&& grid_views(out.grids@) == chunk_grids(
                    entities@,
                    subtrees@,
                    *p,
                    old(table).next_persistent_index as int,
                )
                &&& final(table).next_persistent_index == old(table).next_persistent_index
                    + entities@.len() * dups_per_entity(*p)
                &&& final(table).num_entities@ == old(table).num_entities@.update(
                    chunk_pos as int,
                    (old(table).num_entities@[chunk_pos as int] + entities@.len()
                        * dups_per_entity(*p)) as u32,
                )
            },
            Err(e) => {
                &&& !all_have_ids(entities@)
                &&& e == Error::InvariantViolation
                &&& *final(table) == *old(table)
            },
        },
{
    let n = entities.len();
    if !check_ids(entities) {
        return Err(Error::InvariantViolation);
    }
    let ghost base = table.next_persistent_index as int;
    let ghost counts0 = table.num_entities@;
    let ghost count0 = table.num_entities@[chunk_pos as int];
    let ghost dpe = dups_per_entity(*p);
    let mut out_entities: Vec<Entity> = Vec::new();
    let mut out_grids: Vec<GridEntry> = Vec::new();
    proof {
        assert(1 <= cells(*p)) by (nonlinear_arith)
            requires
                1 <= p.columns,
                1 <= p.rows,
                cells(*p) == p.columns * p.rows,
        ;
        assert(counts0.update(chunk_pos as int, count0 as u32) =~= counts0);
        assert(chunk_result(entities@.take(0), *p, base) =~= Seq::<Entity>::empty());
        assert(chunk_grids(entities@.take(0), subtrees@.take(0), *p, base) =~= Seq::<
            (u32, FsView),
        >::empty());
        assert(grid_views(out_grids@) =~= Seq::<(u32, FsView)>::empty());
    }
    let mut i: usize = 0;
    while i < n
        invariant
            pattern_wf(*p),
            all_fit(entities@, *p),
            subtrees_match(entities@, subtrees@),
            all_have_ids(entities@),
            n == entities@.len(),
            i <= n,
            dpe == dups_per_entity(*p),
            0 <= dpe,
            chunk_pos < table.num_entities@.len(),
            base + n * dpe <= u32::MAX,
            count0 + n * dpe <= u32::MAX,
            counts0.len() == table.num_entities@.len(),
            count0 == counts0[chunk_pos as int],
            out_entities@ =~= chunk_result(entities@.take(i as int), *p, base),
            grid_views(out_grids@) =~= chunk_grids(
                entities@.take(i as int),
                subtrees@.take(i as int),
                *p,
                base,
            ),
            table.next_persistent_index == base + i * dpe,
            table.num_entities@ == counts0.update(chunk_pos as int, (count0 + i * dpe) as u32),
            table.chunk_keys@ == old(table).chunk_keys@,
        decreases n - i,
    {
        proof {
            assert((i + 1) * dpe <= n * dpe && 0 <= i * dpe && (i + 1) * dpe == i * dpe + dpe)
                by (nonlinear_arith)
                requires
                    0 <= i < n,
                    0 <= dpe,
            ;
        }
        let e = entities[i];
        // The fallback arm is dead: every identity was checked above.
        let gid: u32 = match e.id {
            Some(g) => g,
            None => 0,
        };
        proof {
            assert(e.id == Some(gid));
        }
        let ghost base_i = table.next_persistent_index as int;
        // The error arm is dead: an entity without an identity was rejected
        // by the validation pass above.
        let dups = match duplicate_entity(&e, p, table, chunk_pos) {
            Ok(d) => d,
            Err(er) => {
                proof {
                    assert(false);
                }
                return Err(er);
            },
        };
        match &subtrees[i] {
            Some(sub) => {
                let ghost subv = sub@;
                let ghost grids_before = out_grids@;
                let ghost block = grid_block(gid, subv, *p, base_i);
                let owner_entry = GridEntry { id: gid, subtree: sub.deep_copy() };
                proof {
                    lemma_grid_views_push(out_grids@, owner_entry);
                    assert(block[0] == (gid, subv));
                    assert(grid_views(grids_before).push(block[0]) =~= grid_views(grids_before)
                        + block.take(1));
                }
                out_grids.push(owner_entry);
                let mut k: usize = 0;
                while k < dups.len()
                    invariant
                        dups@ == duplicates_of(e, *p, base_i),
                        dups@.len() == dpe,
                        dpe == dups_per_entity(*p),
                        pattern_wf(*p),
                        k <= dups@.len(),
                        base_i + dpe <= u32::MAX,
                        0 <= base_i,
                        subv == sub@,
                        block == grid_block(gid, subv, *p, base_i),
                        block.len() == dpe + 1,
                        grid_views(out_grids@) =~= grid_views(grids_before) + block.take(k + 1),
                    decreases dups@.len() - k,
                {
                    // The fallback arm is dead: every duplicate carries an
                    // identity.
                    let did: u32 = match dups[k].id {
                        Some(d) => d,
                        None => 0,
                    };
                    let entry = GridEntry { id: did, subtree: sub.deep_copy() };
                    proof {
                        assert(dups@[k as int] == duplicate_at(e, *p, k as int + 1, base_i + k));
                        assert(did == base_i + k);
                        assert(block[k + 1] == (((base_i + k) as u32), subv));
                        assert(entry.subtree@ == subv);
                        assert(entry.id == ((base_i + k) as u32));
                        assert((entry.id, entry.subtree@) == block[k + 1]);
                        lemma_grid_views_push(out_grids@, entry);
                        assert((grid_views(grids_before) + block.take(k + 1)).push(block[k + 1])
                            =~= grid_views(grids_before) + block.take(k + 2));
                    }
                    out_grids.push(entry);
                    k = k + 1;
                }
                proof {
                    assert(block.take(dpe + 1) =~= block);
                }
            },
            None => {},
        }
        let placed = Entity { frozen: e.frozen || p.freeze_source, ..e };
        proof {
            assert(placed == placed_source(e, *p));
        }
        let ghost ents_before = out_entities@;
        out_entities.push(placed);
        let mut k: usize = 0;
        while k < dups.len()
            invariant
                dups@ == duplicates_of(e, *p, base_i),
                k <= dups@.len(),
                out_entities@ =~= ents_before + seq![placed_source(e, *p)] + dups@.take(k as int),
            decreases dups@.len() - k,
        {
            out_entities.push(dups[k]);
            k = k + 1;
        }
        proof {
            assert(dups@.take(dups@.len() as int) =~= dups@);
            lemma_chunk_result_step(entities@, *p, base, i as int);
            lemma_chunk_grids_step(entities@, subtrees@, *p, base, i as int);
            assert(out_entities@ =~= chunk_result(entities@.take(i as int + 1), *p, base));
            assert(grid_views(out_grids@) =~= chunk_grids(
                entities@.take(i as int + 1),
                subtrees@.take(i as int + 1),
                *p,
                base,
            ));
            assert(table.num_entities@ =~= counts0.update(
                chunk_pos as int,
                (count0 + (i + 1) * dpe) as u32,
            ));
        }
        i = i + 1;
    }
    proof {
        assert(entities@.take(n as int) =~= entities@);
        assert(subtrees@.take(n as int) =~= subtrees@);
    }
    Ok(ChunkOutput { entities: out_entities, grids: out_grids })
}

/// One chunk's input to a run: its decoded entities and, for each
/// grid-owning entity, its fetched subtree.
pub struct ChunkWork {
    /// The chunk's entities, decoded from the base store.
    pub entities: Vec<Entity>,
    /// Parallel to `entities`: the grid subtree of each dynamic-grid owner,
    /// `None` for every other entity.
    pub subtrees: Vec<Option<PendingFs>>,
}

/// The total number of source entities across the chunks of a run.
pub open spec fn total_sources(works: Seq<ChunkWork>) -> int
    decreases works.len(),
{
    if works.len() <= 0 {
        0
    } else {
        total_sources(works.drop_last()) + works.last().entities@.len()
    }
}

/// The identity counter's value when the run reaches chunk `i`: the starting
/// value plus one allocation per duplicate already produced.
pub open spec fn base_at(works: Seq<ChunkWork>, p: Pattern, base: int, i: int) -> int {
    base + total_sources(works.take(i)) * dups_per_entity(p)
}

/// Processing one more chunk adds its source count to the running total.
pub proof fn lemma_total_sources_step(works: Seq<ChunkWork>, i: int)
    requires
        0 <= i < works.len(),
    ensures
        total_sources(works.take(i + 1)) == total_sources(works.take(i))
            + works[i].entities@.len(),
{
    let s1 = works.take(i + 1);
    assert(s1.drop_last() =~= works.take(i));
    assert(s1.last() == works[i]);
}

/// A run's source total is nonnegative.
proof fn lemma_total_sources_nonneg(works: Seq<ChunkWork>)
    ensures
        0 <= total_sources(works),
    decreases works.len(),
{
    if works.len() > 0 {
        lemma_total_sources_nonneg(works.drop_last());
    }
}

/// No prefix of a run holds more sources than the whole run.
proof fn lemma_total_sources_prefix(works: Seq<ChunkWork>, i: int)
    requires
        0 <= i <= works.len(),
    ensures
        total_sources(works.take(i)) <= total_sources(works),
    decreases works.len() - i,
{
    if i == works.len() {
        assert(works.take(i) =~= works);
    } else {
        lemma_total_sources_step(works, i);
        lemma_total_sources_prefix(works, i + 1);
    }
}

/// Runs the duplication over every chunk of the world in order, threading
/// the one shared identity counter through the chunks sequentially.  Chunk
/// `i` of the run is the chunk at position `i` of the table.  The counter
/// never decreases; after a successful run it has advanced by exactly one
/// allocation per duplicate created, `dups_per_entity(p)` of them per source
/// entity.  If any entity of any chunk lacks a persistent identity the run
/// fails as a whole and the table is left untouched.
pub fn duplicate_world(works: &Vec<ChunkWork>, p: &Pattern, table: &mut IndexTable) -> (r: Result<
    Vec<ChunkOutput>,
    Error,
>)
    requires
        pattern_wf(*p),
        old(table).wf(),
        works@.len() == old(table).num_entities@.len(),
        forall|i: int|
            0 <= i < works@.len() ==> all_fit((#[trigger] works@[i]).entities@, *p)
                && subtrees_match(works@[i].entities@, works@[i].subtrees@),
        old(table).next_persistent_index + total_sources(works@) * dups_per_entity(*p)
            <= u32::MAX,
        forall|i: int|
            0 <= i < works@.len() ==> (#[trigger] old(table).num_entities@[i])
                + works@[i].entities@.len() * dups_per_entity(*p) <= u32::MAX,
    ensures
        final(table).wf(),
        final(table).chunk_keys@ == old(table).chunk_keys@,
        final(table).next_persistent_index >= old(table).next_persistent_index,
        match r {
            Ok(outs) => {
                &&& forall|i: int|
                    0 <= i < works@.len() ==> all_have_ids((#[trigger] works@[i]).entities@)
                &&& outs@.len() == works@.len()
                &&& forall|i: int|
                    0 <= i < works@.len() ==> (#[trigger] outs@[i]).entities@ == chunk_result(
                        works@[i].entities@,
                        *p,
                        base_at(works@, *p, old(table).next_persistent_index as int, i),
                    ) && grid_views(outs@[i].grids@) == chunk_grids(
                        works@[i].entities@,
                        works@[i].subtrees@,
                        *p,
                        base_at(works@, *p, old(table).next_persistent_index as int, i),
                    )
                &&& final(table).next_persistent_index == old(table).next_persistent_index
                    + total_sources(works@) * dups_per_entity(*p)
                &&& final(table).num_entities@.len() == old(table).num_entities@.len()
                &&& forall|i: int|
                    0 <= i < works@.len() ==> (#[trigger] final(table).num_entities@[i]) == old(
                        table,
                    ).num_entities@[i] + works@[i].entities@.len() * dups_per_entity(*p)
            },
            Err(e) => {
                &&& exists|i: int|
                    0 <= i < works@.len() && !all_have_ids((#[trigger] works@[i]).entities@)
                &&& e == Error::InvariantViolation
                &&& *final(table) == *old(table)
            },
        },
{
    let m = works.len();
    let mut i: usize = 0;
    while i < m
        invariant
            m == works@.len(),
            i <= m,
            *table == *old(table),
            old(table).wf(),
            forall|j: int| 0 <= j < i ==> all_have_ids((#[trigger] works@[j]).entities@),
        decreases m - i,
    {
        if !check_ids(&works[i].entities) {
            return Err(Error::InvariantViolation);
        }
        i = i + 1;
    }
    let ghost base = table.next_persistent_index as int;
    let ghost counts0 = table.num_entities@;
    let ghost dpe = dups_per_entity(*p);
    proof {
        lemma_total_sources_nonneg(works@);
        assert(works@.take(0) =~= Seq::<ChunkWork>::empty());
        assert(1 <= cells(*p)) by (nonlinear_arith)
            requires
                1 <= p.columns,
                1 <= p.rows,
                cells(*p) == p.columns * p.rows,
        ;
    }
    let mut outs: Vec<ChunkOutput> = Vec::new();
    let mut i: usize = 0;
    while i < m
        invariant
            pattern_wf(*p),
            m == works@.len(),
            i <= m,
            dpe == dups_per_entity(*p),
            0 <= dpe,
            base == old(table).next_persistent_index,
            counts0 == old(table).num_entities@,
            m == counts0.len(),
            forall|j: int|
                0 <= j < m ==> all_fit((#[trigger] works@[j]).entities@, *p) && subtrees_match(
                    works@[j].entities@,
                    works@[j].subtrees@,
                ),
            forall|j: int| 0 <= j < m ==> all_have_ids((#[trigger] works@[j]).entities@),
            base + total_sources(works@) * dpe <= u32::MAX,
            forall|j: int|
                0 <= j < m ==> (#[trigger] counts0[j]) + works@[j].entities@.len() * dpe
                    <= u32::MAX,
            outs@.len() == i,
            forall|j: int|
                0 <= j < i ==> (#[trigger] outs@[j]).entities@ == chunk_result(
                    works@[j].entities@,
                    *p,
                    base_at(works@, *p, base, j),
                ) && grid_views(outs@[j].grids@) == chunk_grids(
                    works@[j].entities@,
                    works@[j].subtrees@,
                    *p,
                    base_at(works@, *p, base, j),
                ),
            table.next_persistent_index == base + total_sources(works@.take(i as int)) * dpe,
            table.num_entities@.len() == m,
            forall|j: int|
                0 <= j < m ==> (#[trigger] table.num_entities@[j]) == if j < i {
                    counts0[j] + works@[j].entities@.len() * dpe
                } else {
                    counts0[j] as int
                },
            table.chunk_keys@ == old(table).chunk_keys@,
        decreases m - i,
    {
        let ghost sources_before = total_sources(works@.take(i as int));
        let ghost n_i = works@[i as int].entities@.len();
        proof {
            lemma_total_sources_nonneg(works@.take(i as int));
            lemma_total_sources_step(works@, i as int);
            lemma_total_sources_prefix(works@, i as int + 1);
            lemma_total_sources_nonneg(works@);
            assert((sources_before + n_i) * dpe <= total_sources(works@) * dpe && sources_before
                * dpe + n_i * dpe == (sources_before + n_i) * dpe && 0 <= sources_before * dpe)
                by (nonlinear_arith)
                requires
                    0 <= dpe,
                    0 <= sources_before,
                    0 <= n_i,
                    sources_before + n_i <= total_sources(works@),
            ;
        }
        let work = &works[i];
        // The error arm is dead: every chunk's identities were checked
        // before any allocation.
        let out = match duplicate_chunk(&work.entities, &work.subtrees, p, table, i) {
            Ok(out) => out,
            Err(er) => {
                proof {
                    assert(false);
                }
                return Err(er);
            },
        };
        outs.push(out);
        i = i + 1;
    }
    proof {
        assert(works@.take(m as int) =~= works@);
    }
    Ok(outs)
}

} // verus!
