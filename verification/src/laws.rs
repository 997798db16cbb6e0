//! The laws of the duplication engine, stated over its mathematical model
//! and proved once for all inputs.

use crate::dup::{
    all_have_ids, chunk_grids, chunk_result, duplicates_of, entity_block, grid_block,
};
use crate::entity::Entity;
use crate::pattern::{
    cell_col, cell_row, cells, dups_per_entity, duplicate_at, lemma_step_in_range, pattern_wf,
    placed_source, translation_fits, Pattern,
};
use crate::pending::{FsView, PendingFs};
use vstd::arithmetic::div_mod::lemma_fundamental_div_mod;
use vstd::prelude::*;

verus! {

/// A well-formed pattern has at least its origin cell, so every source
/// yields a nonnegative number of duplicates: one per cell but the origin.
pub proof fn lemma_cells_split(p: Pattern)
    requires
        pattern_wf(p),
    ensures
        1 <= cells(p),
        0 <= dups_per_entity(p),
        cells(p) == dups_per_entity(p) + 1,
{
    assert(1 <= cells(p)) by (nonlinear_arith)
        requires
            1 <= p.columns,
            1 <= p.rows,
            cells(p) == p.columns * p.rows,
    ;
}

/// One source's block holds the source and its duplicates: `cells(p)`
/// entities in all.
pub proof fn lemma_block_len(e: Entity, p: Pattern, base: int)
    requires
        pattern_wf(p),
    ensures
        entity_block(e, p, base).len() == cells(p),
        entity_block(e, p, base)[0] == placed_source(e, p),
        forall|t: int|
            1 <= t < cells(p) ==> entity_block(e, p, base)[t] == duplicate_at(
                e,
                p,
                t,
                base + t - 1,
            ),
{
    lemma_cells_split(p);
    assert forall|t: int| 1 <= t < cells(p) implies entity_block(e, p, base)[t] == duplicate_at(
        e,
        p,
        t,
        base + t - 1,
    ) by {
        assert(entity_block(e, p, base)[t] == duplicates_of(e, p, base)[t - 1]);
    }
}

/// A chunk's entity count after duplication is its source count times the
/// pattern's cell count.
pub proof fn lemma_chunk_entity_count(ents: Seq<Entity>, p: Pattern, base: int)
    requires
        pattern_wf(p),
    ensures
        chunk_result(ents, p, base).len() == ents.len() * cells(p),
    decreases ents.len(),
{
    lemma_cells_split(p);
    if ents.len() == 0 {
    } else {
        let n = ents.len() as int;
        lemma_chunk_entity_count(ents.drop_last(), p, base);
        lemma_block_len(ents.last(), p, base + (n - 1) * dups_per_entity(p));
        assert((n - 1) * cells(p) + cells(p) == n * cells(p)) by (nonlinear_arith);
    }
}

/// Where every entity of a duplicated chunk stands and what it is: position
/// `i * cells(p)` holds source `i`, left in place, and position
/// `i * cells(p) + t` for `1 <= t < cells(p)` holds its duplicate for cell
/// `t`, carrying the `(i * dups_per_entity(p) + t - 1)`-th identity
/// allocated in the chunk's run.
pub proof fn lemma_chunk_result_index(ents: Seq<Entity>, p: Pattern, base: int, i: int, t: int)
    requires
        pattern_wf(p),
        0 <= i < ents.len(),
        0 <= t < cells(p),
    ensures
        chunk_result(ents, p, base)[i * cells(p) + t] == if t == 0 {
            placed_source(ents[i], p)
        } else {
            duplicate_at(ents[i], p, t, base + i * dups_per_entity(p) + t - 1)
        },
    decreases ents.len(),
{
    lemma_cells_split(p);
    let n = ents.len() as int;
    let c = cells(p);
    let dpe = dups_per_entity(p);
    lemma_chunk_entity_count(ents.drop_last(), p, base);
    lemma_block_len(ents.last(), p, base + (n - 1) * dpe);
    if i == n - 1 {
        assert(i * c + t - (n - 1) * c == t);
        assert(chunk_result(ents, p, base)[i * c + t] == entity_block(
            ents.last(),
            p,
            base + (n - 1) * dpe,
        )[t]);
    } else {
        lemma_chunk_result_index(ents.drop_last(), p, base, i, t);
        assert(0 <= i * c && i * c + t < (n - 1) * c) by (nonlinear_arith)
            requires
                0 <= i < n - 1,
                0 <= t < c,
        ;
        assert(ents.drop_last()[i] == ents[i]);
    }
}

/// Where a duplicate lands and what it carries: its location is the
/// source's, translated by the cell's offsets along the two axes, the
/// vertical coordinate untouched; the origin cell is never among the
/// duplicates, so the source is preserved and not cloned onto itself; and
/// the payload is the source's own.
pub proof fn lemma_duplicate_geometry(e: Entity, p: Pattern, t: int, id: int)
    requires
        pattern_wf(p),
        translation_fits(e.location, p),
        1 <= t < cells(p),
    ensures
        ({
            let d = duplicate_at(e, p, t, id);
            let col = cell_col(p, t);
            let row = cell_row(p, t);
            &&& d.location.x == e.location.x + p.step * col
            &&& d.location.y == e.location.y + p.step * row
            &&& d.location.z == e.location.z
            &&& 0 <= col < p.columns
            &&& 0 <= row < p.rows
            &&& !(col == 0 && row == 0)
            &&& d.data == e.data
            &&& d.frozen == (e.frozen || p.freeze_source)
        }),
{
    let col = cell_col(p, t);
    let row = cell_row(p, t);
    assert(0 <= col < p.columns && 0 <= row < p.rows && !(col == 0 && row == 0))
        by (nonlinear_arith)
        requires
            col == t / (p.rows as int),
            row == t % (p.rows as int),
            1 <= p.rows,
            1 <= p.columns,
            1 <= t < p.columns * p.rows,
            cells(p) == p.columns * p.rows,
    ;
    lemma_step_in_range(p.step as int, col, p.columns - 1, e.location.x as int);
    lemma_step_in_range(p.step as int, row, p.rows - 1, e.location.y as int);
}

/// Every entity of a duplicated chunk carries a persistent identity, so a
/// later run can take the output as its source without error.
pub proof fn lemma_output_has_ids(ents: Seq<Entity>, p: Pattern, base: int)
    requires
        pattern_wf(p),
        all_have_ids(ents),
    ensures
        all_have_ids(chunk_result(ents, p, base)),
    decreases ents.len(),
{
    lemma_cells_split(p);
    if ents.len() > 0 {
        let n = ents.len() as int;
        let block = entity_block(ents.last(), p, base + (n - 1) * dups_per_entity(p));
        lemma_output_has_ids(ents.drop_last(), p, base);
        lemma_block_len(ents.last(), p, base + (n - 1) * dups_per_entity(p));
        assert(ents.last().id is Some);
        assert forall|j: int| 0 <= j < block.len() implies (#[trigger] block[j].id) is Some by {
            if j > 0 {
                assert(block[j] == duplicate_at(
                    ents.last(),
                    p,
                    j,
                    base + (n - 1) * dups_per_entity(p) + j - 1,
                ));
            }
        }
        assert(all_have_ids(ents.drop_last()));
        assert forall|j: int|
            0 <= j < chunk_result(ents, p, base).len() implies (#[trigger] chunk_result(
            ents,
            p,
            base,
        )[j].id) is Some by {
            let prefix = chunk_result(ents.drop_last(), p, base);
            if j < prefix.len() {
                assert(chunk_result(ents, p, base)[j] == prefix[j]);
            } else {
                assert(chunk_result(ents, p, base)[j] == block[j - prefix.len()]);
            }
        }
    }
}

/// The persistent identities present in a sequence of entities.
pub open spec fn id_set(ents: Seq<Entity>) -> Set<Option<u32>> {
    Set::new(|x: Option<u32>| exists|j: int| 0 <= j < ents.len() && ents[j].id == x)
}

/// The identities the allocator issues in a run over a chunk: `count`
/// consecutive values from `base`.
pub open spec fn allocated_ids(base: int, count: int) -> Set<Option<u32>> {
    Set::new(
        |x: Option<u32>| exists|k: int| #![trigger (base + k) as u32] 0 <= k < count && x == Some((base + k) as u32),
    )
}

/// A position of the duplicated chunk splits into its source's index and
/// its cell within the source's block.
proof fn lemma_position_decompose(n: int, c: int, j: int)
    requires
        1 <= c,
        0 <= j < n * c,
    ensures
        0 <= j / c < n,
        0 <= j % c < c,
        j == (j / c) * c + j % c,
{
    lemma_fundamental_div_mod(j, c);
    assert(0 <= j / c < n && 0 <= j % c < c && j == (j / c) * c + j % c) by (nonlinear_arith)
        requires
            1 <= c,
            0 <= j < n * c,
            j == c * (j / c) + j % c,
            0 <= j % c < c,
    ;
}

/// The identities of a duplicated chunk are exactly the union of the
/// sources' identities and the range of freshly allocated ones: one
/// consecutive value per duplicate, with no gap.
pub proof fn lemma_chunk_identity_set(ents: Seq<Entity>, p: Pattern, base: int)
    requires
        pattern_wf(p),
    ensures
        id_set(chunk_result(ents, p, base)) == id_set(ents).union(
            allocated_ids(base, ents.len() * dups_per_entity(p)),
        ),
{
    lemma_cells_split(p);
    lemma_chunk_entity_count(ents, p, base);
    let out = chunk_result(ents, p, base);
    let n = ents.len() as int;
    let c = cells(p);
    let dpe = dups_per_entity(p);
    let lhs = id_set(out);
    let rhs = id_set(ents).union(allocated_ids(base, n * dpe));
    assert forall|x: Option<u32>| lhs.contains(x) implies rhs.contains(x) by {
        let j = choose|j: int| 0 <= j < out.len() && out[j].id == x;
        lemma_position_decompose(n, c, j);
        let i = j / c;
        let t = j % c;
        lemma_chunk_result_index(ents, p, base, i, t);
        if t == 0 {
            assert(ents[i].id == x);
        } else {
            let k = i * dpe + t - 1;
            assert(0 <= k < n * dpe) by (nonlinear_arith)
                requires
                    0 <= i < n,
                    1 <= t < c,
                    dpe == c - 1,
                    k == i * dpe + t - 1,
            ;
            assert(x == Some((base + k) as u32));
        }
    }
    assert forall|x: Option<u32>| rhs.contains(x) implies lhs.contains(x) by {
        if id_set(ents).contains(x) {
            let i = choose|i: int| 0 <= i < ents.len() && ents[i].id == x;
            lemma_chunk_result_index(ents, p, base, i, 0);
            assert(0 <= i * c < n * c) by (nonlinear_arith)
                requires
                    0 <= i < n,
                    1 <= c,
            ;
            assert(out[i * c].id == x);
        } else {
            let k = choose|k: int|
                #![trigger (base + k) as u32]
                0 <= k < n * dpe && x == Some((base + k) as u32);
            lemma_fundamental_div_mod(k, dpe);
            let i = k / dpe;
            let t = k % dpe + 1;
            assert(0 <= i < n && 1 <= t < c && k == i * dpe + t - 1) by (nonlinear_arith)
                requires
                    1 <= dpe,
                    0 <= k < n * dpe,
                    k == dpe * (k / dpe) + k % dpe,
                    0 <= k % dpe < dpe,
                    i == k / dpe,
                    t == k % dpe + 1,
                    c == dpe + 1,
            ;
            lemma_chunk_result_index(ents, p, base, i, t);
            let j = i * c + t;
            assert(0 <= j < n * c) by (nonlinear_arith)
                requires
                    0 <= i < n,
                    0 <= t < c,
                    j == i * c + t,
            ;
            assert(out[j].id == x);
        }
    }
    assert(lhs =~= rhs);
}

/// After duplicating a chunk whose sources carry pairwise distinct
/// identities, all smaller than the allocator's counter — as seeding from
/// the base store guarantees — every entity of the chunk carries an
/// identity different from every other's: the counter never reuses a value,
/// within the run or against what existed before it.
pub proof fn lemma_identity_uniqueness(ents: Seq<Entity>, p: Pattern, base: int)
    requires
        pattern_wf(p),
        all_have_ids(ents),
        forall|i: int|
            0 <= i < ents.len() ==> ((#[trigger] ents[i].id) matches Some(g) && g < base),
        forall|i1: int, i2: int|
            #![trigger ents[i1].id, ents[i2].id]
            0 <= i1 < i2 < ents.len() ==> ents[i1].id != ents[i2].id,
        0 <= base,
        base + ents.len() * dups_per_entity(p) <= u32::MAX,
    ensures
        forall|j1: int, j2: int|
            #![trigger chunk_result(ents, p, base)[j1].id, chunk_result(ents, p, base)[j2].id]
            0 <= j1 < j2 < chunk_result(ents, p, base).len() ==> chunk_result(ents, p, base)[j1].id
                != chunk_result(ents, p, base)[j2].id,
{
    lemma_cells_split(p);
    lemma_chunk_entity_count(ents, p, base);
    let out = chunk_result(ents, p, base);
    let n = ents.len() as int;
    let c = cells(p);
    let dpe = dups_per_entity(p);
    assert forall|j1: int, j2: int|
        #![trigger out[j1].id, out[j2].id]
        0 <= j1 < j2 < out.len() implies out[j1].id != out[j2].id by {
        lemma_position_decompose(n, c, j1);
        lemma_position_decompose(n, c, j2);
        let i1 = j1 / c;
        let t1 = j1 % c;
        let i2 = j2 / c;
        let t2 = j2 % c;
        lemma_chunk_result_index(ents, p, base, i1, t1);
        lemma_chunk_result_index(ents, p, base, i2, t2);
        if t1 == 0 && t2 == 0 {
            assert(i1 != i2) by (nonlinear_arith)
                requires
                    j1 != j2,
                    j1 == i1 * c + t1,
                    j2 == i2 * c + t2,
                    t1 == 0 && t2 == 0,
            ;
            if i1 < i2 {
                assert(ents[i1].id != ents[i2].id);
            } else {
                assert(ents[i2].id != ents[i1].id);
            }
        } else if t1 == 0 {
            let k2 = i2 * dpe + t2 - 1;
            assert(0 <= k2 < n * dpe) by (nonlinear_arith)
                requires
                    0 <= i2 < n,
                    1 <= t2 < c,
                    dpe == c - 1,
                    k2 == i2 * dpe + t2 - 1,
            ;
            assert(ents[i1].id matches Some(g) && g < base);
            assert(out[j2].id == Some((base + k2) as u32));
        } else if t2 == 0 {
            let k1 = i1 * dpe + t1 - 1;
            assert(0 <= k1 < n * dpe) by (nonlinear_arith)
                requires
                    0 <= i1 < n,
                    1 <= t1 < c,
                    dpe == c - 1,
                    k1 == i1 * dpe + t1 - 1,
            ;
            assert(ents[i2].id matches Some(g) && g < base);
            assert(out[j1].id == Some((base + k1) as u32));
        } else {
            let k1 = i1 * dpe + t1 - 1;
            let k2 = i2 * dpe + t2 - 1;
            assert(0 <= k1 < n * dpe && 0 <= k2 < n * dpe && k1 != k2) by (nonlinear_arith)
                requires
                    0 <= i1 < n,
                    0 <= i2 < n,
                    1 <= t1 < c,
                    1 <= t2 < c,
                    dpe == c - 1,
                    j1 == i1 * c + t1,
                    j2 == i2 * c + t2,
                    j1 != j2,
                    k1 == i1 * dpe + t1 - 1,
                    k2 == i2 * dpe + t2 - 1,
            ;
        }
    }
}

/// How many of the chunk's sources own a grid subtree.
pub open spec fn owner_count(subs: Seq<Option<PendingFs>>) -> int
    decreases subs.len(),
{
    if subs.len() <= 0 {
        0
    } else {
        owner_count(subs.drop_last()) + if subs.last() is Some {
            1int
        } else {
            0int
        }
    }
}

/// One grid-owning source's block of overlay entries holds one entry per
/// duplicate plus the source's own: `cells(p)` in all, every one carrying
/// the same subtree content, the source's own identity first and then the
/// freshly allocated ones in order.
pub proof fn lemma_grid_block_shape(owner_id: u32, sub: FsView, p: Pattern, base: int)
    requires
        pattern_wf(p),
    ensures
        grid_block(owner_id, sub, p, base).len() == dups_per_entity(p) + 1,
        grid_block(owner_id, sub, p, base)[0] == (owner_id, sub),
        forall|k: int|
            #![trigger grid_block(owner_id, sub, p, base)[k + 1]]
            0 <= k < dups_per_entity(p) ==> grid_block(owner_id, sub, p, base)[k + 1] == (((base
                + k) as u32), sub),
        forall|k: int|
            0 <= k < grid_block(owner_id, sub, p, base).len() ==> (#[trigger] grid_block(
                owner_id,
                sub,
                p,
                base,
            )[k]).1 == sub,
{
    lemma_cells_split(p);
    assert forall|k: int|
        #![trigger grid_block(owner_id, sub, p, base)[k + 1]]
        0 <= k < dups_per_entity(p) implies grid_block(owner_id, sub, p, base)[k + 1] == (((base
        + k) as u32), sub) by {
        assert(grid_block(owner_id, sub, p, base)[k + 1] == Seq::new(
            dups_per_entity(p) as nat,
            |t: int| (((base + t) as u32), sub),
        )[k]);
    }
}

/// Each grid-owning source contributes exactly one block of grid entries to
/// the chunk's overlay — `dups_per_entity(p) + 1` of them: one per
/// duplicate, plus the source's own — and a source that owns no grid
/// contributes none.
pub proof fn lemma_grid_lineage(
    ents: Seq<Entity>,
    subs: Seq<Option<PendingFs>>,
    p: Pattern,
    base: int,
    i: int,
)
    requires
        pattern_wf(p),
        subs.len() == ents.len(),
        0 <= i < ents.len(),
        all_have_ids(ents),
    ensures
        ({
            let before = chunk_grids(ents.take(i), subs.take(i), p, base);
            let after = chunk_grids(ents.take(i + 1), subs.take(i + 1), p, base);
            &&& (subs[i] matches Some(sub) ==> after == before + grid_block(
                ents[i].id->Some_0,
                sub@,
                p,
                base + i * dups_per_entity(p),
            ) && after.len() == before.len() + dups_per_entity(p) + 1)
            &&& (subs[i] is None ==> after == before)
        }),
{
    crate::dup::lemma_chunk_grids_step(ents, subs, p, base, i);
    assert(ents[i].id is Some);
    if subs[i] is Some {
        let sub = subs[i]->Some_0;
        lemma_grid_block_shape(ents[i].id->Some_0, sub@, p, base + i * dups_per_entity(p));
        let before = chunk_grids(ents.take(i), subs.take(i), p, base);
        let after = chunk_grids(ents.take(i + 1), subs.take(i + 1), p, base);
        assert(after == before + grid_block(
            ents[i].id->Some_0,
            sub@,
            p,
            base + i * dups_per_entity(p),
        ));
    }
}

/// A chunk's overlay holds exactly one block of `cells(p)` grid entries per
/// grid-owning source: nothing else reaches the grid-storage folder.
pub proof fn lemma_grid_entry_count(
    ents: Seq<Entity>,
    subs: Seq<Option<PendingFs>>,
    p: Pattern,
    base: int,
)
    requires
        pattern_wf(p),
        subs.len() == ents.len(),
        all_have_ids(ents),
    ensures
        chunk_grids(ents, subs, p, base).len() == owner_count(subs) * cells(p),
    decreases ents.len(),
{
    lemma_cells_split(p);
    if ents.len() == 0 {
    } else {
        let n = ents.len() as int;
        assert(subs.take(n - 1) =~= subs.drop_last());
        lemma_grid_entry_count(ents.drop_last(), subs.drop_last(), p, base);
        assert(all_have_ids(ents.drop_last()));
        assert(ents.last().id is Some);
        if subs.last() is Some {
            lemma_grid_block_shape(
                ents.last().id->Some_0,
                subs.last()->Some_0@,
                p,
                base + (n - 1) * dups_per_entity(p),
            );
            assert((owner_count(subs.drop_last())) * cells(p) + cells(p) == owner_count(subs)
                * cells(p)) by (nonlinear_arith)
                requires
                    owner_count(subs) == owner_count(subs.drop_last()) + 1,
            ;
        }
    }
}

/// Across a run, the identity ranges allocated to successive chunks abut
/// and never overlap: chunk `i + 1`'s first fresh identity comes right after
/// chunk `i`'s last one, so no value issued in the run is ever issued twice.
pub proof fn lemma_base_at_step(works: Seq<crate::dup::ChunkWork>, p: Pattern, base: int, i: int)
    requires
        pattern_wf(p),
        0 <= i < works.len(),
    ensures
        crate::dup::base_at(works, p, base, i + 1) == crate::dup::base_at(works, p, base, i)
            + works[i].entities@.len() * dups_per_entity(p),
{
    crate::dup::lemma_total_sources_step(works, i);
    let dpe = dups_per_entity(p);
    let before = crate::dup::total_sources(works.take(i));
    let n_i = works[i].entities@.len() as int;
    assert((before + n_i) * dpe == before * dpe + n_i * dpe) by (nonlinear_arith);
}

/// Duplication is not idempotent: run again on the output of a prior run
/// with the same pattern, it succeeds — every output entity carries an
/// identity — and the entity count grows strictly, whenever the pattern has
/// more than its origin cell and the chunk holds at least one entity.
pub proof fn lemma_rerun_grows(ents: Seq<Entity>, p: Pattern, base: int, base2: int)
    requires
        pattern_wf(p),
        all_have_ids(ents),
        1 <= ents.len(),
        2 <= cells(p),
    ensures
        all_have_ids(chunk_result(ents, p, base)),
        chunk_result(ents, p, base).len() > ents.len(),
        chunk_result(chunk_result(ents, p, base), p, base2).len() > chunk_result(
            ents,
            p,
            base,
        ).len(),
{
    lemma_output_has_ids(ents, p, base);
    lemma_chunk_entity_count(ents, p, base);
    lemma_chunk_entity_count(chunk_result(ents, p, base), p, base2);
    let n = ents.len() as int;
    let c = cells(p);
    assert(n * c > n && (n * c) * c > n * c) by (nonlinear_arith)
        requires
            1 <= n,
            2 <= c,
    ;
}

} // verus!
