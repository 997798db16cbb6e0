use gridpatch::dup::{duplicate_chunk, duplicate_entity, duplicate_world, ChunkWork};
use gridpatch::entity::{is_dynamic_grid, ChunkKey, Entity, EntityData, Vec3};
use gridpatch::errors::Error;
use gridpatch::index::IndexTable;
use gridpatch::pattern::Pattern;
use gridpatch::pending::PendingFs;

fn entity(id: u32, x: i64, y: i64, z: i64) -> Entity {
    Entity {
        id: Some(id),
        location: Vec3 { x, y, z },
        frozen: false,
        data: EntityData::Other,
    }
}

fn grid_owner(id: u32, x: i64, y: i64, z: i64) -> Entity {
    Entity {
        id: Some(id),
        location: Vec3 { x, y, z },
        frozen: false,
        data: EntityData::DynamicBrickGrid,
    }
}

fn pattern(columns: u32, rows: u32, step: i64) -> Pattern {
    Pattern { columns, rows, step, freeze_source: false }
}

fn table_with_one_chunk(next: u32, count: u32) -> IndexTable {
    IndexTable::new(next, vec![ChunkKey { x: 0, y: 0, z: 0 }], vec![count])
}

fn subtree(bytes: Vec<u8>) -> PendingFs {
    PendingFs::Folder(Some(vec![(
        "0.mps".to_string(),
        PendingFs::File(Some(bytes)),
    )]))
}

#[test]
fn classifies_by_payload_tag_alone() {
    assert!(is_dynamic_grid(&grid_owner(1, 0, 0, 0)));
    assert!(!is_dynamic_grid(&entity(1, 0, 0, 0)));
}

#[test]
fn allocator_issues_consecutive_identities() {
    let mut table = table_with_one_chunk(42, 3);
    assert_eq!(table.next_id(), 42);
    assert_eq!(table.next_id(), 43);
    assert_eq!(table.next_id(), 44);
    assert_eq!(table.next_persistent_index, 45);
}

#[test]
fn allocator_counts_created_entities_per_chunk() {
    let mut table = IndexTable::new(
        2,
        vec![ChunkKey { x: 0, y: 0, z: 0 }, ChunkKey { x: 1, y: 0, z: 0 }],
        vec![5, 7],
    );
    table.record_created(1);
    table.record_created(1);
    table.record_created(0);
    assert_eq!(table.num_entities, vec![6, 9]);
    assert_eq!(table.next_persistent_index, 2);
}

#[test]
fn duplicate_entity_translates_and_allocates() {
    let mut table = table_with_one_chunk(10, 1);
    let src = entity(4, 100, -50, 7);
    let dups = duplicate_entity(&src, &pattern(2, 2, 200), &mut table, 0).unwrap();
    assert_eq!(dups.len(), 3);
    // Column-major cell order: (0,1), (1,0), (1,1); the origin is skipped.
    assert_eq!(dups[0].location, Vec3 { x: 100, y: 150, z: 7 });
    assert_eq!(dups[1].location, Vec3 { x: 300, y: -50, z: 7 });
    assert_eq!(dups[2].location, Vec3 { x: 300, y: 150, z: 7 });
    assert_eq!(dups[0].id, Some(10));
    assert_eq!(dups[1].id, Some(11));
    assert_eq!(dups[2].id, Some(12));
    assert_eq!(table.next_persistent_index, 13);
    assert_eq!(table.num_entities, vec![4]);
}

#[test]
fn duplicate_entity_rejects_missing_identity() {
    let mut table = table_with_one_chunk(10, 1);
    let src = Entity {
        id: None,
        location: Vec3 { x: 0, y: 0, z: 0 },
        frozen: false,
        data: EntityData::Other,
    };
    let r = duplicate_entity(&src, &pattern(2, 2, 200), &mut table, 0);
    assert_eq!(r.unwrap_err(), Error::InvariantViolation);
    assert_eq!(table.next_persistent_index, 10);
    assert_eq!(table.num_entities, vec![1]);
}

#[test]
fn duplicate_entity_negative_step_translates_backwards() {
    let mut table = table_with_one_chunk(1, 0);
    let src = entity(0, 10, 20, 0);
    let dups = duplicate_entity(&src, &pattern(1, 2, -5), &mut table, 0).unwrap();
    assert_eq!(dups.len(), 1);
    assert_eq!(dups[0].location, Vec3 { x: 10, y: 15, z: 0 });
}

#[test]
fn freeze_variant_marks_duplicates_and_source() {
    let mut table = table_with_one_chunk(5, 1);
    let src = entity(1, 0, 0, 0);
    let p = Pattern { columns: 2, rows: 1, step: 200, freeze_source: true };
    let dups = duplicate_entity(&src, &p, &mut table, 0).unwrap();
    assert!(dups[0].frozen);
    let out = duplicate_chunk(&vec![src], &vec![None], &p, &mut table, 0).unwrap();
    assert!(out.entities[0].frozen);
    assert!(out.entities[1].frozen);
}

#[test]
fn three_entities_two_by_two_yields_twelve() {
    // A chunk of three sources under a 2 x 2 pattern: every source is kept
    // and nine duplicates are added, so the chunk ends with twelve entities
    // and the counter advances by exactly nine.
    let mut table = table_with_one_chunk(100, 3);
    let ents = vec![entity(1, 0, 0, 0), entity(2, 10, 0, 0), entity(3, 0, 10, 0)];
    let subs = vec![None, None, None];
    let out = duplicate_chunk(&ents, &subs, &pattern(2, 2, 200), &mut table, 0).unwrap();
    assert_eq!(out.entities.len(), 12);
    assert_eq!(table.next_persistent_index, 109);
    assert_eq!(table.num_entities, vec![12]);
    // Sources keep their identities and positions in block order.
    assert_eq!(out.entities[0].id, Some(1));
    assert_eq!(out.entities[4].id, Some(2));
    assert_eq!(out.entities[8].id, Some(3));
    // Duplicates carry the allocator's consecutive identities.
    let dup_ids: Vec<u32> = out
        .entities
        .iter()
        .enumerate()
        .filter(|(j, _)| j % 4 != 0)
        .map(|(_, e)| e.id.unwrap())
        .collect();
    assert_eq!(dup_ids, (100..109).collect::<Vec<u32>>());
    assert!(out.grids.is_empty());
}

#[test]
fn grid_owner_subtree_copied_under_every_duplicate() {
    // One grid-owning entity with identity 7 under a 2 x 2 pattern: the
    // overlay gains subtree entries for identity 7 and the three freshly
    // allocated identities, all four holding byte-identical content.
    let mut table = table_with_one_chunk(20, 1);
    let ents = vec![grid_owner(7, 0, 0, 0)];
    let subs = vec![Some(subtree(vec![9, 8, 7]))];
    let out = duplicate_chunk(&ents, &subs, &pattern(2, 2, 200), &mut table, 0).unwrap();
    assert_eq!(out.entities.len(), 4);
    assert_eq!(out.grids.len(), 4);
    let ids: Vec<u32> = out.grids.iter().map(|g| g.id).collect();
    assert_eq!(ids, vec![7, 20, 21, 22]);
    for g in &out.grids {
        assert_eq!(g.subtree, subtree(vec![9, 8, 7]));
    }
}

#[test]
fn mixed_chunk_files_grids_only_for_owners() {
    let mut table = table_with_one_chunk(50, 2);
    let ents = vec![entity(1, 0, 0, 0), grid_owner(2, 5, 5, 5)];
    let subs = vec![None, Some(subtree(vec![1]))];
    let out = duplicate_chunk(&ents, &subs, &pattern(2, 1, 100), &mut table, 0).unwrap();
    assert_eq!(out.entities.len(), 4);
    assert_eq!(out.grids.len(), 2);
    assert_eq!(out.grids[0].id, 2);
    assert_eq!(out.grids[1].id, 51);
}

#[test]
fn chunk_with_missing_identity_fails_whole() {
    let mut table = table_with_one_chunk(10, 2);
    let bad = Entity {
        id: None,
        location: Vec3 { x: 0, y: 0, z: 0 },
        frozen: false,
        data: EntityData::Other,
    };
    let ents = vec![entity(1, 0, 0, 0), bad];
    let subs = vec![None, None];
    let r = duplicate_chunk(&ents, &subs, &pattern(2, 2, 200), &mut table, 0);
    assert_eq!(r.unwrap_err(), Error::InvariantViolation);
    // Fail-fast: nothing was allocated.
    assert_eq!(table.next_persistent_index, 10);
    assert_eq!(table.num_entities, vec![2]);
}

#[test]
fn one_by_one_pattern_duplicates_nothing() {
    let mut table = table_with_one_chunk(10, 1);
    let ents = vec![entity(1, 0, 0, 0)];
    let out = duplicate_chunk(&ents, &vec![None], &pattern(1, 1, 200), &mut table, 0).unwrap();
    assert_eq!(out.entities.len(), 1);
    assert_eq!(out.entities[0].id, Some(1));
    assert_eq!(table.next_persistent_index, 10);
}

#[test]
fn empty_chunk_stays_empty() {
    let mut table = table_with_one_chunk(10, 0);
    let out =
        duplicate_chunk(&Vec::new(), &Vec::new(), &pattern(4, 4, 200), &mut table, 0).unwrap();
    assert!(out.entities.is_empty());
    assert!(out.grids.is_empty());
    assert_eq!(table.next_persistent_index, 10);
}

#[test]
fn rerunning_on_output_grows_strictly() {
    // Duplication is not idempotent: feeding a run's output back in with
    // the same pattern succeeds and multiplies the count again.
    let mut table = table_with_one_chunk(10, 3);
    let ents = vec![entity(1, 0, 0, 0), entity(2, 1, 1, 0), entity(3, 2, 2, 0)];
    let p = pattern(2, 2, 200);
    let first = duplicate_chunk(&ents, &vec![None, None, None], &p, &mut table, 0).unwrap();
    assert_eq!(first.entities.len(), 12);
    let subs: Vec<Option<PendingFs>> = first.entities.iter().map(|_| None).collect();
    let second = duplicate_chunk(&first.entities, &subs, &p, &mut table, 0).unwrap();
    assert!(second.entities.len() > first.entities.len());
    assert_eq!(second.entities.len(), 48);
}

#[test]
fn world_run_threads_counter_across_chunks() {
    // The counter is shared by all chunks and advances by one per duplicate
    // across the whole run: its final value is its seed plus the total
    // number of duplicates created.
    let mut table = IndexTable::new(
        1000,
        vec![ChunkKey { x: 0, y: 0, z: 0 }, ChunkKey { x: 1, y: 0, z: 0 }],
        vec![2, 1],
    );
    let works = vec![
        ChunkWork {
            entities: vec![entity(1, 0, 0, 0), entity(2, 10, 10, 0)],
            subtrees: vec![None, None],
        },
        ChunkWork {
            entities: vec![grid_owner(3, 0, 0, 0)],
            subtrees: vec![Some(subtree(vec![4, 2]))],
        },
    ];
    let outs = duplicate_world(&works, &pattern(2, 2, 200), &mut table).unwrap();
    assert_eq!(outs.len(), 2);
    assert_eq!(outs[0].entities.len(), 8);
    assert_eq!(outs[1].entities.len(), 4);
    // 3 sources in all, 3 duplicates each.
    assert_eq!(table.next_persistent_index, 1009);
    assert_eq!(table.num_entities, vec![8, 4]);
    // The second chunk's duplicates continue where the first chunk stopped.
    assert_eq!(outs[1].entities[1].id, Some(1006));
    assert_eq!(outs[1].grids.iter().map(|g| g.id).collect::<Vec<u32>>(), vec![3, 1006, 1007, 1008]);
}

#[test]
fn world_run_fails_whole_on_any_missing_identity() {
    let mut table = IndexTable::new(10, vec![ChunkKey { x: 0, y: 0, z: 0 }], vec![1]);
    let bad = Entity {
        id: None,
        location: Vec3 { x: 0, y: 0, z: 0 },
        frozen: false,
        data: EntityData::Other,
    };
    let works = vec![ChunkWork { entities: vec![bad], subtrees: vec![None] }];
    let r = duplicate_world(&works, &pattern(2, 2, 200), &mut table);
    assert_eq!(r.unwrap_err(), Error::InvariantViolation);
    assert_eq!(table.next_persistent_index, 10);
}
