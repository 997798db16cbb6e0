use gridpatch::dup::GridEntry;
use gridpatch::entity::ChunkKey;
use gridpatch::fmt::{chunk_file_name, fmt_i16, fmt_u32};
use gridpatch::pending::{Pending, PendingFs};

fn folder(entries: Vec<(&str, PendingFs)>) -> PendingFs {
    PendingFs::Folder(Some(
        entries.into_iter().map(|(n, v)| (n.to_string(), v)).collect(),
    ))
}

fn file(bytes: Vec<u8>) -> PendingFs {
    PendingFs::File(Some(bytes))
}

#[test]
fn decimal_names_render_exactly() {
    assert_eq!(fmt_u32(0), "0");
    assert_eq!(fmt_u32(7), "7");
    assert_eq!(fmt_u32(10), "10");
    assert_eq!(fmt_u32(305), "305");
    assert_eq!(fmt_u32(u32::MAX), "4294967295");
    assert_eq!(fmt_i16(0), "0");
    assert_eq!(fmt_i16(42), "42");
    assert_eq!(fmt_i16(-5), "-5");
    assert_eq!(fmt_i16(i16::MIN), "-32768");
    assert_eq!(fmt_i16(i16::MAX), "32767");
}

#[test]
fn chunk_file_names_join_key_components() {
    assert_eq!(chunk_file_name(ChunkKey { x: 0, y: 0, z: 0 }), "0_0_0.mps");
    assert_eq!(chunk_file_name(ChunkKey { x: 1, y: -2, z: 30 }), "1_-2_30.mps");
}

#[test]
fn deep_copy_is_byte_identical() {
    let tree = folder(vec![
        ("a", file(vec![1, 2, 3])),
        ("b", folder(vec![("c", file(vec![])), ("d", PendingFs::Folder(None))])),
        ("e", PendingFs::File(None)),
    ]);
    let copy = tree.deep_copy();
    assert_eq!(copy, tree);
}

#[test]
fn recorders_name_entries_after_their_keys() {
    let mut pending = Pending::default();
    pending.record_grid(7, file(vec![1]));
    pending.record_chunk(ChunkKey { x: -1, y: 0, z: 2 }, vec![5, 6]);
    pending.set_chunk_index(vec![9]);
    assert_eq!(pending.grid_files.len(), 1);
    assert_eq!(pending.grid_files[0].0, "7");
    assert_eq!(pending.grid_files[0].1, file(vec![1]));
    assert_eq!(pending.entity_files.len(), 1);
    assert_eq!(pending.entity_files[0].0, "-1_0_2.mps");
    assert_eq!(pending.entity_files[0].1, file(vec![5, 6]));
    assert_eq!(pending.chunk_index, vec![9]);
}

#[test]
fn record_grids_appends_in_order() {
    let mut pending = Pending::default();
    pending.record_grids(vec![
        GridEntry { id: 7, subtree: file(vec![1]) },
        GridEntry { id: 20, subtree: file(vec![1]) },
        GridEntry { id: 21, subtree: file(vec![1]) },
    ]);
    let names: Vec<&str> = pending.grid_files.iter().map(|(n, _)| n.as_str()).collect();
    assert_eq!(names, vec!["7", "20", "21"]);
}

#[test]
fn patch_assembles_fixed_skeleton() {
    let mut pending = Pending::default();
    pending.record_grid(7, file(vec![1, 2]));
    pending.record_chunk(ChunkKey { x: 0, y: 0, z: 0 }, vec![3, 4]);
    pending.set_chunk_index(vec![5]);
    let overlay = pending.patch();

    let PendingFs::Root(top) = overlay else { panic!("expected a root") };
    assert_eq!(top.len(), 1);
    assert_eq!(top[0].0, "World");
    let PendingFs::Folder(Some(world)) = &top[0].1 else { panic!("expected World/") };
    assert_eq!(world.len(), 1);
    assert_eq!(world[0].0, "0");
    let PendingFs::Folder(Some(zero)) = &world[0].1 else { panic!("expected World/0/") };
    assert_eq!(zero.len(), 2);
    assert_eq!(zero[0].0, "Bricks");
    let PendingFs::Folder(Some(bricks)) = &zero[0].1 else { panic!("expected Bricks/") };
    assert_eq!(bricks.len(), 1);
    assert_eq!(bricks[0].0, "Grids");
    let PendingFs::Folder(Some(grids)) = &bricks[0].1 else { panic!("expected Grids/") };
    assert_eq!(grids.len(), 1);
    assert_eq!(grids[0].0, "7");
    assert_eq!(grids[0].1, file(vec![1, 2]));
    assert_eq!(zero[1].0, "Entities");
    let PendingFs::Folder(Some(entities)) = &zero[1].1 else { panic!("expected Entities/") };
    assert_eq!(entities.len(), 2);
    assert_eq!(entities[0].0, "Chunks");
    let PendingFs::Folder(Some(chunks)) = &entities[0].1 else { panic!("expected Chunks/") };
    assert_eq!(chunks.len(), 1);
    assert_eq!(chunks[0].0, "0_0_0.mps");
    assert_eq!(chunks[0].1, file(vec![3, 4]));
    assert_eq!(entities[1].0, "ChunkIndex.mps");
    assert_eq!(entities[1].1, file(vec![5]));
}

#[test]
fn patch_drains_and_second_call_is_empty() {
    let mut pending = Pending::default();
    pending.record_grid(3, file(vec![1]));
    pending.record_chunk(ChunkKey { x: 0, y: 0, z: 0 }, vec![2]);
    pending.set_chunk_index(vec![3]);
    let _ = pending.patch();
    assert!(pending.grid_files.is_empty());
    assert!(pending.entity_files.is_empty());
    assert!(pending.chunk_index.is_empty());

    // A second assembly without new buffered data yields the bare skeleton:
    // empty folders and an empty index file, a no-op when merged.
    let again = pending.patch();
    let PendingFs::Root(top) = again else { panic!("expected a root") };
    let PendingFs::Folder(Some(world)) = &top[0].1 else { panic!("expected World/") };
    let PendingFs::Folder(Some(zero)) = &world[0].1 else { panic!("expected World/0/") };
    let PendingFs::Folder(Some(bricks)) = &zero[0].1 else { panic!("expected Bricks/") };
    let PendingFs::Folder(Some(grids)) = &bricks[0].1 else { panic!("expected Grids/") };
    assert!(grids.is_empty());
    let PendingFs::Folder(Some(entities)) = &zero[1].1 else { panic!("expected Entities/") };
    let PendingFs::Folder(Some(chunks)) = &entities[0].1 else { panic!("expected Chunks/") };
    assert!(chunks.is_empty());
    assert_eq!(entities[1].1, file(vec![]));
}
