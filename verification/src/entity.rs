//! The in-memory model of a persisted entity: exactly the fields the
//! duplication pipeline reads or writes.  Everything else of a stored record
//! travels outside this library and is reattached by the host program when it
//! re-encodes a chunk.

use vstd::prelude::*;

verus! {

/// A 3-D location in integer world units.
#[derive(Clone, Copy, PartialEq, Eq, Structural, Debug)]
pub struct Vec3 {
    pub x: i64,
    pub y: i64,
    pub z: i64,
}

/// The spatial key of a chunk: a coarse 3-D cell index.
#[derive(Clone, Copy, PartialEq, Eq, Structural, Debug)]
pub struct ChunkKey {
    pub x: i16,
    pub y: i16,
    pub z: i16,
}

/// The structural kind of an entity's schema payload.  Classification is
/// closed: an entity either owns a dynamic brick grid (an auxiliary subtree
/// of brick data stored under the entity's persistent identity) or it does
/// not.
#[derive(Clone, Copy, PartialEq, Eq, Structural, Debug)]
pub enum EntityData {
    /// The payload tag of an entity that owns a dynamic brick grid.
    DynamicBrickGrid,
    /// Any other payload.
    Other,
}

/// A persisted entity, as the duplication pipeline sees it.
#[derive(Clone, Copy, PartialEq, Eq, Structural, Debug)]
pub struct Entity {
    /// The globally unique persistent identity; absent on transient entities,
    /// which can never be duplication sources.
    pub id: Option<u32>,
    /// The entity's location, in integer world units.
    pub location: Vec3,
    /// Whether physics on the entity is frozen.
    pub frozen: bool,
    /// The structural kind of the schema payload.
    pub data: EntityData,
}

/// True exactly when the entity's payload tag marks it as the owner of a
/// dynamic brick grid; no other signal is consulted.
pub fn is_dynamic_grid(entity: &Entity) -> (r: bool)
    ensures
        r == (entity.data == EntityData::DynamicBrickGrid),
{
    match entity.data {
        EntityData::DynamicBrickGrid => true,
        EntityData::Other => false,
    }
}

} // verus!
