//! Duplicate the entities of a chunked world save into a repeated spatial
//! grid pattern, and assemble a minimal patch overlay that, merged onto the
//! base store, yields the patched world.
//!
//! The library owns the logic of the pipeline: allocating fresh persistent
//! identities, replicating entity records with translated locations, copying
//! the grid subtree owned by a dynamic-grid entity under each duplicate's new
//! identity, and arranging every produced blob under the store's fixed path
//! skeleton.  Reading the base store, encoding records to their columnar
//! on-disk form, and writing the result back are the host program's work; it
//! hands this library plain values and takes plain values back.

pub mod entity;
pub mod dup;
pub mod errors;
pub mod fmt;
pub mod index;
pub mod laws;
pub mod pattern;
pub mod pending;
