//! Decoding of Anvil region containers into sparse voxel maps.

pub mod block;
pub mod bytes;
pub mod chunk;
pub mod document;
pub mod filename;
pub mod layout;
pub mod leveldat;
pub mod packed;
pub mod progress;
pub mod region;
pub mod tag;
