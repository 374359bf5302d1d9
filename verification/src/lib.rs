use vstd::prelude::*;

pub mod arena;
pub mod chunk;
pub mod multi_tile;
pub mod plugin;
pub mod prelude;
pub mod tile;
pub mod tilemap;
pub mod util;

verus! {

/// Number of tiles along one side of a chunk.
pub const CHUNK_SIZE: usize = 16;

/// Number of pixels along one side of a tile.
pub const TILE_SIZE: usize = 8;

} // verus!
