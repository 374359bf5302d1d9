pub use crate::CHUNK_SIZE;
pub use crate::TILE_SIZE;

pub use crate::tilemap::Tilemap;

pub use crate::tile::DeletingTile;
pub use crate::tile::Tile;

pub use crate::util::{world_unit_to_pixel, world_unit_to_tile};

pub use crate::plugin::PixelPlugin;
