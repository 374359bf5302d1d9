use vstd::prelude::*;

use crate::arena::{swept, Arena, Slot};
use crate::chunk::{chunk_deleter, stale_views};
use crate::multi_tile::{multi_tile_delete, reacted};
use crate::tilemap::{tilemap_event_system, Tilemap, TilemapView};

verus! {

/// Runs the per-tick passes of a tilemap in their fixed order.
pub struct PixelPlugin;

/// The map and the arena after one tick: the queue is drained, composites
/// react to the tombstones that the drain left, the tombstoned tiles are
/// destroyed, and then the textures are brought up to date.
pub open spec fn ticked(map: TilemapView, arena: Seq<Slot>) -> (TilemapView, Seq<Slot>) {
    let (drained, settled) = map.drain(arena);
    let after = reacted(drained, settled, settled.len());
    (after.0.synced(swept(after.1)), swept(after.1))
}

impl PixelPlugin {
    /// One tick of `tilemap`. The order of the passes matters: composites
    /// must see the tombstones before the tiles are destroyed, and the
    /// textures are repainted only when all tiles are settled. Returns the
    /// indices of the chunks whose texture was repainted.
    pub fn tick(&self, tilemap: &mut Tilemap, arena: &mut Arena) -> (published: Vec<usize>)
        requires
            old(tilemap).wf(),
        ensures
            final(tilemap).wf(),
            (final(tilemap)@, final(arena)@) == ticked(old(tilemap)@, old(arena)@),
            published@ == stale_views(
                old(tilemap)@.drain(old(arena)@).0.chunks,
                old(tilemap)@.drain(old(arena)@).0.chunks.len(),
            ),
    {
        tilemap_event_system(tilemap, arena);
        multi_tile_delete(tilemap, arena);
        chunk_deleter(arena);
        tilemap.update_textures(arena)
    }
}

} // verus!
