use vstd::prelude::*;

use crate::arena::{
    swept, swept_prefix, tile_entry, tombstoned, tombstones_in_prefix, with_tombstone, without, Arena,
    Entity, Slot, TileEntry,
};
use crate::multi_tile::MultiTileMarker;
use crate::tile::Tile;
use crate::util::{in_chunk, in_tile, IVec2};

verus! {

/// What a chunk holds, as mathematical values.
pub struct ChunkView {
    /// The occupied slots: from a position inside the chunk to the tile placed there.
    pub tiles: Map<IVec2, Entity>,
    /// The packed RGBA8 texture, top row first.
    pub image: Seq<u8>,
    /// The positions whose part of the texture is stale, oldest first.
    pub dirty: Seq<IVec2>,
}

/// The position inside the chunk of the tile that texture byte `b` belongs to.
#[verifier::opaque]
pub open spec fn byte_tile(b: int) -> IVec2 {
    IVec2 { x: (((b % 512) / 4) / 8) as i32, y: (15 - (b / 512) / 8) as i32 }
}

/// The pixel inside its tile that texture byte `b` belongs to.
#[verifier::opaque]
pub open spec fn byte_pixel(b: int) -> IVec2 {
    IVec2 { x: (((b % 512) / 4) % 8) as i32, y: ((b / 512) % 8) as i32 }
}

/// The texture byte that holds channel `channel` of pixel `pixel` of the tile
/// at `loc`. Tile rows count upward from the bottom of the chunk while
/// texture rows count downward from the top, so the row is flipped.
pub open spec fn texture_index(loc: IVec2, pixel: IVec2, channel: int) -> int {
    (((15 - loc.y) * 8 + pixel.y) * 128 + (loc.x * 8 + pixel.x)) * 4 + channel
}

impl ChunkView {
    /// The texture has its full size, and the dirty list holds positions
    /// inside the chunk, each at most once.
    pub open spec fn wf(self) -> bool {
        &&& self.image.len() == 65536
        &&& forall|loc: IVec2| self.tiles.contains_key(loc) ==> in_chunk(loc)
        &&& forall|i: int| 0 <= i < self.dirty.len() ==> in_chunk(#[trigger] self.dirty[i])
        &&& forall|i: int, j: int|
            0 <= i < j < self.dirty.len() ==> #[trigger] self.dirty[i] != #[trigger] self.dirty[j]
    }

    /// The tile placed at `loc`, if any.
    pub open spec fn get_tile(self, loc: IVec2) -> Option<Entity> {
        if self.tiles.contains_key(loc) {
            Some(self.tiles[loc])
        } else {
            None
        }
    }

    /// The chunk after `loc` was marked dirty: appended to the dirty list
    /// unless it lies outside the chunk or is listed already.
    pub open spec fn mark_dirty(self, loc: IVec2) -> ChunkView {
        if in_chunk(loc) && !self.dirty.contains(loc) {
            ChunkView { dirty: self.dirty.push(loc), ..self }
        } else {
            self
        }
    }

    /// The chunk with the slot at `loc` emptied and marked dirty; the same
    /// chunk if the slot is empty.
    pub open spec fn cleared(self, loc: IVec2) -> ChunkView {
        if self.tiles.contains_key(loc) {
            (ChunkView { tiles: self.tiles.remove(loc), ..self }).mark_dirty(loc)
        } else {
            self
        }
    }

    /// Removing the tile at `loc` with a tombstone: the slot is emptied and
    /// marked dirty, and the occupant is scheduled for removal.
    pub open spec fn delete_tile(self, arena: Seq<Slot>, loc: IVec2) -> (ChunkView, Seq<Slot>) {
        if self.tiles.contains_key(loc) {
            (self.cleared(loc), with_tombstone(arena, self.tiles[loc]))
        } else {
            (self, arena)
        }
    }

    /// Removing the tile at `loc` at once: the slot is emptied and marked
    /// dirty, and the occupant is destroyed.
    pub open spec fn delete_unmarked(self, arena: Seq<Slot>, loc: IVec2) -> (
        ChunkView,
        Seq<Slot>,
    ) {
        if self.tiles.contains_key(loc) {
            (self.cleared(loc), without(arena, self.tiles[loc]))
        } else {
            (self, arena)
        }
    }

    /// Installing tile `entity` at `loc`: a previous occupant gets its
    /// tombstone, and the slot is marked dirty. Nothing happens outside the chunk.
    pub open spec fn set_tile_entity(self, arena: Seq<Slot>, loc: IVec2, entity: Entity) -> (
        ChunkView,
        Seq<Slot>,
    ) {
        if in_chunk(loc) {
            let (emptied, marked) = self.delete_tile(arena, loc);
            (
                (ChunkView { tiles: emptied.tiles.insert(loc, entity), ..emptied }).mark_dirty(loc),
                marked,
            )
        } else {
            (self, arena)
        }
    }

    /// Creating a tile and installing it at `loc`. Outside the chunk nothing
    /// happens and no tile is created.
    pub open spec fn set_tile(
        self,
        arena: Seq<Slot>,
        loc: IVec2,
        tile: Tile,
        marker: Option<MultiTileMarker>,
    ) -> (ChunkView, Seq<Slot>) {
        if in_chunk(loc) {
            let (emptied, marked) = self.delete_tile(arena, loc);
            let entity = Entity { id: marked.len() as usize };
            (
                (ChunkView { tiles: emptied.tiles.insert(loc, entity), ..emptied }).mark_dirty(loc),
                marked.push(Slot::Tile(TileEntry { tile, deleting: None, marker })),
            )
        } else {
            (self, arena)
        }
    }

    /// The value that repainting its slot gives texture byte `b`: the channel
    /// of the occupant's pixel, or zero where the slot is empty. Where the
    /// occupant is not a live tile of the arena the byte stays.
    pub open spec fn painted_byte(self, arena: Seq<Slot>, b: int) -> u8 {
        let loc = byte_tile(b);
        let pixel = byte_pixel(b);
        if self.tiles.contains_key(loc) {
            match tile_entry(arena, self.tiles[loc]) {
                Some(entry) => entry.tile.pixel(pixel.x as int, pixel.y as int).channel(b % 4),
                None => self.image[b],
            }
        } else {
            0
        }
    }

    /// The value of texture byte `b` after the texture was brought up to
    /// date: repainted if its slot is dirty, unchanged otherwise.
    pub open spec fn synced_byte(self, arena: Seq<Slot>, b: int) -> u8 {
        if self.dirty.contains(byte_tile(b)) {
            self.painted_byte(arena, b)
        } else {
            self.image[b]
        }
    }

    /// The chunk after its texture was brought up to date: every dirty slot
    /// is repainted and the dirty list is empty.
    pub open spec fn synced(self, arena: Seq<Slot>) -> ChunkView {
        ChunkView {
            tiles: self.tiles,
            image: Seq::new(65536, |b: int| self.synced_byte(arena, b)),
            dirty: Seq::empty(),
        }
    }
}

/// A 16×16 block of tile slots with the packed texture that mirrors the
/// tiles' pixels, and the list of slots whose part of the texture is stale.
pub struct Chunk {
    tiles: [[Option<Entity>; 16]; 16],
    image: Vec<u8>,
    dirty_tiles: Vec<IVec2>,
}

impl View for Chunk {
    type V = ChunkView;

    closed spec fn view(&self) -> ChunkView {
        ChunkView {
            tiles: Map::new(
                |loc: IVec2| in_chunk(loc) && self.tiles[loc.x as int][loc.y as int] is Some,
                |loc: IVec2| self.tiles[loc.x as int][loc.y as int].unwrap(),
            ),
            image: self.image@,
            dirty: self.dirty_tiles@,
        }
    }
}

/// Writes the 8×8 block of the slot at `loc` into a packed texture: the
/// pixels of `tile`, or transparent black where there is no tile.
fn paint(data: &mut Vec<u8>, loc: IVec2, tile: Option<&Tile>)
    requires
        old(data)@.len() == 65536,
        in_chunk(loc),
    ensures
        final(data)@.len() == 65536,
        forall|b: int|
            0 <= b < 65536 ==> #[trigger] final(data)@[b] == (if byte_tile(b) == loc {
                match tile {
                    Some(t) => t.pixel(byte_pixel(b).x as int, byte_pixel(b).y as int).channel(
                        b % 4,
                    ),
                    None => 0u8,
                }
            } else {
                old(data)@[b]
            }),
{
    assert forall|b: int| 0 <= b < 65536 implies in_tile(#[trigger] byte_pixel(b)) by {
        lemma_byte_ranges(b);
    }
    let mut pixel_x: usize = 0;
    while pixel_x < 8
        invariant
            pixel_x <= 8,
            in_chunk(loc),
            data@.len() == 65536,
            old(data)@.len() == 65536,
            forall|b: int| 0 <= b < 65536 ==> in_tile(#[trigger] byte_pixel(b)),
            forall|b: int|
                0 <= b < 65536 ==> #[trigger] data@[b] == (if byte_tile(b) == loc && byte_pixel(
                    b,
                ).x < pixel_x {
                    match tile {
                        Some(t) => t.pixel(byte_pixel(b).x as int, byte_pixel(b).y as int).channel(
                            b % 4,
                        ),
                        None => 0u8,
                    }
                } else {
                    old(data)@[b]
                }),
        decreases 8 - pixel_x,
    {
        let mut pixel_y: usize = 0;
        while pixel_y < 8
            invariant
                pixel_x < 8,
                pixel_y <= 8,
                in_chunk(loc),
                data@.len() == 65536,
                old(data)@.len() == 65536,
                forall|b: int| 0 <= b < 65536 ==> in_tile(#[trigger] byte_pixel(b)),
                forall|b: int|
                    0 <= b < 65536 ==> #[trigger] data@[b] == (if byte_tile(b) == loc && (
                    byte_pixel(b).x < pixel_x || (byte_pixel(b).x == pixel_x && byte_pixel(b).y
                        < pixel_y)) {
                        match tile {
                            Some(t) => t.pixel(
                                byte_pixel(b).x as int,
                                byte_pixel(b).y as int,
                            ).channel(b % 4),
                            None => 0u8,
                        }
                    } else {
                        old(data)@[b]
                    }),
            decreases 8 - pixel_y,
        {
            // The texture's rows run downward, the chunk's tile rows upward.
            let pixel_index_y: usize = (15 - loc.y as usize) * 8 + pixel_y;
            let pixel_index_x: usize = loc.x as usize * 8 + pixel_x;
            let at: usize = pixel_index_y * 512 + pixel_index_x * 4;
            let color: [u8; 4] = match tile {
                Some(t) => t.pixels[pixel_y][pixel_x].as_rgba_u8(),
                None => [0, 0, 0, 0],
            };
            data[at] = color[0];
            data[at + 1] = color[1];
            data[at + 2] = color[2];
            data[at + 3] = color[3];
            proof {
                let here = IVec2 { x: pixel_x as i32, y: pixel_y as i32 };
                assert(at == texture_index(loc, here, 0));
                assert forall|b: int| 0 <= b < 65536 implies (byte_tile(b) == loc && byte_pixel(b)
                    == here) == (at <= b < at + 4) by {
                    lemma_texture_index(loc, here, b);
                }
            }
            pixel_y = pixel_y + 1;
        }
        pixel_x = pixel_x + 1;
    }
}

/// Every texture byte belongs to a pixel of a tile slot of the chunk.
pub proof fn lemma_byte_ranges(b: int)
    requires
        0 <= b < 65536,
    ensures
        in_chunk(byte_tile(b)),
        in_tile(byte_pixel(b)),
        b == texture_index(byte_tile(b), byte_pixel(b), b % 4),
{
    reveal(byte_tile);
    reveal(byte_pixel);
    let row = b / 512;
    let col = (b % 512) / 4;
    assert(b == row * 512 + col * 4 + b % 4);
    assert(0 <= row < 128 && 0 <= col < 128);
    assert(row == (row / 8) * 8 + row % 8);
    assert(col == (col / 8) * 8 + col % 8);
}

/// A texture byte belongs to pixel `pixel` of the slot at `loc` exactly when
/// it is one of the four bytes that start at that pixel's index.
pub proof fn lemma_texture_index(loc: IVec2, pixel: IVec2, b: int)
    requires
        in_chunk(loc),
        in_tile(pixel),
        0 <= b < 65536,
    ensures
        (byte_tile(b) == loc && byte_pixel(b) == pixel) == (texture_index(loc, pixel, 0) <= b
            < texture_index(loc, pixel, 0) + 4),
        texture_index(loc, pixel, 0) <= b < texture_index(loc, pixel, 0) + 4 ==> b
            == texture_index(loc, pixel, b % 4),
        0 <= texture_index(loc, pixel, 0) <= 65532,
{
    reveal(byte_tile);
    reveal(byte_pixel);
    let row = b / 512;
    let col = (b % 512) / 4;
    let channel = b % 4;
    assert(b == row * 512 + col * 4 + channel);
    assert(0 <= row < 128 && 0 <= col < 128 && 0 <= channel < 4);
    assert(row == (row / 8) * 8 + row % 8);
    assert(col == (col / 8) * 8 + col % 8);
    let at = texture_index(loc, pixel, 0);
    assert(at == ((15 - loc.y) * 8 + pixel.y) * 512 + (loc.x * 8 + pixel.x) * 4);
    if byte_tile(b) == loc && byte_pixel(b) == pixel {
        assert(row == (15 - loc.y) * 8 + pixel.y);
        assert(col == loc.x * 8 + pixel.x);
    }
    if at <= b < at + 4 {
        let r = (15 - loc.y) * 8 + pixel.y;
        let c = loc.x * 8 + pixel.x;
        assert(0 <= r < 128 && 0 <= c < 128);
        assert(b == r * 512 + c * 4 + (b - at));
        assert(row == r);
        assert(col == c);
        assert(r / 8 == 15 - loc.y && r % 8 == pixel.y);
        assert(c / 8 == loc.x && c % 8 == pixel.x);
    }
}

/// Whether `loc` addresses a tile slot inside a chunk.
fn verify_chunk_loc(loc: IVec2) -> (ok: bool)
    ensures
        ok == in_chunk(loc),
{
    if loc.x < 0 || loc.x >= 16 || loc.y < 0 || loc.y >= 16 {
        return false;
    }
    true
}

impl Chunk {
    /// The chunk's invariant: see [`ChunkView::wf`].
    pub open spec fn wf(&self) -> bool {
        self@.wf()
    }

    /// A chunk without tiles, with a fully transparent texture and nothing dirty.
    pub fn new() -> (chunk: Chunk)
        ensures
            chunk.wf(),
            chunk@.tiles == Map::<IVec2, Entity>::empty(),
            chunk@.image == Seq::new(65536, |b: int| 0u8),
            chunk@.dirty == Seq::<IVec2>::empty(),
    {
        let mut data: Vec<u8> = Vec::new();
        let mut pixel: usize = 0;
        while pixel < 16384
            invariant
                pixel <= 16384,
                data@.len() == pixel * 4,
                forall|b: int| 0 <= b < data@.len() ==> data@[b] == 0u8,
            decreases 16384 - pixel,
        {
            data.push(0);
            data.push(0);
            data.push(0);
            data.push(0);
            pixel = pixel + 1;
        }
        let chunk = Chunk { tiles: [[None; 16]; 16], image: data, dirty_tiles: Vec::new() };
        assert(chunk@.tiles =~= Map::<IVec2, Entity>::empty());
        assert(chunk@.image =~= Seq::new(65536, |b: int| 0u8));
        chunk
    }

    /// The tile placed at `loc`: `None` for an empty slot and outside the chunk.
    pub fn get_tile(&self, loc: IVec2) -> (tile: Option<Entity>)
        ensures
            tile == self@.get_tile(loc),
    {
        if !verify_chunk_loc(loc) {
            return None;
        }
        self.tiles[loc.x as usize][loc.y as usize]
    }

    /// The packed RGBA8 texture.
    pub fn image_data(&self) -> (data: &Vec<u8>)
        ensures
            data@ == self@.image,
    {
        &self.image
    }

    /// The positions whose part of the texture is stale.
    pub fn dirty_tiles(&self) -> (dirty: &Vec<IVec2>)
        ensures
            dirty@ == self@.dirty,
    {
        &self.dirty_tiles
    }

    fn is_dirty(&self, loc: IVec2) -> (found: bool)
        ensures
            found == self@.dirty.contains(loc),
    {
        let mut i: usize = 0;
        while i < self.dirty_tiles.len()
            invariant
                i <= self.dirty_tiles.len(),
                forall|k: int| 0 <= k < i ==> self.dirty_tiles@[k] != loc,
            decreases self.dirty_tiles.len() - i,
        {
            if self.dirty_tiles[i] == loc {
                return true;
            }
            i = i + 1;
        }
        false
    }

    /// Marks the slot at `loc` dirty. A slot that is dirty already, or a
    /// position outside the chunk, changes nothing.
    pub fn update_tile(&mut self, loc: IVec2)
        requires
            old(self).wf(),
        ensures
            final(self).wf(),
            final(self)@ == old(self)@.mark_dirty(loc),
    {
        if !verify_chunk_loc(loc) {
            return ;
        }
        if self.is_dirty(loc) {
            return ;
        }
        self.dirty_tiles.push(loc);
        assert(final(self)@.tiles =~= old(self)@.tiles);
    }

    /// Removes the tile at `loc` and schedules it for removal from the arena.
    pub fn delete_tile(&mut self, loc: IVec2, arena: &mut Arena)
        requires
            old(self).wf(),
        ensures
            final(self).wf(),
            (final(self)@, final(arena)@) == old(self)@.delete_tile(old(arena)@, loc),
    {
        if let Some(entity) = self.get_tile(loc) {
            arena.mark_deleting(entity);
            self.tiles[loc.x as usize][loc.y as usize] = None;
            assert(self@.tiles =~= old(self)@.tiles.remove(loc));
            self.update_tile(loc);
        }
    }

    /// Removes the tile at `loc` and destroys it at once.
    pub fn delete_unmarked(&mut self, loc: IVec2, arena: &mut Arena)
        requires
            old(self).wf(),
        ensures
            final(self).wf(),
            (final(self)@, final(arena)@) == old(self)@.delete_unmarked(old(arena)@, loc),
    {
        if let Some(entity) = self.get_tile(loc) {
            arena.despawn(entity);
            self.tiles[loc.x as usize][loc.y as usize] = None;
            assert(self@.tiles =~= old(self)@.tiles.remove(loc));
            self.update_tile(loc);
        }
    }

    /// Installs an existing tile at `loc`. A previous occupant is scheduled
    /// for removal. Outside the chunk nothing happens.
    pub fn set_tile_entity(&mut self, loc: IVec2, entity: Entity, arena: &mut Arena)
        requires
            old(self).wf(),
        ensures
            final(self).wf(),
            (final(self)@, final(arena)@) == old(self)@.set_tile_entity(old(arena)@, loc, entity),
    {
        if !verify_chunk_loc(loc) {
            return ;
        }
        self.delete_tile(loc, arena);
        let ghost emptied = self@;
        self.tiles[loc.x as usize][loc.y as usize] = Some(entity);
        assert(self@.tiles =~= emptied.tiles.insert(loc, entity));
        self.update_tile(loc);
    }

    /// Brings the texture up to date with the tiles. For every dirty slot the
    /// occupant's pixels are copied into the slot's 8×8 block of the texture,
    /// bottom tile row to top texture row; the block of an empty slot becomes
    /// transparent. The dirty list is emptied. Returns whether anything was
    /// dirty, that is whether the texture is to be published again.
    pub fn update_texture(&mut self, arena: &Arena) -> (published: bool)
        requires
            old(self).wf(),
        ensures
            final(self).wf(),
            final(self)@ == old(self)@.synced(arena@),
            published == (old(self)@.dirty.len() > 0),
    {
        if self.dirty_tiles.is_empty() {
            assert(self@.image =~= old(self)@.synced(arena@).image);
            assert(self@.dirty =~= Seq::<IVec2>::empty());
            return false;
        }
        let mut k: usize = 0;
        while k < self.dirty_tiles.len()
            invariant
                k <= self.dirty_tiles.len(),
                old(self).wf(),
                self.dirty_tiles@ == old(self).dirty_tiles@,
                self.tiles == old(self).tiles,
                self.image@.len() == 65536,
                forall|b: int|
                    0 <= b < 65536 ==> #[trigger] self.image@[b] == (if old(self)@.dirty.take(
                        k as int,
                    ).contains(byte_tile(b)) {
                        old(self)@.painted_byte(arena@, b)
                    } else {
                        old(self)@.image[b]
                    }),
            decreases self.dirty_tiles.len() - k,
        {
            let loc = self.dirty_tiles[k];
            assert(in_chunk(old(self)@.dirty[k as int]));
            match self.get_tile(loc) {
                Some(entity) => {
                    match arena.get_tile(entity) {
                        Some(tile) => {
                            paint(&mut self.image, loc, Some(tile));
                        },
                        None => {},
                    }
                },
                None => {
                    paint(&mut self.image, loc, None);
                },
            }
            proof {
                let prefix = old(self)@.dirty.take(k as int);
                let next = old(self)@.dirty.take(k as int + 1);
                assert(next =~= prefix.push(loc));
                assert forall|b: int| 0 <= b < 65536 implies #[trigger] self.image@[b] == (
                if next.contains(byte_tile(b)) {
                    old(self)@.painted_byte(arena@, b)
                } else {
                    old(self)@.image[b]
                }) by {
                    if byte_tile(b) == loc {
                        assert(next[k as int] == loc);
                    } else {
                        if next.contains(byte_tile(b)) {
                            let i = choose|i: int| 0 <= i < next.len() && next[i] == byte_tile(b);
                            assert(prefix[i] == byte_tile(b));
                        }
                    }
                }
            }
            k = k + 1;
        }
        assert(old(self)@.dirty.take(k as int) =~= old(self)@.dirty);
        self.dirty_tiles.clear();
        assert(self@.image =~= old(self)@.synced(arena@).image);
        assert(self@.tiles =~= old(self)@.tiles);
        true
    }

    /// Creates a tile in the arena and installs it at `loc`. A previous
    /// occupant is scheduled for removal. Outside the chunk nothing happens
    /// and no tile is created.
    pub fn set_tile(
        &mut self,
        loc: IVec2,
        tile: Tile,
        marker: Option<MultiTileMarker>,
        arena: &mut Arena,
    )
        requires
            old(self).wf(),
        ensures
            final(self).wf(),
            (final(self)@, final(arena)@) == old(self)@.set_tile(old(arena)@, loc, tile, marker),
    {
        if !verify_chunk_loc(loc) {
            return ;
        }
        self.delete_tile(loc, arena);
        let ghost emptied = self@;
        let entity = arena.spawn_tile(tile, marker);
        self.tiles[loc.x as usize][loc.y as usize] = Some(entity);
        assert(self@.tiles =~= emptied.tiles.insert(loc, entity));
        self.update_tile(loc);
    }
}

/// The indices, in ascending order, of the chunks among the first `n` that
/// have a dirty slot.
pub open spec fn stale_views(chunks: Seq<ChunkView>, n: nat) -> Seq<usize>
    decreases n,
{
    if n == 0 {
        Seq::empty()
    } else {
        let k = (n - 1) as nat;
        if chunks[k as int].dirty.len() > 0 {
            stale_views(chunks, k).push(k as usize)
        } else {
            stale_views(chunks, k)
        }
    }
}

/// The indices, in ascending order, of the chunks among the first `n` that
/// have a dirty slot.
pub open spec fn stale_chunks(chunks: Seq<Chunk>, n: nat) -> Seq<usize>
    decreases n,
{
    if n == 0 {
        Seq::empty()
    } else {
        let k = (n - 1) as nat;
        if chunks[k as int]@.dirty.len() > 0 {
            stale_chunks(chunks, k).push(k as usize)
        } else {
            stale_chunks(chunks, k)
        }
    }
}

/// Which chunks have a dirty slot depends on what the chunks hold alone.
pub proof fn lemma_stale_chunks_by_view(chunks: Seq<Chunk>, views: Seq<ChunkView>, n: nat)
    requires
        n <= chunks.len(),
        views.len() == chunks.len(),
        forall|i: int| 0 <= i < chunks.len() ==> views[i] == (#[trigger] chunks[i])@,
    ensures
        stale_chunks(chunks, n) == stale_views(views, n),
    decreases n,
{
    if n > 0 {
        lemma_stale_chunks_by_view(chunks, views, (n - 1) as nat);
    }
}

/// Brings the texture of every chunk up to date with its tiles. Returns the
/// indices of the chunks whose texture was repainted and is to be published again.
pub fn chunk_texture_update(chunks: &mut Vec<Chunk>, arena: &Arena) -> (published: Vec<usize>)
    requires
        forall|i: int| 0 <= i < old(chunks)@.len() ==> #[trigger] old(chunks)@[i].wf(),
    ensures
        final(chunks)@.len() == old(chunks)@.len(),
        forall|i: int|
            0 <= i < old(chunks)@.len() ==> (#[trigger] final(chunks)@[i]).wf()
                && final(chunks)@[i]@ == old(chunks)@[i]@.synced(arena@),
        published@ == stale_chunks(old(chunks)@, old(chunks)@.len()),
{
    let mut published: Vec<usize> = Vec::new();
    let mut i: usize = 0;
    while i < chunks.len()
        invariant
            i <= chunks@.len(),
            chunks@.len() == old(chunks)@.len(),
            forall|j: int|
                0 <= j < i ==> (#[trigger] chunks@[j]).wf()
                    && chunks@[j]@ == old(chunks)@[j]@.synced(arena@),
            forall|j: int| i <= j < chunks@.len() ==> #[trigger] chunks@[j] == old(chunks)@[j],
            forall|j: int| 0 <= j < old(chunks)@.len() ==> #[trigger] old(chunks)@[j].wf(),
            published@ == stale_chunks(old(chunks)@, i as nat),
        decreases chunks@.len() - i,
    {
        assert(chunks@[i as int] == old(chunks)@[i as int]);
        if chunks[i].update_texture(arena) {
            published.push(i);
        }
        i = i + 1;
    }
    published
}

/// Destroys every tile that is scheduled for removal. Returns how many
/// tiles were destroyed.
pub fn chunk_deleter(arena: &mut Arena) -> (destroyed: usize)
    ensures
        final(arena)@ == swept(old(arena)@),
        destroyed == tombstones_in_prefix(old(arena)@, old(arena)@.len()),
{
    let mut destroyed: usize = 0;
    let mut i: usize = 0;
    let n = arena.len();
    assert(arena@ =~= swept_prefix(old(arena)@, 0));
    while i < n
        invariant
            i <= n,
            n == old(arena)@.len(),
            arena@ == swept_prefix(old(arena)@, i as int),
            destroyed == tombstones_in_prefix(old(arena)@, i as nat),
            destroyed <= i,
        decreases n - i,
    {
        let entity = Entity { id: i };
        assert(tombstoned(arena@, entity) == tombstoned(old(arena)@, entity));
        if arena.is_deleting(entity) {
            arena.despawn(entity);
            destroyed = destroyed + 1;
        }
        assert(arena@ =~= swept_prefix(old(arena)@, i as int + 1));
        i = i + 1;
    }
    destroyed
}

/// Bringing up to date a chunk whose only dirty slot is `loc` rewrites
/// exactly that slot's 8×8 block of the texture. Channel `channel` of pixel
/// `pixel` lands at `texture_index(loc, pixel, channel)`, which flips the
/// rows; it takes the occupant's pixel, or zero where the slot is empty.
/// Every byte of every other slot keeps its value.
pub proof fn lemma_sync_one_slot(chunk: ChunkView, arena: Seq<Slot>, loc: IVec2)
    requires
        chunk.wf(),
        chunk.dirty == seq![loc],
    ensures
        chunk.synced(arena).dirty.len() == 0,
        chunk.synced(arena).tiles == chunk.tiles,
        forall|b: int|
            0 <= b < 65536 && byte_tile(b) != loc ==> #[trigger] chunk.synced(arena).image[b]
                == chunk.image[b],
        forall|pixel: IVec2, channel: int|
            in_tile(pixel) && 0 <= channel < 4 ==> 0 <= #[trigger] texture_index(
                loc,
                pixel,
                channel,
            ) < 65536 && byte_tile(texture_index(loc, pixel, channel)) == loc,
        !chunk.tiles.contains_key(loc) ==> forall|pixel: IVec2, channel: int|
            in_tile(pixel) && 0 <= channel < 4 ==> chunk.synced(arena).image[#[trigger] texture_index(
                loc,
                pixel,
                channel,
            )] == 0,
        chunk.tiles.contains_key(loc) && tile_entry(arena, chunk.tiles[loc]) is Some
            ==> forall|pixel: IVec2, channel: int|
            in_tile(pixel) && 0 <= channel < 4 ==> chunk.synced(arena).image[#[trigger] texture_index(
                loc,
                pixel,
                channel,
            )] == tile_entry(arena, chunk.tiles[loc]).unwrap().tile.pixel(
                pixel.x as int,
                pixel.y as int,
            ).channel(channel),
{
    assert(chunk.dirty[0] == loc);
    assert(in_chunk(loc));
    assert forall|pixel: IVec2, channel: int| in_tile(pixel) && 0 <= channel < 4 implies 0
        <= #[trigger] texture_index(loc, pixel, channel) < 65536 && byte_tile(
        texture_index(loc, pixel, channel),
    ) == loc && byte_pixel(texture_index(loc, pixel, channel)) == pixel && texture_index(
        loc,
        pixel,
        channel,
    ) % 4 == channel by {
        let b = texture_index(loc, pixel, channel);
        assert(b == texture_index(loc, pixel, 0) + channel);
        lemma_texture_index(loc, pixel, b);
    }
    assert forall|b: int| 0 <= b < 65536 && byte_tile(b) != loc implies #[trigger] chunk.synced(
        arena,
    ).image[b] == chunk.image[b] by {
        if chunk.dirty.contains(byte_tile(b)) {
            let i = choose|i: int| 0 <= i < chunk.dirty.len() && chunk.dirty[i] == byte_tile(b);
            assert(false);
        }
    }
}

/// Every change to a slot keeps the chunk well formed and the arena's size.
pub proof fn lemma_slot_changes_keep_wf(
    chunk: ChunkView,
    arena: Seq<Slot>,
    loc: IVec2,
    entity: Entity,
)
    requires
        chunk.wf(),
    ensures
        chunk.mark_dirty(loc).wf(),
        chunk.cleared(loc).wf(),
        chunk.delete_tile(arena, loc).0.wf(),
        chunk.delete_tile(arena, loc).1.len() == arena.len(),
        chunk.delete_unmarked(arena, loc).0.wf(),
        chunk.delete_unmarked(arena, loc).1.len() == arena.len(),
        chunk.set_tile_entity(arena, loc, entity).0.wf(),
        chunk.set_tile_entity(arena, loc, entity).1.len() == arena.len(),
{
    lemma_mark_dirty_idempotent(chunk, loc);
    let emptied = ChunkView { tiles: chunk.tiles.remove(loc), ..chunk };
    assert(emptied.wf());
    lemma_mark_dirty_idempotent(emptied, loc);
    if in_chunk(loc) {
        let before = chunk.delete_tile(arena, loc).0;
        let installed = ChunkView { tiles: before.tiles.insert(loc, entity), ..before };
        assert(installed.wf());
        lemma_mark_dirty_idempotent(installed, loc);
    }
}

/// Marking a slot dirty twice is the same as marking it once, and a slot
/// inside the chunk is then listed exactly once.
pub proof fn lemma_mark_dirty_idempotent(chunk: ChunkView, loc: IVec2)
    requires
        chunk.wf(),
    ensures
        chunk.mark_dirty(loc).wf(),
        chunk.mark_dirty(loc).mark_dirty(loc) == chunk.mark_dirty(loc),
        in_chunk(loc) ==> chunk.mark_dirty(loc).dirty.contains(loc),
        forall|i: int, j: int|
            0 <= i < chunk.mark_dirty(loc).dirty.len() && 0 <= j < chunk.mark_dirty(loc).dirty.len()
                && chunk.mark_dirty(loc).dirty[i] == loc && chunk.mark_dirty(loc).dirty[j] == loc
                ==> i == j,
{
    let marked = chunk.mark_dirty(loc);
    if in_chunk(loc) && !chunk.dirty.contains(loc) {
        assert(marked.dirty[chunk.dirty.len() as int] == loc);
    }
}

} // verus!
