use std::collections::HashMap;
use std::collections::VecDeque;
use vstd::prelude::*;

use crate::arena::{swept, tile_entry, tombstoned, with_pixel, Arena, Entity, Slot, TileEntry};
use crate::chunk::{
    chunk_texture_update, lemma_slot_changes_keep_wf, lemma_stale_chunks_by_view, stale_views, Chunk,
    ChunkView,
};
use crate::multi_tile::MultiTileMarker;
use crate::tile::{Color, Tile};
use crate::util::{
    chunk_from_location, chunk_of, in_chunk, lemma_location_decomposes, tile_from_location, tile_of,
    IVec2,
};

verus! {

/// A change to the map that was asked for and is not applied yet.
#[derive(Clone, Copy, Debug, PartialEq, Eq, Structural)]
pub enum TileEvent {
    /// Create the chunk with this chunk coordinate.
    MakeChunk(IVec2),
    /// Install tile `entity` at world location `loc`.
    SetTile { loc: IVec2, entity: Entity },
    /// Remove the tile at world location `loc`: with a tombstone if `mark`
    /// is set, destroyed at once otherwise.
    DeleteTile { loc: IVec2, mark: bool },
    /// Paint pixel `pixel` of the tile at world location `loc`.
    SetPixel { loc: IVec2, pixel: IVec2, color: Color },
}

/// What a tilemap holds, as mathematical values.
pub struct TilemapView {
    /// From chunk coordinate to the handle of the chunk created for it.
    pub index: Map<IVec2, Entity>,
    /// The chunks by handle, in the order of their creation.
    pub chunks: Seq<ChunkView>,
    /// The chunk coordinate of each chunk, by handle.
    pub coords: Seq<IVec2>,
    /// The events that wait for the next drain, first in line first.
    pub tasks: Seq<TileEvent>,
}

/// The key under which the chunk index files chunk coordinate `c`: both
/// coordinates shifted to be non-negative, `x` in the upper 32 bits.
pub open spec fn chunk_key(c: IVec2) -> u64 {
    ((c.x + 2147483648) * 4294967296 + (c.y + 2147483648)) as u64
}

/// Different chunk coordinates have different keys.
pub proof fn lemma_chunk_key_injective(a: IVec2, b: IVec2)
    requires
        chunk_key(a) == chunk_key(b),
    ensures
        a == b,
{
}

fn key_of(c: IVec2) -> (key: u64)
    ensures
        key == chunk_key(c),
{
    let x: u64 = (c.x as i64 + 2147483648) as u64;
    let y: u64 = (c.y as i64 + 2147483648) as u64;
    x * 4294967296 + y
}

impl ChunkView {
    /// A chunk as it is created: no tiles, a transparent texture, nothing dirty.
    pub open spec fn empty() -> ChunkView {
        ChunkView {
            tiles: Map::empty(),
            image: Seq::new(65536, |b: int| 0u8),
            dirty: Seq::empty(),
        }
    }
}

impl TilemapView {
    /// Every indexed handle names one of the chunks, every chunk has its
    /// coordinate on record, and every chunk is well formed.
    pub open spec fn wf(self) -> bool {
        &&& self.coords.len() == self.chunks.len()
        &&& forall|c: IVec2| #[trigger]
            self.index.contains_key(c) ==> self.index[c].id < self.chunks.len()
        &&& forall|i: int| 0 <= i < self.chunks.len() ==> (#[trigger] self.chunks[i]).wf()
    }

    /// Whether the chunk that owns world location `loc` exists.
    pub open spec fn has_chunk(self, loc: IVec2) -> bool {
        self.index.contains_key(chunk_of(loc))
    }

    /// The handle of the chunk that owns world location `loc`.
    pub open spec fn get_chunk(self, loc: IVec2) -> Option<Entity> {
        if self.has_chunk(loc) {
            Some(self.index[chunk_of(loc)])
        } else {
            None
        }
    }

    /// The tile placed at world location `loc`, by the chunks as they are now.
    pub open spec fn get_tile(self, loc: IVec2) -> Option<Entity> {
        if self.has_chunk(loc) && self.index[chunk_of(loc)].id < self.chunks.len() {
            self.chunks[self.index[chunk_of(loc)].id as int].get_tile(tile_of(loc))
        } else {
            None
        }
    }

    /// The map with one more event at the back of the queue.
    pub open spec fn enqueue(self, event: TileEvent) -> TilemapView {
        TilemapView { tasks: self.tasks.push(event), ..self }
    }

    /// Asking for the chunk of `loc`: where it does not exist, its creation
    /// goes to the front of the queue, ahead of everything that waits.
    pub open spec fn require_chunk(self, loc: IVec2) -> TilemapView {
        if self.has_chunk(loc) {
            self
        } else {
            TilemapView { tasks: seq![TileEvent::MakeChunk(chunk_of(loc))] + self.tasks, ..self }
        }
    }

    /// Placing a tile at `loc`: the tile is created in the arena at once, the
    /// chunk is asked for, and the placement goes to the back of the queue.
    pub open spec fn set_tile(
        self,
        arena: Seq<Slot>,
        loc: IVec2,
        tile: Tile,
        marker: Option<MultiTileMarker>,
    ) -> (TilemapView, Seq<Slot>, Entity) {
        let entity = Entity { id: arena.len() as usize };
        (
            self.require_chunk(loc).enqueue(TileEvent::SetTile { loc, entity }),
            arena.push(Slot::Tile(TileEntry { tile, deleting: None, marker })),
            entity,
        )
    }

    /// The map with an empty queue.
    pub open spec fn idle(self) -> TilemapView {
        TilemapView { tasks: Seq::empty(), ..self }
    }

    /// The map with the chunk behind `handle` replaced.
    pub open spec fn with_chunk(self, handle: Entity, chunk: ChunkView) -> TilemapView {
        TilemapView { chunks: self.chunks.update(handle.id as int, chunk), ..self }
    }

    /// Applying one event to a map whose queue holds what has to wait for the
    /// next drain.
    ///
    /// - `MakeChunk(c)` creates the chunk at `c` unless it exists.
    /// - `SetTile` installs the tile in its chunk and gives a previous
    ///   occupant its tombstone. Where the chunk does not exist, the chunk's
    ///   creation goes to the front of the queue and the event to its back.
    /// - `DeleteTile` empties the slot; the occupant gets its tombstone or is
    ///   destroyed at once. Without the chunk nothing happens.
    /// - `SetPixel` paints the occupant's pixel and marks the slot dirty.
    ///   Without the chunk or on an empty slot nothing happens.
    pub open spec fn apply(self, arena: Seq<Slot>, event: TileEvent) -> (TilemapView, Seq<Slot>) {
        match event {
            TileEvent::MakeChunk(c) => {
                if self.index.contains_key(c) {
                    (self, arena)
                } else {
                    (
                        TilemapView {
                            index: self.index.insert(c, Entity { id: self.chunks.len() as usize }),
                            chunks: self.chunks.push(ChunkView::empty()),
                            coords: self.coords.push(c),
                            ..self
                        },
                        arena,
                    )
                }
            },
            TileEvent::SetTile { loc, entity } => {
                if self.has_chunk(loc) {
                    let handle = self.index[chunk_of(loc)];
                    let (chunk, marked) = self.chunks[handle.id as int].set_tile_entity(
                        arena,
                        tile_of(loc),
                        entity,
                    );
                    (self.with_chunk(handle, chunk), marked)
                } else {
                    (
                        TilemapView {
                            tasks: seq![TileEvent::MakeChunk(chunk_of(loc))] + self.tasks.push(
                                event,
                            ),
                            ..self
                        },
                        arena,
                    )
                }
            },
            TileEvent::DeleteTile { loc, mark } => {
                if self.has_chunk(loc) {
                    let handle = self.index[chunk_of(loc)];
                    let (chunk, removed) = if mark {
                        self.chunks[handle.id as int].delete_tile(arena, tile_of(loc))
                    } else {
                        self.chunks[handle.id as int].delete_unmarked(arena, tile_of(loc))
                    };
                    (self.with_chunk(handle, chunk), removed)
                } else {
                    (self, arena)
                }
            },
            TileEvent::SetPixel { loc, pixel, color } => {
                if self.has_chunk(loc) {
                    let handle = self.index[chunk_of(loc)];
                    let chunk = self.chunks[handle.id as int];
                    match chunk.get_tile(tile_of(loc)) {
                        Some(tile) => (
                            self.with_chunk(handle, chunk.mark_dirty(tile_of(loc))),
                            with_pixel(arena, tile, pixel, color),
                        ),
                        None => (self, arena),
                    }
                } else {
                    (self, arena)
                }
            },
        }
    }

    /// Applying the events of `queue` in order, front first.
    pub open spec fn run(self, arena: Seq<Slot>, queue: Seq<TileEvent>) -> (TilemapView, Seq<Slot>)
        decreases queue.len(),
    {
        if queue.len() == 0 {
            (self, arena)
        } else {
            let (map, arena1) = self.apply(arena, queue[0]);
            map.run(arena1, queue.skip(1))
        }
    }

    /// One drain: every queued event is applied once, in order. What could
    /// not be applied yet is the queue afterwards.
    pub open spec fn drain(self, arena: Seq<Slot>) -> (TilemapView, Seq<Slot>) {
        self.idle().run(arena, self.tasks)
    }

    /// The map after the texture of every chunk was brought up to date.
    pub open spec fn synced(self, arena: Seq<Slot>) -> TilemapView {
        TilemapView {
            chunks: Seq::new(self.chunks.len(), |i: int| self.chunks[i].synced(arena)),
            ..self
        }
    }

    /// Whether every tile handle that the map holds, in a slot of a chunk or
    /// in a queued placement, was handed out by an arena of `count` handles.
    pub open spec fn within(self, count: nat) -> bool {
        &&& forall|i: int, at: IVec2|
            0 <= i < self.chunks.len() && #[trigger] self.chunks[i].tiles.contains_key(at)
                ==> self.chunks[i].tiles[at].id < count
        &&& forall|k: int|
            0 <= k < self.tasks.len() ==> (#[trigger] self.tasks[k] matches TileEvent::SetTile {
                entity,
                ..
            } ==> entity.id < count)
    }

    /// Whether no slot of any chunk holds tile `e`.
    pub open spec fn unplaced(self, e: Entity) -> bool {
        forall|i: int, at: IVec2|
            0 <= i < self.chunks.len() && #[trigger] self.chunks[i].tiles.contains_key(at)
                ==> self.chunks[i].tiles[at] != e
    }

    /// Asking for pixel `pixel` of the tile at `loc` to be painted: queued
    /// only if the chunk exists.
    pub open spec fn set_pixel(self, loc: IVec2, pixel: IVec2, color: Color) -> TilemapView {
        if self.has_chunk(loc) {
            self.enqueue(TileEvent::SetPixel { loc, pixel, color })
        } else {
            self
        }
    }

    /// Asking for the tile at `loc` to be removed: queued only if the chunk exists.
    pub open spec fn delete(self, loc: IVec2, mark: bool) -> TilemapView {
        if self.has_chunk(loc) {
            self.enqueue(TileEvent::DeleteTile { loc, mark })
        } else {
            self
        }
    }
}

/// A sparse, unbounded grid of tiles: the chunks created so far, indexed by
/// chunk coordinate, and the queue of changes that wait for the next drain.
pub struct Tilemap {
    index: HashMap<u64, Entity>,
    chunks: Vec<Chunk>,
    coords: Vec<IVec2>,
    tasks: VecDeque<TileEvent>,
}

impl View for Tilemap {
    type V = TilemapView;

    closed spec fn view(&self) -> TilemapView {
        TilemapView {
            index: Map::new(
                |c: IVec2| self.index@.contains_key(chunk_key(c)),
                |c: IVec2| self.index@[chunk_key(c)],
            ),
            chunks: Seq::new(self.chunks@.len(), |i: int| self.chunks@[i]@),
            coords: self.coords@,
            tasks: self.tasks@,
        }
    }
}

impl Default for Tilemap {
    fn default() -> (map: Tilemap)
        ensures
            map.wf(),
            map@.index == Map::<IVec2, Entity>::empty(),
            map@.chunks == Seq::<ChunkView>::empty(),
            map@.coords == Seq::<IVec2>::empty(),
            map@.tasks == Seq::<TileEvent>::empty(),
    {
        Tilemap::new()
    }
}

impl Tilemap {
    /// The tilemap's invariant: see [`TilemapView::wf`].
    pub open spec fn wf(&self) -> bool {
        self@.wf()
    }

    /// A tilemap without chunks and with an empty queue.
    pub fn new() -> (map: Tilemap)
        ensures
            map.wf(),
            map@.index == Map::<IVec2, Entity>::empty(),
            map@.chunks == Seq::<ChunkView>::empty(),
            map@.coords == Seq::<IVec2>::empty(),
            map@.tasks == Seq::<TileEvent>::empty(),
    {
        let map = Tilemap {
            index: HashMap::new(),
            chunks: Vec::new(),
            coords: Vec::new(),
            tasks: VecDeque::new(),
        };
        assert(map@.index =~= Map::<IVec2, Entity>::empty());
        assert(map@.chunks =~= Seq::<ChunkView>::empty());
        map
    }

    /// Whether the chunk that owns world location `loc` exists.
    pub fn has_chunk(&self, loc: IVec2) -> (found: bool)
        ensures
            found == self@.has_chunk(loc),
    {
        let key = key_of(chunk_from_location(loc));
        self.index.contains_key(&key)
    }

    /// The handle of the chunk that owns world location `loc`.
    pub fn get_chunk(&self, loc: IVec2) -> (chunk: Option<Entity>)
        ensures
            chunk == self@.get_chunk(loc),
    {
        let key = key_of(chunk_from_location(loc));
        match self.index.get(&key) {
            Some(handle) => Some(*handle),
            None => None,
        }
    }

    /// The tile placed at world location `loc`, by the chunks as they are
    /// now: changes that wait in the queue do not count.
    pub fn get_tile(&self, loc: IVec2) -> (tile: Option<Entity>)
        ensures
            tile == self@.get_tile(loc),
    {
        match self.get_chunk(loc) {
            Some(handle) => {
                if handle.id < self.chunks.len() {
                    self.chunks[handle.id].get_tile(tile_from_location(loc))
                } else {
                    None
                }
            },
            None => None,
        }
    }

    /// The number of chunks created so far.
    pub fn chunk_count(&self) -> (n: usize)
        ensures
            n == self@.chunks.len(),
    {
        self.chunks.len()
    }

    /// The chunk behind a handle that [`Tilemap::get_chunk`] returned.
    pub fn chunk(&self, handle: Entity) -> (chunk: Option<&Chunk>)
        ensures
            match chunk {
                Some(c) => handle.id < self@.chunks.len() && c@ == self@.chunks[handle.id as int],
                None => handle.id >= self@.chunks.len(),
            },
    {
        if handle.id < self.chunks.len() {
            Some(&self.chunks[handle.id])
        } else {
            None
        }
    }

    /// The chunk coordinate of the chunk behind a handle.
    pub fn chunk_location(&self, handle: Entity) -> (coord: Option<IVec2>)
        ensures
            coord == (if handle.id < self@.coords.len() {
                Some(self@.coords[handle.id as int])
            } else {
                None
            }),
    {
        if handle.id < self.coords.len() {
            Some(self.coords[handle.id])
        } else {
            None
        }
    }

    /// The number of events that wait for the next drain.
    pub fn pending(&self) -> (n: usize)
        ensures
            n == self@.tasks.len(),
    {
        self.tasks.len()
    }

    /// The event at position `i` of the queue, the front being position 0.
    pub fn task(&self, i: usize) -> (event: Option<TileEvent>)
        ensures
            event == (if i < self@.tasks.len() {
                Some(self@.tasks[i as int])
            } else {
                None
            }),
    {
        if i < self.tasks.len() {
            Some(self.tasks[i])
        } else {
            None
        }
    }

    /// Makes sure that the chunk of `loc` will exist before anything that
    /// waits in the queue is applied.
    pub fn require_chunk(&mut self, loc: IVec2)
        ensures
            final(self)@ == old(self)@.require_chunk(loc),
    {
        let chunk = chunk_from_location(loc);
        if !self.index.contains_key(&key_of(chunk)) {
            self.tasks.push_front(TileEvent::MakeChunk(IVec2::new(chunk.x, chunk.y)));
        }
    }

    /// Creates a tile and asks for it to be placed at `loc`. The handle is
    /// valid at once; the tile sits in its chunk after the next drain.
    pub fn set_tile(
        &mut self,
        arena: &mut Arena,
        loc: IVec2,
        tile: Tile,
        marker: Option<MultiTileMarker>,
    ) -> (entity: Entity)
        ensures
            entity.id == old(arena)@.len(),
            (final(self)@, final(arena)@, entity) == old(self)@.set_tile(
                old(arena)@,
                loc,
                tile,
                marker,
            ),
    {
        self.require_chunk(loc);
        let entity = arena.spawn_tile(tile, marker);
        self.tasks.push_back(TileEvent::SetTile { loc, entity });
        entity
    }

    /// As [`Tilemap::set_tile`], unless a tile sits at `loc` already: then
    /// nothing is created or queued and the result is `None`.
    pub fn try_set_tile(
        &mut self,
        arena: &mut Arena,
        loc: IVec2,
        tile: Tile,
        marker: Option<MultiTileMarker>,
    ) -> (entity: Option<Entity>)
        ensures
            old(self)@.get_tile(loc) is Some ==> entity is None && final(self)@ == old(self)@
                && final(arena)@ == old(arena)@,
            old(self)@.get_tile(loc) is None ==> entity is Some && (
                final(self)@,
                final(arena)@,
                entity.unwrap(),
            ) == old(self)@.set_tile(old(arena)@, loc, tile, marker),
    {
        if self.get_tile(loc).is_some() {
            return None;
        }
        Some(self.set_tile(arena, loc, tile, marker))
    }

    /// Brings the texture of every chunk up to date with its tiles. Returns
    /// the handles' indices of the chunks whose texture was repainted.
    pub fn update_textures(&mut self, arena: &Arena) -> (published: Vec<usize>)
        requires
            old(self).wf(),
        ensures
            final(self).wf(),
            final(self)@ == old(self)@.synced(arena@),
            published@ == stale_views(old(self)@.chunks, old(self)@.chunks.len()),
    {
        proof {
            lemma_stale_chunks_by_view(self.chunks@, self@.chunks, self.chunks@.len());
            assert forall|i: int| 0 <= i < self.chunks@.len() implies (#[trigger] self.chunks@[i]).wf() by {
                assert(self@.chunks[i].wf());
            }
        }
        let published = chunk_texture_update(&mut self.chunks, arena);
        assert(self@.chunks =~= old(self)@.synced(arena@).chunks);
        assert(self@.index =~= old(self)@.index);
        published
    }

    /// Asks for one pixel of the tile at `loc` to be painted. Ignored where
    /// the chunk of `loc` does not exist.
    pub fn set_pixel(&mut self, loc: IVec2, pixel: IVec2, color: Color)
        ensures
            final(self)@ == old(self)@.set_pixel(loc, pixel, color),
    {
        if !self.has_chunk(loc) {
            return ;
        }
        self.tasks.push_back(TileEvent::SetPixel { loc, pixel, color })
    }

    /// Asks for the tile at `loc` to be removed with a tombstone. Ignored
    /// where the chunk of `loc` does not exist.
    pub fn delete_tile(&mut self, loc: IVec2)
        ensures
            final(self)@ == old(self)@.delete(loc, true),
    {
        if !self.has_chunk(loc) {
            return ;
        }
        self.tasks.push_back(TileEvent::DeleteTile { loc, mark: true });
        self.require_chunk(loc)
    }

    /// Asks for the tile at `loc` to be removed and destroyed at once.
    /// Ignored where the chunk of `loc` does not exist.
    pub fn delete_without_marker(&mut self, loc: IVec2)
        ensures
            final(self)@ == old(self)@.delete(loc, false),
    {
        if !self.has_chunk(loc) {
            return ;
        }
        self.tasks.push_back(TileEvent::DeleteTile { loc, mark: false });
        self.require_chunk(loc)
    }
}

/// Drains the queue of `tilemap`: every waiting event is applied once, in
/// order, to the chunks and to the arena. An event that cannot be applied yet
/// waits for the next drain, behind the creation of the chunk it needs.
pub fn tilemap_event_system(tilemap: &mut Tilemap, arena: &mut Arena)
    requires
        old(tilemap).wf(),
    ensures
        final(tilemap).wf(),
        (final(tilemap)@, final(arena)@) == old(tilemap)@.drain(old(arena)@),
{
    let mut remaining_tasks: VecDeque<TileEvent> = VecDeque::new();
    while tilemap.tasks.len() > 0
        invariant
            tilemap.wf(),
            (TilemapView { tasks: remaining_tasks@, ..tilemap@ }).run(arena@, tilemap@.tasks)
                == old(tilemap)@.drain(old(arena)@),
        decreases tilemap.tasks.len(),
    {
        let ghost before = TilemapView { tasks: remaining_tasks@, ..tilemap@ };
        let ghost queue_before = tilemap@.tasks;
        let ghost arena_before = arena@;
        let event = tilemap.tasks.pop_front().unwrap();
        assert(tilemap@.tasks == queue_before.skip(1));
        assert(event == queue_before[0]);
        match event {
            TileEvent::MakeChunk(loc) => {
                let key = key_of(loc);
                if !tilemap.index.contains_key(&key) {
                    let entity = Entity { id: tilemap.chunks.len() };
                    tilemap.chunks.push(Chunk::new());
                    tilemap.coords.push(loc);
                    tilemap.index.insert(key, entity);
                    proof {
                        let applied = before.apply(arena_before, event).0;
                        assert forall|c: IVec2| #[trigger]
                            tilemap@.index.contains_key(c) == applied.index.contains_key(c) && (
                            tilemap@.index.contains_key(c) ==> tilemap@.index[c]
                                == applied.index[c]) by {
                            if chunk_key(c) == chunk_key(loc) {
                                lemma_chunk_key_injective(c, loc);
                            }
                        }
                        assert(tilemap@.index =~= applied.index);
                        assert(tilemap@.chunks =~= applied.chunks);
                    }
                }
            },
            TileEvent::SetTile { loc, entity } => {
                match tilemap.get_chunk(loc) {
                    Some(handle) => {
                        assert(before.index.contains_key(chunk_of(loc)));
                        tilemap.chunks[handle.id].set_tile_entity(
                            tile_from_location(loc),
                            entity,
                            arena,
                        );
                        proof {
                            let applied = before.apply(arena_before, event).0;
                            assert(tilemap@.index =~= applied.index);
                            assert(tilemap@.chunks =~= applied.chunks);
                        }
                    },
                    None => {
                        remaining_tasks.push_front(TileEvent::MakeChunk(chunk_from_location(loc)));
                        remaining_tasks.push_back(TileEvent::SetTile { loc, entity });
                        assert(remaining_tasks@ =~= seq![TileEvent::MakeChunk(chunk_of(loc))]
                            + before.tasks.push(event));
                    },
                }
            },
            TileEvent::DeleteTile { loc, mark } => {
                match tilemap.get_chunk(loc) {
                    Some(handle) => {
                        assert(before.index.contains_key(chunk_of(loc)));
                        if mark {
                            tilemap.chunks[handle.id].delete_tile(tile_from_location(loc), arena);
                        } else {
                            tilemap.chunks[handle.id].delete_unmarked(
                                tile_from_location(loc),
                                arena,
                            );
                        }
                        proof {
                            let applied = before.apply(arena_before, event).0;
                            assert(tilemap@.index =~= applied.index);
                            assert(tilemap@.chunks =~= applied.chunks);
                        }
                    },
                    None => {},
                }
            },
            TileEvent::SetPixel { loc, pixel, color } => {
                match tilemap.get_chunk(loc) {
                    Some(handle) => {
                        assert(before.index.contains_key(chunk_of(loc)));
                        let tile_loc = tile_from_location(loc);
                        match tilemap.chunks[handle.id].get_tile(tile_loc) {
                            Some(tile) => {
                                arena.set_tile_pixel(tile, pixel, color);
                                tilemap.chunks[handle.id].update_tile(tile_loc);
                                proof {
                                    let applied = before.apply(arena_before, event).0;
                                    assert(tilemap@.index =~= applied.index);
                                    assert(tilemap@.chunks =~= applied.chunks);
                                }
                            },
                            None => {},
                        }
                    },
                    None => {},
                }
            },
        }
        assert((TilemapView { tasks: remaining_tasks@, ..tilemap@ }) == before.apply(
            arena_before,
            event,
        ).0);
    }
    let ghost waiting = remaining_tasks@;
    tilemap.tasks.append(&mut remaining_tasks);
    assert(tilemap@.tasks =~= waiting);
}

/// Whether `event` installs tile `e`.
pub open spec fn installs(event: TileEvent, e: Entity) -> bool {
    event matches TileEvent::SetTile { entity, .. } && entity == e
}

/// Applying an event keeps the map well formed, never forgets a chunk and
/// neither creates nor forgets a handle of the arena.
pub proof fn lemma_apply_keeps_wf(map: TilemapView, arena: Seq<Slot>, event: TileEvent)
    requires
        map.wf(),
    ensures
        map.apply(arena, event).0.wf(),
        map.apply(arena, event).1.len() == arena.len(),
        map.apply(arena, event).0.chunks.len() >= map.chunks.len(),
        forall|c: IVec2| #[trigger]
            map.index.contains_key(c) ==> map.apply(arena, event).0.index.contains_key(c)
                && map.apply(arena, event).0.index[c] == map.index[c],
{
    match event {
        TileEvent::MakeChunk(c) => {
            assert(ChunkView::empty().wf());
        },
        TileEvent::SetTile { loc, entity } => {
            if map.has_chunk(loc) {
                let handle = map.index[chunk_of(loc)];
                lemma_slot_changes_keep_wf(
                    map.chunks[handle.id as int],
                    arena,
                    tile_of(loc),
                    entity,
                );
            }
        },
        TileEvent::DeleteTile { loc, mark } => {
            if map.has_chunk(loc) {
                let handle = map.index[chunk_of(loc)];
                lemma_slot_changes_keep_wf(
                    map.chunks[handle.id as int],
                    arena,
                    tile_of(loc),
                    handle,
                );
            }
        },
        TileEvent::SetPixel { loc, pixel, color } => {
            if map.has_chunk(loc) {
                let handle = map.index[chunk_of(loc)];
                lemma_slot_changes_keep_wf(
                    map.chunks[handle.id as int],
                    arena,
                    tile_of(loc),
                    handle,
                );
            }
        },
    }
}

/// An event that does not install tile `e` leaves `e` out of every slot,
/// where no slot held it before, and leaves what `e` refers to untouched.
pub proof fn lemma_apply_spares_unplaced(
    map: TilemapView,
    arena: Seq<Slot>,
    event: TileEvent,
    e: Entity,
)
    requires
        map.wf(),
        map.unplaced(e),
        !installs(event, e),
    ensures
        map.apply(arena, event).0.unplaced(e),
        e.id < arena.len() ==> map.apply(arena, event).1[e.id as int] == arena[e.id as int],
{
    let after = map.apply(arena, event).0;
    match event {
        TileEvent::MakeChunk(c) => {},
        TileEvent::SetTile { loc, entity } => {
            if map.has_chunk(loc) {
                let handle = map.index[chunk_of(loc)];
                let chunk = map.chunks[handle.id as int];
                if chunk.tiles.contains_key(tile_of(loc)) {
                    assert(chunk.tiles[tile_of(loc)] != e);
                }
                assert forall|i: int, at: IVec2|
                    0 <= i < after.chunks.len() && #[trigger] after.chunks[i].tiles.contains_key(
                        at,
                    ) implies after.chunks[i].tiles[at] != e by {
                    if i == handle.id && at != tile_of(loc) {
                        assert(chunk.tiles.contains_key(at));
                    } else if i != handle.id {
                        assert(map.chunks[i].tiles.contains_key(at));
                    }
                }
            }
        },
        TileEvent::DeleteTile { loc, mark } => {
            if map.has_chunk(loc) {
                let handle = map.index[chunk_of(loc)];
                let chunk = map.chunks[handle.id as int];
                if chunk.tiles.contains_key(tile_of(loc)) {
                    assert(chunk.tiles[tile_of(loc)] != e);
                }
                assert forall|i: int, at: IVec2|
                    0 <= i < after.chunks.len() && #[trigger] after.chunks[i].tiles.contains_key(
                        at,
                    ) implies after.chunks[i].tiles[at] != e by {
                    if i == handle.id {
                        assert(chunk.tiles.contains_key(at));
                    } else {
                        assert(map.chunks[i].tiles.contains_key(at));
                    }
                }
            }
        },
        TileEvent::SetPixel { loc, pixel, color } => {
            if map.has_chunk(loc) {
                let handle = map.index[chunk_of(loc)];
                let chunk = map.chunks[handle.id as int];
                if chunk.tiles.contains_key(tile_of(loc)) {
                    assert(chunk.tiles[tile_of(loc)] != e);
                }
                assert forall|i: int, at: IVec2|
                    0 <= i < after.chunks.len() && #[trigger] after.chunks[i].tiles.contains_key(
                        at,
                    ) implies after.chunks[i].tiles[at] != e by {
                    if i == handle.id {
                        assert(chunk.tiles.contains_key(at));
                    } else {
                        assert(map.chunks[i].tiles.contains_key(at));
                    }
                }
            }
        },
    }
}

/// Applying a queue that nowhere installs tile `e` keeps the map well
/// formed, never forgets a chunk, leaves `e` out of every slot and leaves
/// what `e` refers to untouched.
pub proof fn lemma_run_spares_unplaced(
    map: TilemapView,
    arena: Seq<Slot>,
    queue: Seq<TileEvent>,
    e: Entity,
)
    requires
        map.wf(),
        map.unplaced(e),
        forall|k: int| 0 <= k < queue.len() ==> !installs(#[trigger] queue[k], e),
    ensures
        map.run(arena, queue).0.wf(),
        map.run(arena, queue).0.unplaced(e),
        map.run(arena, queue).1.len() == arena.len(),
        e.id < arena.len() ==> map.run(arena, queue).1[e.id as int] == arena[e.id as int],
        forall|c: IVec2| #[trigger]
            map.index.contains_key(c) ==> map.run(arena, queue).0.index.contains_key(c)
                && map.run(arena, queue).0.index[c] == map.index[c],
    decreases queue.len(),
{
    if queue.len() > 0 {
        let (next, arena1) = map.apply(arena, queue[0]);
        lemma_apply_keeps_wf(map, arena, queue[0]);
        lemma_apply_spares_unplaced(map, arena, queue[0], e);
        let rest = queue.skip(1);
        assert forall|k: int| 0 <= k < rest.len() implies !installs(#[trigger] rest[k], e) by {
            assert(rest[k] == queue[k + 1]);
        }
        lemma_run_spares_unplaced(next, arena1, rest, e);
    }
}

/// Applying a queue with one more event at its back is applying the queue
/// and then the event.
pub proof fn lemma_run_push(
    map: TilemapView,
    arena: Seq<Slot>,
    queue: Seq<TileEvent>,
    event: TileEvent,
)
    ensures
        map.run(arena, queue.push(event)) == map.run(arena, queue).0.apply(
            map.run(arena, queue).1,
            event,
        ),
    decreases queue.len(),
{
    let longer = queue.push(event);
    if queue.len() == 0 {
        assert(longer.skip(1) =~= Seq::<TileEvent>::empty());
        let (next, arena1) = map.apply(arena, event);
        assert(next.run(arena1, longer.skip(1)) == (next, arena1));
    } else {
        let (next, arena1) = map.apply(arena, queue[0]);
        assert(longer[0] == queue[0]);
        assert(longer.skip(1) =~= queue.skip(1).push(event));
        lemma_run_push(next, arena1, queue.skip(1), event);
    }
}

/// A tile that is placed sits in its chunk after one drain. Whatever
/// waited in the queue, and whether or not the chunk of `loc` existed:
/// after `set_tile` and one drain the chunk exists, the tile created by
/// `set_tile` is the occupant of `loc`, and it is alive with the pixels and
/// the marker it was given.
pub proof fn lemma_placed_after_drain(
    map: TilemapView,
    arena: Seq<Slot>,
    loc: IVec2,
    tile: Tile,
    marker: Option<MultiTileMarker>,
)
    requires
        map.wf(),
        map.within(arena.len()),
        arena.len() <= usize::MAX,
    ensures
        ({
            let (asked, spawned, entity) = map.set_tile(arena, loc, tile, marker);
            let (drained, settled) = asked.drain(spawned);
            &&& drained.wf()
            &&& drained.has_chunk(loc)
            &&& drained.get_tile(loc) == Some(entity)
            &&& tile_entry(settled, entity) == Some(TileEntry { tile, deleting: None, marker })
        }),
{
    let (asked, spawned, entity) = map.set_tile(arena, loc, tile, marker);
    let place = TileEvent::SetTile { loc, entity };
    let ahead = map.require_chunk(loc).tasks;
    assert(asked.tasks == ahead.push(place));
    assert(asked.idle() == map.idle());
    lemma_run_push(map.idle(), spawned, ahead, place);
    lemma_ahead_of_placement(map, spawned, loc, entity);
    let (ready, before) = map.idle().run(spawned, ahead);
    lemma_install(ready, before, loc, entity);
}

/// Running what waits ahead of a placement at `loc`, the creation of the
/// chunk included where it was asked for, leaves the chunk of `loc` in
/// existence and the new tile `entity` untouched and in no slot.
proof fn lemma_ahead_of_placement(map: TilemapView, spawned: Seq<Slot>, loc: IVec2, entity: Entity)
    requires
        map.wf(),
        map.within(entity.id as nat),
        entity.id < spawned.len(),
    ensures
        ({
            let (ready, before) = map.idle().run(spawned, map.require_chunk(loc).tasks);
            &&& ready.wf()
            &&& ready.has_chunk(loc)
            &&& ready.unplaced(entity)
            &&& before.len() == spawned.len()
            &&& before[entity.id as int] == spawned[entity.id as int]
        }),
{
    let ahead = map.require_chunk(loc).tasks;
    assert forall|k: int| 0 <= k < map.tasks.len() implies !installs(
        #[trigger] map.tasks[k],
        entity,
    ) by {}
    assert(map.idle().unplaced(entity));
    if map.has_chunk(loc) {
        lemma_run_spares_unplaced(map.idle(), spawned, map.tasks, entity);
    } else {
        let make = TileEvent::MakeChunk(chunk_of(loc));
        assert(ahead[0] == make);
        assert(ahead.skip(1) =~= map.tasks);
        let (made, arena1) = map.idle().apply(spawned, make);
        lemma_apply_keeps_wf(map.idle(), spawned, make);
        lemma_apply_spares_unplaced(map.idle(), spawned, make, entity);
        assert(made.index.contains_key(chunk_of(loc)));
        lemma_run_spares_unplaced(made, arena1, map.tasks, entity);
    }
}

/// Installing tile `entity` at `loc`, where the chunk exists and no slot
/// holds the tile yet, makes it the occupant of `loc` and leaves what it
/// refers to untouched.
proof fn lemma_install(map: TilemapView, arena: Seq<Slot>, loc: IVec2, entity: Entity)
    requires
        map.wf(),
        map.has_chunk(loc),
        map.unplaced(entity),
        entity.id < arena.len(),
    ensures
        ({
            let (after, marked) = map.apply(arena, TileEvent::SetTile { loc, entity });
            &&& after.wf()
            &&& after.has_chunk(loc)
            &&& after.index == map.index
            &&& after.get_tile(loc) == Some(entity)
            &&& marked.len() == arena.len()
            &&& marked[entity.id as int] == arena[entity.id as int]
        }),
{
    let event = TileEvent::SetTile { loc, entity };
    lemma_apply_keeps_wf(map, arena, event);
    lemma_location_decomposes(loc);
    let handle = map.index[chunk_of(loc)];
    let chunk = map.chunks[handle.id as int];
    if chunk.tiles.contains_key(tile_of(loc)) {
        assert(chunk.tiles[tile_of(loc)] != entity);
    }
}

/// A tile that is placed and at once asked to be removed, both before the
/// drain, is gone after the drain and the sweep. Where the chunk of `loc`
/// exists: after `set_tile`, `delete_tile`, one drain and one sweep the
/// slot at `loc` is empty and the tile is destroyed; the drain left it
/// alive with its tombstone, and after the sweep nothing is tombstoned, so
/// that it is destroyed once.
pub proof fn lemma_placed_then_deleted(
    map: TilemapView,
    arena: Seq<Slot>,
    loc: IVec2,
    tile: Tile,
    marker: Option<MultiTileMarker>,
)
    requires
        map.wf(),
        map.within(arena.len()),
        arena.len() < usize::MAX,
        map.has_chunk(loc),
    ensures
        ({
            let (asked, spawned, entity) = map.set_tile(arena, loc, tile, marker);
            let (drained, settled) = asked.delete(loc, true).drain(spawned);
            &&& drained.wf()
            &&& drained.get_tile(loc) is None
            &&& tombstoned(settled, entity)
            &&& swept(settled)[entity.id as int] is Despawned
            &&& forall|e: Entity| !tombstoned(swept(settled), e)
        }),
{
    let (asked, spawned, entity) = map.set_tile(arena, loc, tile, marker);
    let place = TileEvent::SetTile { loc, entity };
    let remove = TileEvent::DeleteTile { loc, mark: true };
    let both = asked.delete(loc, true);
    assert(map.require_chunk(loc) == map);
    assert(both.tasks == map.tasks.push(place).push(remove));
    assert(both.idle() == map.idle());
    lemma_run_push(map.idle(), spawned, map.tasks.push(place), remove);
    lemma_run_push(map.idle(), spawned, map.tasks, place);
    lemma_ahead_of_placement(map, spawned, loc, entity);
    let (ready, before) = map.idle().run(spawned, map.tasks);
    lemma_install(ready, before, loc, entity);
    let (installed, marked) = ready.apply(before, place);
    lemma_apply_keeps_wf(installed, marked, remove);
    lemma_location_decomposes(loc);
    let (drained, settled) = installed.apply(marked, remove);
    assert(settled.len() == spawned.len());
    crate::arena::lemma_sweep_destroys(settled, entity);
    crate::arena::lemma_sweep_settles(settled, 0);
}

/// Whether every placement in `queue` installs a tile that was handed out
/// by an arena of `count` handles.
pub open spec fn placements_within(queue: Seq<TileEvent>, count: nat) -> bool {
    forall|k: int|
        0 <= k < queue.len() ==> (#[trigger] queue[k] matches TileEvent::SetTile { entity, .. }
            ==> entity.id < count)
}

/// Placing a tile keeps the map's handles inside the arena, which has one
/// handle more.
pub proof fn lemma_set_tile_within(
    map: TilemapView,
    arena: Seq<Slot>,
    loc: IVec2,
    tile: Tile,
    marker: Option<MultiTileMarker>,
)
    requires
        map.within(arena.len()),
        arena.len() < usize::MAX,
    ensures
        map.set_tile(arena, loc, tile, marker).0.within(
            map.set_tile(arena, loc, tile, marker).1.len(),
        ),
{
    let asked = map.set_tile(arena, loc, tile, marker).0;
    assert forall|k: int| 0 <= k < asked.tasks.len() implies (
    #[trigger] asked.tasks[k] matches TileEvent::SetTile { entity, .. } ==> entity.id
        < arena.len() + 1) by {
        let ahead = map.require_chunk(loc).tasks;
        if k < ahead.len() {
            if !map.has_chunk(loc) && k > 0 {
                assert(ahead[k] == map.tasks[k - 1]);
            }
        }
    }
}

/// Asking for a chunk, for a removal or for a pixel to be painted keeps the
/// map's handles inside the arena: none of these installs a tile.
pub proof fn lemma_requests_within(
    map: TilemapView,
    loc: IVec2,
    pixel: IVec2,
    color: Color,
    mark: bool,
    count: nat,
)
    requires
        map.within(count),
    ensures
        map.require_chunk(loc).within(count),
        map.set_pixel(loc, pixel, color).within(count),
        map.delete(loc, mark).within(count),
{
    let asked = map.require_chunk(loc);
    assert forall|k: int| 0 <= k < asked.tasks.len() implies (
    #[trigger] asked.tasks[k] matches TileEvent::SetTile { entity, .. } ==> entity.id < count) by {
        if !map.has_chunk(loc) && k > 0 {
            assert(asked.tasks[k] == map.tasks[k - 1]);
        }
    }
}

/// Applying an event whose tile, if it installs one, lies inside the arena
/// keeps the map's handles inside the arena.
pub proof fn lemma_apply_within(map: TilemapView, arena: Seq<Slot>, event: TileEvent, count: nat)
    requires
        map.wf(),
        map.within(count),
        event matches TileEvent::SetTile { entity, .. } ==> entity.id < count,
    ensures
        map.apply(arena, event).0.within(count),
{
    let after = map.apply(arena, event).0;
    match event {
        TileEvent::MakeChunk(c) => {
            assert forall|i: int, at: IVec2|
                0 <= i < after.chunks.len() && #[trigger] after.chunks[i].tiles.contains_key(
                    at,
                ) implies after.chunks[i].tiles[at].id < count by {
                if i < map.chunks.len() {
                    assert(map.chunks[i].tiles.contains_key(at));
                }
            }
        },
        TileEvent::SetTile { loc, entity } => {
            if map.has_chunk(loc) {
                let handle = map.index[chunk_of(loc)];
                assert forall|i: int, at: IVec2|
                    0 <= i < after.chunks.len() && #[trigger] after.chunks[i].tiles.contains_key(
                        at,
                    ) implies after.chunks[i].tiles[at].id < count by {
                    if i == handle.id && at != tile_of(loc) {
                        assert(map.chunks[i].tiles.contains_key(at));
                    } else if i != handle.id {
                        assert(map.chunks[i].tiles.contains_key(at));
                    }
                }
            } else {
                assert forall|k: int| 0 <= k < after.tasks.len() implies (
                #[trigger] after.tasks[k] matches TileEvent::SetTile { entity, .. } ==> entity.id
                    < count) by {
                    if 0 < k < after.tasks.len() - 1 {
                        assert(after.tasks[k] == map.tasks[k - 1]);
                    }
                }
            }
        },
        TileEvent::DeleteTile { loc, mark } => {
            if map.has_chunk(loc) {
                assert forall|i: int, at: IVec2|
                    0 <= i < after.chunks.len() && #[trigger] after.chunks[i].tiles.contains_key(
                        at,
                    ) implies after.chunks[i].tiles[at].id < count by {
                    assert(map.chunks[i].tiles.contains_key(at));
                }
            }
        },
        TileEvent::SetPixel { loc, pixel, color } => {
            if map.has_chunk(loc) {
                assert forall|i: int, at: IVec2|
                    0 <= i < after.chunks.len() && #[trigger] after.chunks[i].tiles.contains_key(
                        at,
                    ) implies after.chunks[i].tiles[at].id < count by {
                    assert(map.chunks[i].tiles.contains_key(at));
                }
            }
        },
    }
}

/// Applying a queue whose placements lie inside the arena keeps the map's
/// handles inside the arena.
pub proof fn lemma_run_within(map: TilemapView, arena: Seq<Slot>, queue: Seq<TileEvent>, count: nat)
    requires
        map.wf(),
        map.within(count),
        placements_within(queue, count),
    ensures
        map.run(arena, queue).0.wf(),
        map.run(arena, queue).0.within(count),
    decreases queue.len(),
{
    if queue.len() > 0 {
        let (next, arena1) = map.apply(arena, queue[0]);
        lemma_apply_keeps_wf(map, arena, queue[0]);
        lemma_apply_within(map, arena, queue[0], count);
        let rest = queue.skip(1);
        assert forall|k: int| 0 <= k < rest.len() implies (
        #[trigger] rest[k] matches TileEvent::SetTile { entity, .. } ==> entity.id < count) by {
            assert(rest[k] == queue[k + 1]);
        }
        lemma_run_within(next, arena1, rest, count);
    }
}

/// A drain keeps the map well formed and its handles inside the arena,
/// whose size it does not change.
pub proof fn lemma_drain_within(map: TilemapView, arena: Seq<Slot>)
    requires
        map.wf(),
        map.within(arena.len()),
    ensures
        map.drain(arena).0.wf(),
        map.drain(arena).0.within(arena.len()),
{
    assert(map.idle().within(arena.len()));
    lemma_run_within(map.idle(), arena, map.tasks, arena.len());
}

} // verus!
