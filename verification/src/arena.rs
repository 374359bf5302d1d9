use vstd::prelude::*;

use crate::multi_tile::{MultiTile, MultiTileMarker};
use crate::tile::{Color, DeletingTile, Tile};
use crate::util::IVec2;

verus! {

/// A stable handle to a slot of an [`Arena`]. Handles are never reused.
#[derive(Clone, Copy, Debug, PartialEq, Eq, Structural)]
pub struct Entity {
    pub id: usize,
}

/// A tile that lives in an arena, with what is attached to it.
#[derive(Clone, Copy, Debug)]
pub struct TileEntry {
    pub tile: Tile,
    /// Set while the tile is scheduled for removal and not yet destroyed.
    pub deleting: Option<DeletingTile>,
    /// Set when the tile belongs to a composite.
    pub marker: Option<MultiTileMarker>,
}

/// What a handle refers to.
#[derive(Clone, Debug)]
pub enum Slot {
    /// A live object with nothing attached yet.
    Empty,
    /// A live tile.
    Tile(TileEntry),
    /// A live composite.
    MultiTile(MultiTile),
    /// The object was destroyed.
    Despawned,
}

/// The store of tiles and composites, addressed by handle.
pub struct Arena {
    slots: Vec<Slot>,
}

/// Whether `e` refers to an object that was created and not destroyed.
pub open spec fn alive(slots: Seq<Slot>, e: Entity) -> bool {
    e.id < slots.len() && !(slots[e.id as int] is Despawned)
}

/// The tile behind `e`, if `e` is a live tile.
pub open spec fn tile_entry(slots: Seq<Slot>, e: Entity) -> Option<TileEntry> {
    if e.id < slots.len() {
        match slots[e.id as int] {
            Slot::Tile(entry) => Some(entry),
            _ => None,
        }
    } else {
        None
    }
}

/// The composite behind `e`, if `e` is a live composite.
pub open spec fn multi_tile_entry(slots: Seq<Slot>, e: Entity) -> Option<MultiTile> {
    if e.id < slots.len() {
        match slots[e.id as int] {
            Slot::MultiTile(mt) => Some(mt),
            _ => None,
        }
    } else {
        None
    }
}

/// Whether `e` is a live tile that is scheduled for removal.
pub open spec fn tombstoned(slots: Seq<Slot>, e: Entity) -> bool {
    match tile_entry(slots, e) {
        Some(entry) => entry.deleting is Some,
        None => false,
    }
}

/// The store after `e` was scheduled for removal: a live tile gets its
/// tombstone, anything else leaves the store unchanged.
pub open spec fn with_tombstone(slots: Seq<Slot>, e: Entity) -> Seq<Slot> {
    match tile_entry(slots, e) {
        Some(entry) => slots.update(
            e.id as int,
            Slot::Tile(
                TileEntry { tile: entry.tile, deleting: Some(DeletingTile), marker: entry.marker },
            ),
        ),
        None => slots,
    }
}

/// The store after `e` was destroyed: a live object becomes `Despawned`,
/// anything else leaves the store unchanged.
pub open spec fn without(slots: Seq<Slot>, e: Entity) -> Seq<Slot> {
    if alive(slots, e) {
        slots.update(e.id as int, Slot::Despawned)
    } else {
        slots
    }
}

/// The store after one pixel of tile `e` was painted. Nothing changes unless
/// `e` is a live tile.
pub open spec fn with_pixel(slots: Seq<Slot>, e: Entity, pixel: IVec2, color: Color) -> Seq<Slot> {
    match tile_entry(slots, e) {
        Some(entry) => slots.update(
            e.id as int,
            Slot::Tile(
                TileEntry {
                    tile: entry.tile.with_pixel(pixel, color),
                    deleting: entry.deleting,
                    marker: entry.marker,
                },
            ),
        ),
        None => slots,
    }
}

/// The store after every tombstoned tile among the first `n` slots was destroyed.
pub open spec fn swept_prefix(slots: Seq<Slot>, n: int) -> Seq<Slot> {
    Seq::new(
        slots.len(),
        |i: int|
            if i < n && tombstoned(slots, Entity { id: i as usize }) {
                Slot::Despawned
            } else {
                slots[i]
            },
    )
}

/// The store after every tombstoned tile was destroyed.
pub open spec fn swept(slots: Seq<Slot>) -> Seq<Slot> {
    swept_prefix(slots, slots.len() as int)
}

/// The number of tombstoned tiles among the first `n` slots.
pub open spec fn tombstones_in_prefix(slots: Seq<Slot>, n: nat) -> nat
    decreases n,
{
    if n == 0 {
        0
    } else {
        let k = (n - 1) as nat;
        let here: nat = if tombstoned(slots, Entity { id: k as usize }) {
            1
        } else {
            0
        };
        tombstones_in_prefix(slots, k) + here
    }
}

impl View for Arena {
    type V = Seq<Slot>;

    closed spec fn view(&self) -> Seq<Slot> {
        self.slots@
    }
}

impl Arena {
    /// An arena without objects.
    pub fn new() -> (arena: Arena)
        ensures
            arena@ == Seq::<Slot>::empty(),
    {
        Arena { slots: Vec::new() }
    }

    /// The number of handles handed out so far.
    pub fn len(&self) -> (n: usize)
        ensures
            n == self@.len(),
    {
        self.slots.len()
    }

    /// Creates a live object with nothing attached.
    pub fn spawn_empty(&mut self) -> (e: Entity)
        ensures
            e.id == old(self)@.len(),
            final(self)@ == old(self)@.push(Slot::Empty),
    {
        let id = self.slots.len();
        self.slots.push(Slot::Empty);
        Entity { id }
    }

    /// Creates a live tile, not scheduled for removal.
    pub fn spawn_tile(&mut self, tile: Tile, marker: Option<MultiTileMarker>) -> (e: Entity)
        ensures
            e.id == old(self)@.len(),
            final(self)@ == old(self)@.push(Slot::Tile(TileEntry { tile, deleting: None, marker })),
    {
        let id = self.slots.len();
        self.slots.push(Slot::Tile(TileEntry { tile, deleting: None, marker }));
        Entity { id }
    }

    /// Attaches a composite to a live object that has nothing attached.
    /// On any other handle the arena stays as it is.
    pub fn insert_multi_tile(&mut self, e: Entity, multi_tile: MultiTile)
        ensures
            final(self)@ == (if e.id < old(self)@.len() && old(self)@[e.id as int] is Empty {
                old(self)@.update(e.id as int, Slot::MultiTile(multi_tile))
            } else {
                old(self)@
            }),
    {
        if e.id < self.slots.len() {
            let empty = match &self.slots[e.id] {
                Slot::Empty => true,
                _ => false,
            };
            if empty {
                self.slots[e.id] = Slot::MultiTile(multi_tile);
            }
        }
    }

    /// Whether `e` was created and not destroyed.
    pub fn contains(&self, e: Entity) -> (found: bool)
        ensures
            found == alive(self@, e),
    {
        if e.id < self.slots.len() {
            match &self.slots[e.id] {
                Slot::Despawned => false,
                _ => true,
            }
        } else {
            false
        }
    }

    /// The pixels of tile `e`: `None` unless `e` is a live tile.
    pub fn get_tile(&self, e: Entity) -> (tile: Option<&Tile>)
        ensures
            match tile {
                Some(t) => tile_entry(self@, e) is Some && tile_entry(self@, e).unwrap().tile == *t,
                None => tile_entry(self@, e) is None,
            },
    {
        if e.id < self.slots.len() {
            match &self.slots[e.id] {
                Slot::Tile(entry) => Some(&entry.tile),
                _ => None,
            }
        } else {
            None
        }
    }

    /// The composite behind `e`: `None` unless `e` is a live composite.
    pub fn get_multi_tile(&self, e: Entity) -> (multi_tile: Option<&MultiTile>)
        ensures
            match multi_tile {
                Some(mt) => multi_tile_entry(self@, e) == Some(*mt),
                None => multi_tile_entry(self@, e) is None,
            },
    {
        if e.id < self.slots.len() {
            match &self.slots[e.id] {
                Slot::MultiTile(mt) => Some(mt),
                _ => None,
            }
        } else {
            None
        }
    }

    /// Whether `e` is a live tile that is scheduled for removal.
    pub fn is_deleting(&self, e: Entity) -> (deleting: bool)
        ensures
            deleting == tombstoned(self@, e),
    {
        if e.id < self.slots.len() {
            match &self.slots[e.id] {
                Slot::Tile(entry) => entry.deleting.is_some(),
                _ => false,
            }
        } else {
            false
        }
    }

    /// The composite that tile `e` belongs to: `None` unless `e` is a live
    /// tile that carries a marker.
    pub fn marker(&self, e: Entity) -> (marker: Option<MultiTileMarker>)
        ensures
            marker == (match tile_entry(self@, e) {
                Some(entry) => entry.marker,
                None => None,
            }),
    {
        if e.id < self.slots.len() {
            match &self.slots[e.id] {
                Slot::Tile(entry) => entry.marker,
                _ => None,
            }
        } else {
            None
        }
    }

    /// Schedules tile `e` for removal. The tile stays alive until the next sweep.
    pub fn mark_deleting(&mut self, e: Entity)
        ensures
            final(self)@ == with_tombstone(old(self)@, e),
    {
        if e.id < self.slots.len() {
            let marked = match &self.slots[e.id] {
                Slot::Tile(entry) => Some(
                    TileEntry {
                        tile: entry.tile,
                        deleting: Some(DeletingTile),
                        marker: entry.marker,
                    },
                ),
                _ => None,
            };
            match marked {
                Some(entry) => {
                    self.slots[e.id] = Slot::Tile(entry);
                },
                None => {},
            }
        }
    }

    /// Destroys `e` at once. Returns whether there was anything to destroy.
    pub fn despawn(&mut self, e: Entity) -> (destroyed: bool)
        ensures
            destroyed == alive(old(self)@, e),
            final(self)@ == without(old(self)@, e),
    {
        if self.contains(e) {
            self.slots[e.id] = Slot::Despawned;
            true
        } else {
            false
        }
    }

    /// Paints one pixel of tile `e`. Nothing changes unless `e` is a live
    /// tile and `pixel` lies inside it.
    pub fn set_tile_pixel(&mut self, e: Entity, pixel: IVec2, color: Color)
        ensures
            final(self)@ == with_pixel(old(self)@, e, pixel, color),
    {
        if e.id < self.slots.len() {
            let painted = match &self.slots[e.id] {
                Slot::Tile(entry) => {
                    let mut tile = entry.tile;
                    tile.set_pixel(pixel, color);
                    Some(TileEntry { tile, deleting: entry.deleting, marker: entry.marker })
                },
                _ => None,
            };
            match painted {
                Some(entry) => {
                    self.slots[e.id] = Slot::Tile(entry);
                },
                None => {},
            }
        }
    }
}

/// A sweep destroys exactly the tombstoned tiles: every other handle keeps
/// what it refers to.
pub proof fn lemma_sweep_destroys(slots: Seq<Slot>, e: Entity)
    requires
        e.id < slots.len(),
    ensures
        tombstoned(slots, e) ==> swept(slots)[e.id as int] is Despawned,
        !tombstoned(slots, e) ==> swept(slots)[e.id as int] == slots[e.id as int],
        swept(slots).len() == slots.len(),
{
}

/// After a sweep no tile is tombstoned, so a second sweep finds nothing to
/// destroy: every tile is destroyed once.
pub proof fn lemma_sweep_settles(slots: Seq<Slot>, n: nat)
    requires
        n <= slots.len(),
        slots.len() <= usize::MAX,
    ensures
        forall|e: Entity| !tombstoned(swept(slots), e),
        swept(swept(slots)) == swept(slots),
        tombstones_in_prefix(swept(slots), n) == 0,
    decreases n,
{
    assert forall|e: Entity| !tombstoned(swept(slots), e) by {
        if e.id < slots.len() {
            lemma_sweep_destroys(slots, e);
            assert(e == Entity { id: e.id as int as usize });
        }
    }
    assert(swept(swept(slots)) =~= swept(slots));
    if n > 0 {
        lemma_sweep_settles(slots, (n - 1) as nat);
    }
}

} // verus!
