use vstd::prelude::*;

use crate::arena::{multi_tile_entry, tile_entry, tombstoned, without, Arena, Entity, Slot};
use crate::tile::{Color, Image, Tile};
use crate::tilemap::{TileEvent, Tilemap, TilemapView};
use crate::util::IVec2;

verus! {

/// Attached to a tile that belongs to a composite: the composite's handle.
#[derive(Clone, Copy, Debug, PartialEq, Eq, Structural)]
pub struct MultiTileMarker {
    pub entity: Entity,
}

/// A composite that covers a rectangle of tile cells and is placed and
/// removed as one. `pixels` holds the source picture, top row first; `size`
/// counts the cells per axis; `pos` is the world location of the cell with
/// the lowest coordinates; `entities` lists the tiles that were placed.
#[derive(Clone, Debug)]
pub struct MultiTile {
    pub pos: IVec2,
    pub size: IVec2,
    pub pixels: Vec<Vec<Color>>,
    pub entities: Vec<Entity>,
}

/// The world location of the cell at offset `(x, y)` from `pos`, where it
/// is representable.
pub open spec fn cell_location(pos: IVec2, x: int, y: int) -> Option<IVec2> {
    if i32::MIN <= pos.x + x <= i32::MAX && i32::MIN <= pos.y + y <= i32::MAX {
        Some(IVec2 { x: (pos.x + x) as i32, y: (pos.y + y) as i32 })
    } else {
        None
    }
}

/// The map after the first `n` cells of column `x` of a composite were
/// asked for. The tile of cell `(x, y)` has handle `first + x * size.y + y`.
pub open spec fn placed_column(
    map: TilemapView,
    first: int,
    loc: IVec2,
    size: IVec2,
    x: int,
    n: nat,
) -> TilemapView
    decreases n,
{
    if n == 0 {
        map
    } else {
        let y = n - 1;
        let at = IVec2 { x: (loc.x + x) as i32, y: (loc.y + y) as i32 };
        placed_column(map, first, loc, size, x, y as nat).require_chunk(at).enqueue(
            TileEvent::SetTile { loc: at, entity: Entity { id: (first + x * size.y + y) as usize } },
        )
    }
}

/// The map after the first `m` columns of a composite were asked for.
pub open spec fn placed(map: TilemapView, first: int, loc: IVec2, size: IVec2, m: nat) -> TilemapView
    decreases m,
{
    if m == 0 {
        map
    } else {
        placed_column(
            placed(map, first, loc, size, (m - 1) as nat),
            first,
            loc,
            size,
            m - 1,
            size.y as nat,
        )
    }
}

/// The map after the first `n` cells of column `x` of a composite were
/// given up: a cell's removal is asked for where the tile that sits there
/// now is one that the composite placed.
pub open spec fn collapsed_column(map: TilemapView, multi_tile: MultiTile, x: int, n: nat) -> TilemapView
    decreases n,
{
    if n == 0 {
        map
    } else {
        let y = n - 1;
        let before = collapsed_column(map, multi_tile, x, y as nat);
        match cell_location(multi_tile.pos, x, y) {
            Some(at) => match before.get_tile(at) {
                Some(tile) => if multi_tile.entities@.contains(tile) {
                    before.delete(at, true)
                } else {
                    before
                },
                None => before,
            },
            None => before,
        }
    }
}

/// The map after the first `m` columns of a composite were given up.
pub open spec fn collapsed(map: TilemapView, multi_tile: MultiTile, m: nat) -> TilemapView
    decreases m,
{
    if m == 0 {
        map
    } else {
        collapsed_column(
            collapsed(map, multi_tile, (m - 1) as nat),
            multi_tile,
            m - 1,
            if multi_tile.size.y > 0 {
                multi_tile.size.y as nat
            } else {
                0
            },
        )
    }
}

/// The map after all cells of a composite were given up.
pub open spec fn collapsed_all(map: TilemapView, multi_tile: MultiTile) -> TilemapView {
    collapsed(
        map,
        multi_tile,
        if multi_tile.size.x > 0 {
            multi_tile.size.x as nat
        } else {
            0
        },
    )
}

/// The reaction to the tombstones among the first `n` handles of the arena.
/// For a tombstoned tile that carries the marker of a live composite, the
/// composite is destroyed and all its cells are given up, unless a
/// composite with the same origin was handled before in this pass. The
/// third component lists the origins handled so far.
pub open spec fn reacted(map: TilemapView, arena: Seq<Slot>, n: nat) -> (
    TilemapView,
    Seq<Slot>,
    Seq<IVec2>,
)
    decreases n,
{
    if n == 0 {
        (map, arena, Seq::empty())
    } else {
        let before = reacted(map, arena, (n - 1) as nat);
        let tile = Entity { id: (n - 1) as usize };
        if tombstoned(before.1, tile) && tile_entry(before.1, tile).unwrap().marker is Some {
            let owner = tile_entry(before.1, tile).unwrap().marker.unwrap().entity;
            match multi_tile_entry(before.1, owner) {
                Some(multi_tile) => if before.2.contains(multi_tile.pos) {
                    before
                } else {
                    (
                        collapsed_all(before.0, multi_tile),
                        without(before.1, owner),
                        before.2.push(multi_tile.pos),
                    )
                },
                None => before,
            }
        } else {
            before
        }
    }
}

/// The handle of the tile that was placed for cell `(x, y)` of a composite
/// with `rows` cells per column whose first tile has handle `first`.
pub open spec fn cell_entity(first: int, rows: int, x: int, y: int) -> Entity {
    Entity { id: (first + x * rows + y) as usize }
}

/// Cells are numbered column by column: a cell that comes before cell
/// `(tx, ty)` has a smaller number.
pub proof fn lemma_cell_order(rows: int, x: int, y: int, tx: int, ty: int)
    requires
        0 <= x,
        0 <= y < rows,
        0 <= ty <= rows,
        x < tx || (x == tx && y < ty),
    ensures
        0 <= x * rows + y < tx * rows + ty,
{
    assert(0 <= x * rows) by (nonlinear_arith)
        requires
            0 <= x,
            0 <= rows,
    ;
    if x < tx {
        assert((x + 1) * rows <= tx * rows) by (nonlinear_arith)
            requires
                x + 1 <= tx,
                0 <= rows,
        ;
        assert((x + 1) * rows == x * rows + rows) by (nonlinear_arith);
    }
}

fn contains_entity(entities: &Vec<Entity>, entity: Entity) -> (found: bool)
    ensures
        found == entities@.contains(entity),
{
    let mut i: usize = 0;
    while i < entities.len()
        invariant
            i <= entities.len(),
            forall|k: int| 0 <= k < i ==> entities@[k] != entity,
        decreases entities.len() - i,
    {
        if entities[i] == entity {
            return true;
        }
        i = i + 1;
    }
    false
}

fn contains_location(locations: &Vec<IVec2>, loc: IVec2) -> (found: bool)
    ensures
        found == locations@.contains(loc),
{
    let mut i: usize = 0;
    while i < locations.len()
        invariant
            i <= locations.len(),
            forall|k: int| 0 <= k < i ==> locations@[k] != loc,
        decreases locations.len() - i,
    {
        if locations[i] == loc {
            return true;
        }
        i = i + 1;
    }
    false
}

impl MultiTile {
    /// The picture is large enough for the cells: at least `size.y * 8`
    /// rows, each of them at least `size.x * 8` pixels wide.
    pub open spec fn wf(&self) -> bool {
        &&& 0 <= self.size.x
        &&& 0 <= self.size.y
        &&& self.pixels@.len() >= self.size.y * 8
        &&& forall|row: int|
            0 <= row < self.size.y * 8 ==> (#[trigger] self.pixels@[row])@.len() >= self.size.x * 8
    }

    /// Tests the invariant of [`MultiTile::wf`].
    pub fn is_well_formed(&self) -> (ok: bool)
        ensures
            ok == self.wf(),
    {
        if self.size.x < 0 || self.size.y < 0 {
            return false;
        }
        // Widened so that the products cannot overflow.
        let rows: u64 = self.size.y as u64 * 8;
        let columns: u64 = self.size.x as u64 * 8;
        if (self.pixels.len() as u64) < rows {
            return false;
        }
        let mut row: usize = 0;
        while (row as u64) < rows
            invariant
                0 <= self.size.x,
                0 <= self.size.y,
                rows == self.size.y * 8,
                columns == self.size.x * 8,
                self.pixels@.len() >= rows,
                row <= rows,
                forall|r: int| 0 <= r < row ==> (#[trigger] self.pixels@[r])@.len() >= columns,
            decreases rows - row,
        {
            assert(self.pixels@.len() == self.pixels.len());
            if (self.pixels[row].len() as u64) < columns {
                return false;
            }
            row = row + 1;
        }
        true
    }

    /// Whether `offset` names a cell of the composite.
    pub open spec fn has_cell(&self, offset: IVec2) -> bool {
        0 <= offset.x < self.size.x && 0 <= offset.y < self.size.y
    }

    /// The colour of pixel `(x, y)` of the cell at `offset`, rows counted
    /// from the top of the picture.
    pub open spec fn cell_pixel(&self, offset: IVec2, x: int, y: int) -> Color {
        self.pixels@[y + offset.y * 8]@[x + offset.x * 8]
    }

    /// A composite of one colour from a picture of `width` by `height`
    /// pixels. It has one cell for every full 8 pixels on each axis.
    pub fn from_color(color: Color, width: usize, height: usize) -> (multi_tile: MultiTile)
        requires
            width / 8 <= i32::MAX,
            height / 8 <= i32::MAX,
        ensures
            multi_tile.wf(),
            multi_tile.pos == (IVec2 { x: 0, y: 0 }),
            multi_tile.size == (IVec2 { x: (width / 8) as i32, y: (height / 8) as i32 }),
            multi_tile.entities@.len() == 0,
            multi_tile.pixels@.len() == height,
            forall|y: int|
                0 <= y < height ==> (#[trigger] multi_tile.pixels@[y])@ == Seq::new(
                    width as nat,
                    |x: int| color,
                ),
    {
        let mut data: Vec<Vec<Color>> = Vec::new();
        let mut y: usize = 0;
        while y < height
            invariant
                y <= height,
                data@.len() == y,
                forall|j: int|
                    0 <= j < y ==> (#[trigger] data@[j])@ == Seq::new(width as nat, |x: int| color),
            decreases height - y,
        {
            let mut row: Vec<Color> = Vec::new();
            let mut x: usize = 0;
            while x < width
                invariant
                    x <= width,
                    row@.len() == x,
                    forall|i: int| 0 <= i < x ==> row@[i] == color,
                decreases width - x,
            {
                row.push(color);
                x = x + 1;
            }
            assert(row@ =~= Seq::new(width as nat, |x: int| color));
            data.push(row);
            y = y + 1;
        }
        MultiTile {
            pixels: data,
            pos: IVec2::new(0, 0),
            size: IVec2::new((width / 8) as i32, (height / 8) as i32),
            entities: Vec::new(),
        }
    }

    /// A composite from a packed picture. It has one cell for every full 8
    /// pixels on each axis.
    pub fn from_image(image: &Image) -> (multi_tile: MultiTile)
        requires
            image.wf(),
            image.width / 8 <= i32::MAX,
            image.height / 8 <= i32::MAX,
        ensures
            multi_tile.wf(),
            multi_tile.pos == (IVec2 { x: 0, y: 0 }),
            multi_tile.size == (IVec2 {
                x: (image.width / 8) as i32,
                y: (image.height / 8) as i32,
            }),
            multi_tile.entities@.len() == 0,
            multi_tile.pixels@.len() == image.height,
            forall|y: int|
                0 <= y < image.height ==> (#[trigger] multi_tile.pixels@[y])@.len() == image.width,
            forall|x: int, y: int|
                0 <= x < image.width && 0 <= y < image.height ==> multi_tile.pixels@[y]@[x]
                    == image.pixel(x, y),
    {
        let mut pixels: Vec<Vec<Color>> = Vec::new();
        let mut y: usize = 0;
        while y < image.height
            invariant
                y <= image.height,
                image.wf(),
                pixels@.len() == y,
                forall|j: int| 0 <= j < y ==> (#[trigger] pixels@[j])@.len() == image.width,
                forall|i: int, j: int|
                    0 <= i < image.width && 0 <= j < y ==> pixels@[j]@[i] == image.pixel(i, j),
            decreases image.height - y,
        {
            let mut row: Vec<Color> = Vec::new();
            let mut x: usize = 0;
            while x < image.width
                invariant
                    x <= image.width,
                    y < image.height,
                    image.wf(),
                    row@.len() == x,
                    forall|i: int| 0 <= i < x ==> row@[i] == image.pixel(i, y as int),
                decreases image.width - x,
            {
                proof {
                    crate::tile::lemma_pixel_index(
                        image.width as int,
                        image.height as int,
                        x as int,
                        y as int,
                    );
                    assert(image.data@.len() == image.data.len());
                    assert(y * image.width <= image.width * image.height);
                }
                let pixel_index: usize = y * image.width * 4 + x * 4;
                row.push(
                    Color::rgba_u8(
                        image.data[pixel_index],
                        image.data[pixel_index + 1],
                        image.data[pixel_index + 2],
                        image.data[pixel_index + 3],
                    ),
                );
                x = x + 1;
            }
            pixels.push(row);
            y = y + 1;
        }
        MultiTile {
            pixels,
            pos: IVec2::new(0, 0),
            size: IVec2::new((image.width / 8) as i32, (image.height / 8) as i32),
            entities: Vec::new(),
        }
    }

    /// The 8×8 block of the picture at cell `offset`: `None` where `offset`
    /// names no cell of the composite.
    pub fn get_tile(&self, offset: IVec2) -> (tile: Option<Tile>)
        requires
            self.wf(),
        ensures
            tile is Some == self.has_cell(offset),
            tile is Some ==> forall|x: int, y: int|
                0 <= x < 8 && 0 <= y < 8 ==> tile.unwrap().pixel(x, y) == self.cell_pixel(
                    offset,
                    x,
                    y,
                ),
    {
        if offset.x < 0 || offset.x >= self.size.x || offset.y < 0 || offset.y >= self.size.y {
            return None;
        }
        let mut pixels = [[Color::none(); 8]; 8];
        let mut y: usize = 0;
        while y < 8
            invariant
                y <= 8,
                self.wf(),
                self.has_cell(offset),
                forall|i: int, j: int|
                    0 <= i < 8 && 0 <= j < y ==> pixels[j][i] == self.cell_pixel(offset, i, j),
            decreases 8 - y,
        {
            let mut x: usize = 0;
            while x < 8
                invariant
                    x <= 8,
                    y < 8,
                    self.wf(),
                    self.has_cell(offset),
                    forall|i: int, j: int|
                        0 <= i < 8 && 0 <= j < y ==> pixels[j][i] == self.cell_pixel(offset, i, j),
                    forall|i: int| 0 <= i < x ==> pixels[y as int][i] == self.cell_pixel(
                        offset,
                        i,
                        y as int,
                    ),
                decreases 8 - x,
            {
                proof {
                    assert(self.pixels@.len() == self.pixels.len());
                    assert(self.pixels@[0]@.len() >= self.size.x * 8);
                    assert(self.pixels@[0]@.len() == self.pixels@[0].len());
                    assert(self.pixels@[y + offset.y * 8]@.len() >= self.size.x * 8);
                }
                let row: usize = y + offset.y as usize * 8;
                let column: usize = x + offset.x as usize * 8;
                pixels[y][x] = self.pixels[row][column];
                x = x + 1;
            }
            y = y + 1;
        }
        Some(Tile::from_pixels(pixels))
    }

    /// Whether `arena` holds the tile of cell `(x, y)` as `place` creates it
    /// for the composite with handle `owner`: alive, without a tombstone,
    /// with the composite's marker, and showing block `(x, size.y - 1 - y)`
    /// of the picture.
    pub open spec fn holds_cell(&self, arena: Seq<Slot>, owner: Entity, x: int, y: int) -> bool {
        let cell = cell_entity(owner.id + 1, self.size.y as int, x, y);
        &&& tile_entry(arena, cell) is Some
        &&& tile_entry(arena, cell).unwrap().deleting is None
        &&& tile_entry(arena, cell).unwrap().marker == Some(MultiTileMarker { entity: owner })
        &&& forall|px: int, py: int|
            0 <= px < 8 && 0 <= py < 8 ==> tile_entry(arena, cell).unwrap().tile.pixel(px, py)
                == self.cell_pixel(IVec2 { x: x as i32, y: (self.size.y - 1 - y) as i32 }, px, py)
    }

    /// Places the composite with its lowest cell at `loc`. The composite
    /// gets a handle of its own, and one tile is created and asked for per
    /// cell, column by column; each tile carries the composite's marker and
    /// is recorded in the composite. Picture rows run downward and tile rows
    /// upward, so cell `(x, y)` shows block `(x, size.y - 1 - y)` of the
    /// picture. Returns the composite's handle.
    pub fn place(self, loc: IVec2, tilemap: &mut Tilemap, arena: &mut Arena) -> (entity: Entity)
        requires
            self.wf(),
            loc.x + self.size.x <= i32::MAX + 1,
            loc.y + self.size.y <= i32::MAX + 1,
        ensures
            entity.id == old(arena)@.len(),
            final(arena)@.len() == old(arena)@.len() + 1 + self.size.x * self.size.y,
            forall|i: int| 0 <= i < old(arena)@.len() ==> final(arena)@[i] == old(arena)@[i],
            multi_tile_entry(final(arena)@, entity) is Some,
            ({
                let placed_tile = multi_tile_entry(final(arena)@, entity).unwrap();
                &&& placed_tile.pos == loc
                &&& placed_tile.size == self.size
                &&& placed_tile.pixels == self.pixels
                &&& placed_tile.entities@ == self.entities@ + Seq::new(
                    (self.size.x * self.size.y) as nat,
                    |k: int| Entity { id: (entity.id + 1 + k) as usize },
                )
            }),
            forall|x: int, y: int|
                0 <= x < self.size.x && 0 <= y < self.size.y ==> #[trigger] self.holds_cell(
                    final(arena)@,
                    entity,
                    x,
                    y,
                ),
            final(tilemap)@ == placed(
                old(tilemap)@,
                entity.id + 1,
                loc,
                self.size,
                self.size.x as nat,
            ),
    {
        let mut composite = self;
        composite.pos.x = loc.x;
        composite.pos.y = loc.y;
        let entity_id = arena.spawn_empty();
        let ghost first: int = entity_id.id + 1;
        let ghost rows: int = self.size.y as int;
        let mut tile_x: i32 = 0;
        assert(composite.entities@ =~= self.entities@ + Seq::new(
            0nat,
            |k: int| Entity { id: (first + k) as usize },
        ));
        assert(0 == 0 * rows) by (nonlinear_arith);
        while tile_x < composite.size.x
            invariant
                0 <= tile_x <= composite.size.x,
                self.wf(),
                composite.size == self.size,
                composite.pixels == self.pixels,
                composite.pos == loc,
                rows == self.size.y,
                first == old(arena)@.len() + 1,
                entity_id.id == old(arena)@.len(),
                loc.x + self.size.x <= i32::MAX + 1,
                loc.y + self.size.y <= i32::MAX + 1,
                arena@.len() == first + tile_x * rows,
                arena@[entity_id.id as int] == Slot::Empty,
                forall|i: int| 0 <= i < old(arena)@.len() ==> arena@[i] == old(arena)@[i],
                composite.entities@ == self.entities@ + Seq::new(
                    (tile_x * rows) as nat,
                    |k: int| Entity { id: (first + k) as usize },
                ),
                forall|x: int, y: int|
                    0 <= x < tile_x && 0 <= y < rows ==> #[trigger] self.holds_cell(
                        arena@,
                        entity_id,
                        x,
                        y,
                    ),
                tilemap@ == placed(old(tilemap)@, first, loc, self.size, tile_x as nat),
            decreases composite.size.x - tile_x,
        {
            let mut tile_y: i32 = 0;
            let ghost column_start = tilemap@;
            while tile_y < composite.size.y
                invariant
                    0 <= tile_x < composite.size.x,
                    0 <= tile_y <= composite.size.y,
                    self.wf(),
                    composite.size == self.size,
                    composite.pixels == self.pixels,
                    composite.pos == loc,
                    rows == self.size.y,
                    first == old(arena)@.len() + 1,
                    entity_id.id == old(arena)@.len(),
                    loc.x + self.size.x <= i32::MAX + 1,
                    loc.y + self.size.y <= i32::MAX + 1,
                    arena@.len() == first + tile_x * rows + tile_y,
                    arena@[entity_id.id as int] == Slot::Empty,
                    forall|i: int| 0 <= i < old(arena)@.len() ==> arena@[i] == old(arena)@[i],
                    composite.entities@ == self.entities@ + Seq::new(
                        (tile_x * rows + tile_y) as nat,
                        |k: int| Entity { id: (first + k) as usize },
                    ),
                    forall|x: int, y: int|
                        0 <= x && 0 <= y < rows && (x < tile_x || (x == tile_x && y < tile_y))
                            ==> #[trigger] self.holds_cell(arena@, entity_id, x, y),
                    tilemap@ == placed_column(
                        column_start,
                        first,
                        loc,
                        self.size,
                        tile_x as int,
                        tile_y as nat,
                    ),
                decreases composite.size.y - tile_y,
            {
                let ghost arena_before = arena@;
                assert(0 <= tile_x * rows) by (nonlinear_arith)
                    requires
                        0 <= tile_x,
                        0 <= rows,
                ;
                let offset = IVec2::new(tile_x, composite.size.y - 1 - tile_y);
                let tile = composite.get_tile(offset).unwrap();
                let entity = tilemap.set_tile(
                    arena,
                    IVec2::new(loc.x + tile_x, loc.y + tile_y),
                    tile,
                    Some(MultiTileMarker { entity: entity_id }),
                );
                composite.entities.push(entity);
                proof {
                    assert(entity == cell_entity(first, rows, tile_x as int, tile_y as int));
                    assert(composite.entities@ =~= self.entities@ + Seq::new(
                        (tile_x * rows + tile_y + 1) as nat,
                        |k: int| Entity { id: (first + k) as usize },
                    ));
                    assert forall|x: int, y: int|
                        0 <= x && 0 <= y < rows && (x < tile_x || (x == tile_x && y < tile_y + 1))
                        implies #[trigger] self.holds_cell(arena@, entity_id, x, y) by {
                        let cell = cell_entity(first, rows, x, y);
                        if x == tile_x && y == tile_y {
                            assert(offset == (IVec2 { x: x as i32, y: (rows - 1 - y) as i32 }));
                            assert(tile_entry(arena@, cell).unwrap().tile == tile);
                        } else {
                            lemma_cell_order(rows, x, y, tile_x as int, tile_y as int);
                            assert(self.holds_cell(arena_before, entity_id, x, y));
                            assert(tile_entry(arena@, cell) == tile_entry(arena_before, cell));
                        }
                    }
                }
                tile_y = tile_y + 1;
            }
            proof {
                assert((tile_x + 1) * rows == tile_x * rows + rows) by (nonlinear_arith);
            }
            tile_x = tile_x + 1;
        }
        let ghost filled = arena@;
        arena.insert_multi_tile(entity_id, composite);
        proof {
            assert forall|x: int, y: int| 0 <= x < self.size.x && 0 <= y < self.size.y implies
                #[trigger] self.holds_cell(arena@, entity_id, x, y) by {
                let cell = cell_entity(first, rows, x, y);
                lemma_cell_order(rows, x, y, tile_x as int, 0);
                assert(self.holds_cell(filled, entity_id, x, y));
                assert(tile_entry(arena@, cell) == tile_entry(filled, cell));
            }
        }
        entity_id
    }
}

/// Asks for the removal of every cell of `multi_tile` where the tile that
/// sits there now is one that the composite placed.
fn give_up_cells(tilemap: &mut Tilemap, multi_tile: &MultiTile)
    ensures
        final(tilemap)@ == collapsed_all(old(tilemap)@, *multi_tile),
        final(tilemap)@.idle() == old(tilemap)@.idle(),
{
    let mut x: i32 = 0;
    while x < multi_tile.size.x
        invariant
            0 <= x,
            x <= multi_tile.size.x || x == 0,
            tilemap@ == collapsed(old(tilemap)@, *multi_tile, x as nat),
            tilemap@.idle() == old(tilemap)@.idle(),
        decreases multi_tile.size.x - x,
    {
        let mut y: i32 = 0;
        let ghost column_start = tilemap@;
        while y < multi_tile.size.y
            invariant
                0 <= x < multi_tile.size.x,
                0 <= y,
                y <= multi_tile.size.y || y == 0,
                tilemap@ == collapsed_column(column_start, *multi_tile, x as int, y as nat),
                tilemap@.idle() == old(tilemap)@.idle(),
            decreases multi_tile.size.y - y,
        {
            let cell_x: i64 = x as i64 + multi_tile.pos.x as i64;
            let cell_y: i64 = y as i64 + multi_tile.pos.y as i64;
            if cell_x <= 2147483647 && cell_y <= 2147483647 {
                let loc = IVec2::new(cell_x as i32, cell_y as i32);
                if let Some(tile_entity) = tilemap.get_tile(loc) {
                    if contains_entity(&multi_tile.entities, tile_entity) {
                        tilemap.delete_tile(loc);
                    }
                }
            }
            y = y + 1;
        }
        assert(tilemap@ == collapsed(old(tilemap)@, *multi_tile, (x + 1) as nat));
        x = x + 1;
    }
}

/// Reacts to the tiles that were scheduled for removal: where such a tile
/// belongs to a composite, the composite is destroyed and the removal of
/// all its cells is asked for; a cell is left alone where another tile has
/// taken its place. Of several composites with the same origin only the
/// first that is met in a pass is handled.
pub fn multi_tile_delete(tilemap: &mut Tilemap, arena: &mut Arena)
    ensures
        final(tilemap)@ == reacted(old(tilemap)@, old(arena)@, old(arena)@.len()).0,
        final(arena)@ == reacted(old(tilemap)@, old(arena)@, old(arena)@.len()).1,
        final(tilemap)@.idle() == old(tilemap)@.idle(),
        final(arena)@.len() == old(arena)@.len(),
{
    let mut handled_multi_tiles: Vec<IVec2> = Vec::new();
    let n = arena.len();
    let mut i: usize = 0;
    while i < n
        invariant
            i <= n,
            n == old(arena)@.len(),
            arena@.len() == n,
            tilemap@.idle() == old(tilemap)@.idle(),
            (tilemap@, arena@, handled_multi_tiles@) == reacted(
                old(tilemap)@,
                old(arena)@,
                i as nat,
            ),
        decreases n - i,
    {
        let tile = Entity { id: i };
        if arena.is_deleting(tile) {
            if let Some(marker) = arena.marker(tile) {
                let mut destroy = false;
                match arena.get_multi_tile(marker.entity) {
                    Some(multi_tile) => {
                        if !contains_location(&handled_multi_tiles, multi_tile.pos) {
                            handled_multi_tiles.push(multi_tile.pos);
                            give_up_cells(tilemap, multi_tile);
                            destroy = true;
                        }
                    },
                    None => {},
                }
                if destroy {
                    arena.despawn(marker.entity);
                }
            }
        }
        i = i + 1;
    }
}

} // verus!
