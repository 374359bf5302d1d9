use vstd::prelude::*;

verus! {

/// A pair of signed integer coordinates: a tile location in the world, a chunk
/// coordinate, a tile position inside a chunk or a pixel position inside a tile.
#[derive(Clone, Copy, Debug, PartialEq, Eq, Structural)]
pub struct IVec2 {
    pub x: i32,
    pub y: i32,
}

impl IVec2 {
    pub fn new(x: i32, y: i32) -> (v: IVec2)
        ensures
            v == (IVec2 { x, y }),
    {
        IVec2 { x, y }
    }
}

/// The floor of `n / 16`: the chunk coordinate that owns tile coordinate `n` on one axis.
pub open spec fn chunk_floor(n: int) -> int {
    n / 16
}

/// The remainder of `n` modulo 16, always in `0..16`: the position of tile
/// coordinate `n` inside its chunk on one axis.
pub open spec fn chunk_rem(n: int) -> int {
    n % 16
}

/// The chunk coordinate that owns the tile at world location `loc`.
pub open spec fn chunk_of(loc: IVec2) -> IVec2 {
    IVec2 { x: chunk_floor(loc.x as int) as i32, y: chunk_floor(loc.y as int) as i32 }
}

/// The position inside its chunk of the tile at world location `loc`.
pub open spec fn tile_of(loc: IVec2) -> IVec2 {
    IVec2 { x: chunk_rem(loc.x as int) as i32, y: chunk_rem(loc.y as int) as i32 }
}

/// Whether `loc` addresses a tile slot inside a chunk.
pub open spec fn in_chunk(loc: IVec2) -> bool {
    0 <= loc.x < 16 && 0 <= loc.y < 16
}

/// Whether `loc` addresses a pixel inside a tile.
pub open spec fn in_tile(loc: IVec2) -> bool {
    0 <= loc.x < 8 && 0 <= loc.y < 8
}

/// Floor division of a tile coordinate by the chunk size. Negative coordinates
/// round toward negative infinity, so `-1` lies in chunk `-1` and `-17` in chunk `-2`.
pub fn align_loc_to_chunk(loc: i32) -> (chunk: i32)
    ensures
        chunk == chunk_floor(loc as int),
        chunk * 16 <= loc < (chunk + 1) * 16,
{
    if loc > 0 {
        loc / 16
    } else if loc < 0 {
        let mut rest: i32 = loc;
        let mut result: i32 = 0;
        while rest < 0
            invariant
                rest == loc - 16 * result,
                result <= 0,
                rest < 16,
                loc < 0,
            decreases 16 - rest,
        {
            rest = rest + 16;
            result = result - 1;
        }
        result
    } else {
        0
    }
}

/// Maps a world tile location to the coordinate of the chunk that owns it.
pub fn chunk_from_location(loc: IVec2) -> (chunk: IVec2)
    ensures
        chunk == chunk_of(loc),
        chunk.x * 16 <= loc.x < (chunk.x + 1) * 16,
        chunk.y * 16 <= loc.y < (chunk.y + 1) * 16,
{
    IVec2::new(align_loc_to_chunk(loc.x), align_loc_to_chunk(loc.y))
}

/// The Euclidean remainder of `n` modulo the chunk size.
fn rem_chunk(n: i32) -> (r: i32)
    ensures
        r == chunk_rem(n as int),
        0 <= r < 16,
{
    let r: i32 = n % 16;
    if r < 0 {
        r + 16
    } else {
        r
    }
}

/// Maps a world tile location to the tile's position inside its chunk.
pub fn tile_from_location(loc: IVec2) -> (tile: IVec2)
    ensures
        tile == tile_of(loc),
        in_chunk(tile),
{
    IVec2::new(rem_chunk(loc.x), rem_chunk(loc.y))
}

/// The tile location of a world position, given the position rounded up to
/// whole units: each axis is shifted by half a chunk less one, which centres
/// tile space on the world origin.
pub fn world_unit_to_tile(ceil: IVec2) -> (tile: IVec2)
    requires
        ceil.x + 7 <= i32::MAX,
        ceil.y + 7 <= i32::MAX,
    ensures
        tile.x == ceil.x + 7,
        tile.y == ceil.y + 7,
{
    IVec2::new(ceil.x + 7, ceil.y + 7)
}

/// The tile location and the pixel inside that tile of a world position.
/// `ceil` is the position rounded up to whole units. `leftover_ceil` is the
/// distance from the position to the tile's anchor, scaled to pixels and
/// rounded up. The pixel is `(8 - leftover.x, leftover.y - 1)`; it may fall
/// just outside the tile, where pixel writes are ignored.
pub fn world_unit_to_pixel(ceil: IVec2, leftover_ceil: IVec2) -> (r: (IVec2, IVec2))
    requires
        ceil.x + 7 <= i32::MAX,
        ceil.y + 7 <= i32::MAX,
        8 - leftover_ceil.x <= i32::MAX,
        leftover_ceil.y - 1 >= i32::MIN,
    ensures
        r.0.x == ceil.x + 7,
        r.0.y == ceil.y + 7,
        r.1.x == 8 - leftover_ceil.x,
        r.1.y == leftover_ceil.y - 1,
{
    let world_loc = world_unit_to_tile(ceil);
    let pixel = IVec2::new(8 - leftover_ceil.x, leftover_ceil.y - 1);
    (world_loc, pixel)
}

/// Every location decomposes into its chunk and its position in that chunk.
pub proof fn lemma_location_decomposes(loc: IVec2)
    ensures
        loc.x == chunk_of(loc).x * 16 + tile_of(loc).x,
        loc.y == chunk_of(loc).y * 16 + tile_of(loc).y,
        in_chunk(tile_of(loc)),
{
}

/// The tile at offset `n` inside chunk `chunk` maps back to that chunk and to
/// position `n`: for `0 <= n < 16` on both axes, the location
/// `chunk * 16 + n` has chunk coordinate `chunk` and in-chunk position `n`.
pub proof fn lemma_chunk_tile_roundtrip(chunk: IVec2, n: IVec2)
    requires
        in_chunk(n),
        i32::MIN <= chunk.x * 16 + n.x <= i32::MAX,
        i32::MIN <= chunk.y * 16 + n.y <= i32::MAX,
    ensures
        ({
            let loc = IVec2 { x: (chunk.x * 16 + n.x) as i32, y: (chunk.y * 16 + n.y) as i32 };
            tile_of(loc) == n && chunk_of(loc) == chunk
        }),
{
}

/// Two locations name the same tile slot exactly when they are equal:
/// a location is determined by its chunk and its position in that chunk.
pub proof fn lemma_location_injective(a: IVec2, b: IVec2)
    requires
        chunk_of(a) == chunk_of(b),
        tile_of(a) == tile_of(b),
    ensures
        a == b,
{
    lemma_location_decomposes(a);
    lemma_location_decomposes(b);
}

} // verus!
