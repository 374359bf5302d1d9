use std::ops::Range;
use vstd::prelude::*;

use crate::util::{in_tile, IVec2};

verus! {

/// An RGBA colour with eight bits per channel.
#[derive(Clone, Copy, Debug, PartialEq, Eq, Structural)]
pub struct Color {
    pub r: u8,
    pub g: u8,
    pub b: u8,
    pub a: u8,
}

impl Color {
    /// The colour with the given channels.
    pub fn rgba_u8(r: u8, g: u8, b: u8, a: u8) -> (c: Color)
        ensures
            c == (Color { r, g, b, a }),
    {
        Color { r, g, b, a }
    }

    /// Fully transparent black.
    pub fn none() -> (c: Color)
        ensures
            c == Color::transparent(),
    {
        Color { r: 0, g: 0, b: 0, a: 0 }
    }

    /// Fully transparent black.
    pub open spec fn transparent() -> Color {
        Color { r: 0, g: 0, b: 0, a: 0 }
    }

    /// The channel that is stored at byte `k` of a packed pixel: red, green, blue, alpha.
    pub open spec fn channel(self, k: int) -> u8 {
        if k == 0 {
            self.r
        } else if k == 1 {
            self.g
        } else if k == 2 {
            self.b
        } else {
            self.a
        }
    }

    /// The four channels in packed order.
    pub fn as_rgba_u8(&self) -> (bytes: [u8; 4])
        ensures
            forall|k: int| 0 <= k < 4 ==> bytes[k] == self.channel(k),
    {
        [self.r, self.g, self.b, self.a]
    }

    /// The alpha channel.
    pub fn a(&self) -> (alpha: u8)
        ensures
            alpha == self.a,
    {
        self.a
    }
}

/// A packed RGBA8 image: `height` rows of `width` pixels, four bytes each, top row first.
pub struct Image {
    pub width: usize,
    pub height: usize,
    pub data: Vec<u8>,
}

impl Image {
    /// The buffer holds exactly `width * height` pixels.
    pub open spec fn wf(&self) -> bool {
        self.data@.len() == self.width * self.height * 4
    }

    /// Wraps a packed buffer: `None` unless it holds exactly `width * height` pixels.
    pub fn new(width: usize, height: usize, data: Vec<u8>) -> (image: Option<Image>)
        ensures
            image is Some <==> data@.len() == width * height * 4,
            image is Some ==> image.unwrap().wf() && image.unwrap().width == width
                && image.unwrap().height == height && image.unwrap().data == data,
    {
        assert(data@.len() == data.len());
        match width.checked_mul(height) {
            Some(pixels) => match pixels.checked_mul(4) {
                Some(bytes) => {
                    if data.len() == bytes {
                        Some(Image { width, height, data })
                    } else {
                        None
                    }
                },
                None => None,
            },
            None => None,
        }
    }

    /// The colour of the pixel in column `x` of row `y`.
    pub open spec fn pixel(&self, x: int, y: int) -> Color {
        let at = y * self.width * 4 + x * 4;
        Color {
            r: self.data@[at],
            g: self.data@[at + 1],
            b: self.data@[at + 2],
            a: self.data@[at + 3],
        }
    }
}

/// Marks a tile that is scheduled for removal and not yet destroyed.
#[derive(Clone, Copy, Debug, PartialEq, Eq, Structural)]
pub struct DeletingTile;

/// An 8×8 grid of colours, addressed as `pixels[y][x]`.
#[derive(Clone, Copy, Debug, PartialEq, Eq)]
pub struct Tile {
    pub pixels: [[Color; 8]; 8],
}

/// The four bytes of pixel `(x, y)` lie inside a buffer of `width * height` pixels.
pub proof fn lemma_pixel_index(width: int, height: int, x: int, y: int)
    requires
        0 <= x < width,
        0 <= y < height,
    ensures
        0 <= y * width,
        0 <= y * width * 4 + x * 4,
        y * width * 4 + x * 4 + 3 < width * height * 4,
        y * width <= width * height,
{
    assert(y * width + x < width * height) by (nonlinear_arith)
        requires
            0 <= x < width,
            0 <= y < height,
    ;
    assert(0 <= y * width) by (nonlinear_arith)
        requires
            0 <= width,
            0 <= y,
    ;
    assert(y * width * 4 == (y * width) * 4);
    assert(width * height * 4 == (width * height) * 4);
}

impl Tile {
    /// The colour at column `x` of row `y`.
    pub open spec fn pixel(&self, x: int, y: int) -> Color {
        self.pixels[y][x]
    }

    /// The tile with one pixel replaced; the same tile if `loc` lies outside it.
    pub open spec fn with_pixel(self, loc: IVec2, color: Color) -> Tile {
        if in_tile(loc) {
            Tile {
                pixels: vstd::array::spec_array_update(
                    self.pixels,
                    loc.y as int,
                    vstd::array::spec_array_update(self.pixels[loc.y as int], loc.x as int, color),
                ),
            }
        } else {
            self
        }
    }

    /// The number of pixels with a non-zero alpha among the first `n` cells,
    /// counted column by column.
    pub open spec fn opaque_in_prefix(&self, n: nat) -> nat
        decreases n,
    {
        if n == 0 {
            0
        } else {
            let k = (n - 1) as nat;
            let here: nat = if self.pixel(k as int / 8, k as int % 8).a > 0 {
                1
            } else {
                0
            };
            self.opaque_in_prefix(k) + here
        }
    }

    /// The number of pixels with a non-zero alpha.
    pub open spec fn opaque_pixels(&self) -> nat {
        self.opaque_in_prefix(64)
    }

    /// A tile whose 64 pixels all have the given colour.
    pub fn from_color(color: Color) -> (tile: Tile)
        ensures
            forall|x: int, y: int| 0 <= x < 8 && 0 <= y < 8 ==> tile.pixel(x, y) == color,
    {
        Tile { pixels: [[color; 8]; 8] }
    }

    /// A tile with the given grid of pixels.
    pub fn from_pixels(pixels: [[Color; 8]; 8]) -> (tile: Tile)
        ensures
            tile.pixels == pixels,
    {
        Tile { pixels }
    }

    /// Copies an 8×8 block out of a packed image. `pixel_range` gives the
    /// block's columns and rows; each range must span exactly eight pixels
    /// and lie inside the image.
    pub fn from_image(image: &Image, pixel_range: (Range<usize>, Range<usize>)) -> (tile: Tile)
        requires
            image.wf(),
            pixel_range.0.start + 8 == pixel_range.0.end,
            pixel_range.1.start + 8 == pixel_range.1.end,
            pixel_range.0.end <= image.width,
            pixel_range.1.end <= image.height,
        ensures
            forall|x: int, y: int|
                0 <= x < 8 && 0 <= y < 8 ==> tile.pixel(x, y) == image.pixel(
                    pixel_range.0.start + x,
                    pixel_range.1.start + y,
                ),
    {
        let mut colors = [[Color::none(); 8]; 8];
        let x0: usize = pixel_range.0.start;
        let y0: usize = pixel_range.1.start;
        let mut x: usize = 0;
        while x < 8
            invariant
                x <= 8,
                image.wf(),
                x0 + 8 <= image.width,
                y0 + 8 <= image.height,
                forall|i: int, j: int|
                    0 <= i < x && 0 <= j < 8 ==> colors[j][i] == image.pixel(x0 + i, y0 + j),
            decreases 8 - x,
        {
            let mut y: usize = 0;
            while y < 8
                invariant
                    x < 8,
                    y <= 8,
                    image.wf(),
                    x0 + 8 <= image.width,
                    y0 + 8 <= image.height,
                    forall|i: int, j: int|
                        0 <= i < x && 0 <= j < 8 ==> colors[j][i] == image.pixel(x0 + i, y0 + j),
                    forall|j: int| 0 <= j < y ==> colors[j][x as int] == image.pixel(x0 + x, y0 + j),
                decreases 8 - y,
            {
                proof {
                    lemma_pixel_index(
                        image.width as int,
                        image.height as int,
                        (x0 + x) as int,
                        (y0 + y) as int,
                    );
                    assert(image.data@.len() == image.data.len());
                    assert((y0 + y) * image.width <= image.width * image.height);
                }
                let pixel_index: usize = (y0 + y) * image.width * 4 + (x0 + x) * 4;
                colors[y][x] = Color::rgba_u8(
                    image.data[pixel_index],
                    image.data[pixel_index + 1],
                    image.data[pixel_index + 2],
                    image.data[pixel_index + 3],
                );
                y = y + 1;
            }
            x = x + 1;
        }
        Tile { pixels: colors }
    }

    /// Sets one pixel. A location outside the tile changes nothing.
    pub fn set_pixel(&mut self, loc: IVec2, color: Color)
        ensures
            *final(self) == old(self).with_pixel(loc, color),
            forall|x: int, y: int|
                0 <= x < 8 && 0 <= y < 8 ==> final(self).pixel(x, y) == (if in_tile(loc) && x
                    == loc.x && y == loc.y {
                    color
                } else {
                    old(self).pixel(x, y)
                }),
    {
        if !verify_pixel_loc(loc) {
            return ;
        }
        self.pixels[loc.y as usize][loc.x as usize] = color;
    }

    /// Reads one pixel: `None` for a location outside the tile.
    pub fn get_pixel(&self, loc: IVec2) -> (pixel: Option<Color>)
        ensures
            pixel == (if in_tile(loc) {
                Some(self.pixel(loc.x as int, loc.y as int))
            } else {
                None
            }),
    {
        if !verify_pixel_loc(loc) {
            return None;
        }
        Some(self.pixels[loc.y as usize][loc.x as usize])
    }

    /// Counts the pixels that are not fully transparent.
    pub fn pixel_count(&self) -> (count: usize)
        ensures
            count == self.opaque_pixels(),
            count <= 64,
    {
        let mut pixel_count: usize = 0;
        let mut x: usize = 0;
        while x < 8
            invariant
                x <= 8,
                pixel_count == self.opaque_in_prefix((x * 8) as nat),
                pixel_count <= x * 8,
            decreases 8 - x,
        {
            let mut y: usize = 0;
            while y < 8
                invariant
                    x < 8,
                    y <= 8,
                    pixel_count == self.opaque_in_prefix((x * 8 + y) as nat),
                    pixel_count <= x * 8 + y,
                decreases 8 - y,
            {
                if self.pixels[y][x].a() > 0 {
                    pixel_count = pixel_count + 1;
                }
                y = y + 1;
            }
            x = x + 1;
        }
        pixel_count
    }
}

/// Whether `loc` addresses a pixel inside a tile.
fn verify_pixel_loc(loc: IVec2) -> (ok: bool)
    ensures
        ok == in_tile(loc),
{
    if loc.x < 0 || loc.x >= 8 || loc.y < 0 || loc.y >= 8 {
        return false;
    }
    true
}

} // verus!
