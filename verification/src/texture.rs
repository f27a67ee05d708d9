//! What textures decide: the square of a checker pattern, and the texel of
//! an image, a raster of RGBA texels read by column and row.

use crate::binary32::{less, value_lt};
use image::RgbaImage;
use vstd::prelude::*;

verus! {

/// A point takes the odd colour of a checker pattern where the product of
/// the three sines is below zero, and the even one else.
pub open spec fn odd_square(sines: u32) -> bool {
    value_lt(sines, 0)
}

/// Whether a point takes the odd colour of a checker pattern, given the bit
/// pattern of the product of the three sines.
pub fn checker_odd(sines: u32) -> (answer: bool)
    ensures
        answer == odd_square(sines),
{
    less(sines, 0)
}

/// What a raster holds: its extent and its bytes, row after row from the
/// top, four bytes to a texel (red, green, blue, alpha).
pub struct Raster {
    pub width: u32,
    pub height: u32,
    pub bytes: Seq<u8>,
}

impl Raster {
    /// Where the texel in column `x` of row `y` starts among the bytes.
    pub open spec fn offset(self, x: u32, y: u32) -> int {
        4 * (y * self.width + x)
    }

    /// The four channels of the texel in column `x` of row `y`.
    pub open spec fn texel(self, x: u32, y: u32) -> Seq<u8> {
        self.bytes.subrange(self.offset(x, y), self.offset(x, y) + 4)
    }
}

/// A texture that takes its colours from a raster of the image crate.
#[verifier::external_body]
pub struct ImageTexture {
    image: RgbaImage,
}

/// What the raster of a texture holds.
pub uninterp spec fn raster_of(texture: ImageTexture) -> Raster;

/// The bytes of a row and of the whole raster, four to a texel, can be
/// counted, and `len` bytes are enough for the raster.
pub open spec fn raster_fits(width: u32, height: u32, len: nat) -> bool {
    4 * width <= usize::MAX && 4 * width * height <= usize::MAX && 4 * width * height <= len
}

/// `ImageBuffer::from_raw` of the image crate: a raster over the bytes,
/// unless four bytes for each texel are more than there are, or than can be
/// counted.
#[verifier::external_body]
fn raster_from_raw(width: u32, height: u32, bytes: Vec<u8>) -> (texture: Option<ImageTexture>)
    ensures
        texture is Some <==> raster_fits(width, height, bytes@.len()),
        texture matches Some(t) ==> raster_of(t) == (Raster { width, height, bytes: bytes@ }),
{
    match RgbaImage::from_raw(width, height, bytes) {
        Some(image) => Some(ImageTexture { image }),
        None => None,
    }
}

/// `ImageBuffer::width` of the image crate.
#[verifier::external_body]
fn raster_columns(texture: &ImageTexture) -> (width: u32)
    ensures
        width == raster_of(*texture).width,
{
    texture.image.width()
}

/// `ImageBuffer::height` of the image crate.
#[verifier::external_body]
fn raster_rows(texture: &ImageTexture) -> (height: u32)
    ensures
        height == raster_of(*texture).height,
{
    texture.image.height()
}

/// `ImageBuffer::get_pixel` of the image crate: the four channels of the
/// texel in column `x` of row `y`. It panics outside the raster.
#[verifier::external_body]
fn raster_texel(texture: &ImageTexture, x: u32, y: u32) -> (texel: [u8; 4])
    requires
        x < raster_of(*texture).width,
        y < raster_of(*texture).height,
    ensures
        texel@ == raster_of(*texture).texel(x, y),
{
    texture.image.get_pixel(x, y).0
}

/// `Clone` of the image crate for `ImageBuffer`: a raster of the same
/// extent over a copy of the bytes.
#[verifier::external_body]
fn raster_clone(texture: &ImageTexture) -> (copy: ImageTexture)
    ensures
        raster_of(copy) == raster_of(*texture),
{
    ImageTexture { image: texture.image.clone() }
}

/// An alpha above this counts as solid.
pub const ALPHA_THRESHOLD: u8 = 10;

/// `index`, or the last index below `extent` where it lies beyond.
pub open spec fn clamped(index: u32, extent: u32) -> u32 {
    if index >= extent {
        (extent - 1) as u32
    } else {
        index
    }
}

impl View for ImageTexture {
    type V = Raster;

    open spec fn view(&self) -> Raster {
        raster_of(*self)
    }
}

impl ImageTexture {
    /// A texture over decoded RGBA bytes; none where `bytes` is too short
    /// for `width` times `height` texels.
    pub fn new(width: u32, height: u32, bytes: Vec<u8>) -> (texture: Option<Self>)
        ensures
            texture is Some <==> raster_fits(width, height, bytes@.len()),
            texture matches Some(t) ==> t@ == (Raster { width, height, bytes: bytes@ }),
    {
        raster_from_raw(width, height, bytes)
    }

    /// The number of columns.
    pub fn width(&self) -> (width: u32)
        ensures
            width == self@.width,
    {
        raster_columns(self)
    }

    /// The number of rows.
    pub fn height(&self) -> (height: u32)
        ensures
            height == self@.height,
    {
        raster_rows(self)
    }

    /// The texel at a column and a row, each brought back to the last one
    /// where it lies beyond; none where the raster has no texel at all.
    pub fn texel(&self, column: u32, row: u32) -> (texel: Option<[u8; 4]>)
        ensures
            texel is None <==> self@.width == 0 || self@.height == 0,
            texel matches Some(channels) ==> channels@ == self@.texel(
                clamped(column, self@.width),
                clamped(row, self@.height),
            ),
    {
        let width = raster_columns(self);
        let height = raster_rows(self);
        if width == 0 || height == 0 {
            return None;
        }
        let mut i = column;
        let mut j = row;
        if i >= width {
            i = width - 1;
        }
        if j >= height {
            j = height - 1;
        }
        Some(raster_texel(self, i, j))
    }

    /// Whether a texel stops a ray: its alpha is above the threshold.
    pub fn solid(texel: &[u8; 4]) -> (solid: bool)
        ensures
            solid == (texel@[3] > ALPHA_THRESHOLD),
    {
        texel[3] > ALPHA_THRESHOLD
    }
}

impl Clone for ImageTexture {
    /// A texture over a raster that holds the same.
    fn clone(&self) -> (copy: Self)
        ensures
            copy@ == self@,
    {
        raster_clone(self)
    }
}

} // verus!
