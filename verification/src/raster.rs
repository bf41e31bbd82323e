//! The in-memory picture model: RGBA pixels on a rectangular grid.

use vstd::prelude::*;

verus! {

/// One pixel: red, green, blue and alpha, each an 8-bit channel.
#[derive(Clone, Copy, Debug, PartialEq, Eq, Structural)]
pub struct Pixel {
    pub r: u8,
    pub g: u8,
    pub b: u8,
    pub a: u8,
}

/// A rectangular grid of pixels, stored row by row.
///
/// An image is never mutated once built: every transform reads one image
/// and produces a new one.
pub struct Image {
    width: u32,
    height: u32,
    pixels: Vec<Pixel>,
}

impl Image {
    /// The grid holds exactly one pixel per coordinate.
    #[verifier::type_invariant]
    pub closed spec fn wf(self) -> bool {
        self.pixels@.len() == self.width as int * self.height as int
    }

    pub closed spec fn spec_width(self) -> u32 {
        self.width
    }

    pub closed spec fn spec_height(self) -> u32 {
        self.height
    }

    /// The pixel at column `x` of row `y`.
    pub closed spec fn pixel(self, x: int, y: int) -> Pixel {
        self.pixels@[y * (self.width as int) + x]
    }

    pub fn width(&self) -> (w: u32)
        ensures
            w == self.spec_width(),
    {
        self.width
    }

    pub fn height(&self) -> (h: u32)
        ensures
            h == self.spec_height(),
    {
        self.height
    }

    /// Builds an image from a row-major pixel vector.
    pub fn from_pixels(width: u32, height: u32, pixels: Vec<Pixel>) -> (img: Image)
        requires
            pixels@.len() == width as int * height as int,
        ensures
            img.spec_width() == width,
            img.spec_height() == height,
            forall|x: int, y: int|
                0 <= x < width && 0 <= y < height ==> #[trigger] img.pixel(x, y) == pixels@[y
                    * (width as int) + x],
    {
        Image { width, height, pixels }
    }

    pub fn get_pixel(&self, x: u32, y: u32) -> (p: Pixel)
        requires
            x < self.spec_width(),
            y < self.spec_height(),
        ensures
            p == self.pixel(x as int, y as int),
    {
        let n = self.pixels.len();
        proof {
            use_type_invariant(self);
            assert(0 <= (y as int) * (self.width as int) && (y as int) * (self.width as int) + (
            x as int) < (self.width as int) * (self.height as int)) by (nonlinear_arith)
                requires
                    0 <= (x as int) < (self.width as int),
                    0 <= (y as int) < (self.height as int),
            ;
        }
        let idx: usize = (y as usize) * (self.width as usize) + (x as usize);
        self.pixels[idx]
    }
}

} // verus!
