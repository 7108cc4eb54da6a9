//! Image-backed texture lookup.

use vstd::prelude::*;

verus! {

/// A decoded RGB image: `width * height` pixels, row-major, three bytes each.
#[derive(Clone, Debug)]
pub struct Bitmap {
    pub width: u32,
    pub height: u32,
    pub pixels: Vec<u8>,
}

/// The color used where no image could be loaded: cyan.
pub open spec fn fallback_color() -> (u8, u8, u8) {
    (0u8, 255u8, 255u8)
}

/// An index clamped to the last of `n` places.
pub open spec fn clamp_index(i: u32, n: u32) -> int {
    if i < n {
        i as int
    } else {
        n - 1
    }
}

impl Bitmap {
    /// Three bytes for each pixel.
    pub open spec fn wf(&self) -> bool {
        self.pixels.len() == 3 * (self.width as int) * (self.height as int)
    }

    /// The three bytes of the pixel in column `x` of row `y`.
    pub open spec fn spec_pixel(&self, x: int, y: int) -> (u8, u8, u8) {
        let o = 3 * (y * self.width + x);
        (self.pixels[o], self.pixels[o + 1], self.pixels[o + 2])
    }

    /// Creates a bitmap from its row-major RGB bytes, or `None` if there are not
    /// exactly three bytes for each pixel.
    pub fn new(width: u32, height: u32, pixels: Vec<u8>) -> (r: Option<Bitmap>)
        ensures
            match r {
                Some(b) => b.wf() && b.width == width && b.height == height && b.pixels@
                    == pixels@,
                None => pixels.len() != 3 * (width as int) * (height as int),
            },
    {
        proof {
            assert((width as int) * (height as int) <= u64::MAX) by (nonlinear_arith)
                requires
                    width <= u32::MAX,
                    height <= u32::MAX,
            ;
            assert(3 * (width as int) * (height as int) == 3 * ((width as int) * (height as int)))
                by (nonlinear_arith);
        }
        let n = (width as u64) * (height as u64);
        if n <= (usize::MAX / 3) as u64 && pixels.len() == 3 * (n as usize) {
            Some(Bitmap { width, height, pixels })
        } else {
            None
        }
    }

    /// The pixel in column `x` of row `y`.
    pub fn pixel(&self, x: u32, y: u32) -> (r: (u8, u8, u8))
        requires
            self.wf(),
            x < self.width,
            y < self.height,
        ensures
            r == self.spec_pixel(x as int, y as int),
    {
        proof {
            let w = self.width as int;
            let h = self.height as int;
            assert(y * w + x < w * h) by (nonlinear_arith)
                requires
                    0 <= x < w,
                    0 <= y < h,
            ;
            assert(0 <= y * w) by (nonlinear_arith)
                requires
                    0 <= y,
                    0 <= w,
            ;
            assert(3 * w * h == 3 * (w * h)) by (nonlinear_arith);
        }
        let o = 3 * ((y as usize) * (self.width as usize) + (x as usize));
        (self.pixels[o], self.pixels[o + 1], self.pixels[o + 2])
    }
}

/// An image-based texture: the decoded image, or nothing where loading failed.
#[derive(Clone, Debug)]
pub struct ImageMap {
    pub image: Option<Bitmap>,
}

impl ImageMap {
    /// Well formed when the image, if any, is.
    pub open spec fn wf(&self) -> bool {
        match self.image {
            Some(b) => b.wf(),
            None => true,
        }
    }

    /// The texel that image coordinates `(i, j)` fall on; coordinates past the
    /// last column or row are clamped to it. Without an image, or with an empty
    /// one, the fallback cyan.
    pub open spec fn spec_texel(&self, i: u32, j: u32) -> (u8, u8, u8) {
        match self.image {
            Some(b) => if b.width == 0 || b.height == 0 {
                fallback_color()
            } else {
                b.spec_pixel(clamp_index(i, b.width), clamp_index(j, b.height))
            },
            None => fallback_color(),
        }
    }

    /// Creates an image texture over a decoded image, or over none.
    pub fn new(image: Option<Bitmap>) -> (r: ImageMap)
        requires
            image matches Some(b) ==> b.wf(),
        ensures
            r.wf(),
            r.image == image,
    {
        ImageMap { image }
    }

    /// The texel at image coordinates `(i, j)`.
    pub fn texel(&self, i: u32, j: u32) -> (r: (u8, u8, u8))
        requires
            self.wf(),
        ensures
            r == self.spec_texel(i, j),
    {
        match &self.image {
            None => (0, 255, 255),
            Some(img) => {
                if img.width == 0 || img.height == 0 {
                    (0, 255, 255)
                } else {
                    let x = if i < img.width { i } else { img.width - 1 };
                    let y = if j < img.height { j } else { img.height - 1 };
                    img.pixel(x, y)
                }
            },
        }
    }
}

} // verus!
