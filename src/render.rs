//! Settings of the renderer: image size, samples per pixel and bounce depth.

use vstd::prelude::*;

verus! {

/// Image renderer settings.
#[derive(Clone, Copy, Debug, PartialEq, Eq, Structural)]
pub struct Renderer {
    pub image_width: u32,
    pub image_height: u32,
    pub samples_per_pixel: u32,
    pub bounce_depth: u16,
}

impl Renderer {
    /// Creates a new renderer.
    pub fn new(image_width: u32, image_height: u32, samples_per_pixel: u32, bounce_depth: u16) -> (r:
        Renderer)
        ensures
            r == (Renderer { image_width, image_height, samples_per_pixel, bounce_depth }),
    {
        Renderer { image_width, image_height, samples_per_pixel, bounce_depth }
    }

    /// The number of pixels of the image.
    pub fn pixel_count(&self) -> (r: u64)
        ensures
            r == self.image_width * self.image_height,
    {
        proof {
            assert((self.image_width as int) * (self.image_height as int) <= u64::MAX)
                by (nonlinear_arith)
                requires
                    self.image_width <= u32::MAX,
                    self.image_height <= u32::MAX,
            ;
        }
        (self.image_width as u64) * (self.image_height as u64)
    }

    /// The row of image row `y` counted from the bottom edge, as the viewport's
    /// vertical coordinate takes it: `image_height - y`.
    pub fn row_from_bottom(&self, y: u32) -> (r: u32)
        requires
            y < self.image_height,
        ensures
            r == self.image_height - y,
            1 <= r <= self.image_height,
    {
        self.image_height - y
    }
}

} // verus!
