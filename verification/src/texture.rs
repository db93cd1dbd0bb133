//! An immutable 2D color grid with integer pixel sampling. Out-of-range
//! sample coordinates are clamped to the last row or column (repeat-edge),
//! which is the sampling policy for walls, sky and floor.

use vstd::prelude::*;

verus! {

pub struct Texture {
    pub width: usize,
    pub height: usize,
    pub pixels: Vec<u32>,
}

impl Texture {
    pub open spec fn wf(&self) -> bool {
        &&& 1 <= self.width
        &&& 1 <= self.height
        &&& self.pixels.len() == self.width * self.height
    }

    /// The color sampled at (tx, ty), with both coordinates clamped to the
    /// grid (repeat-edge policy).
    pub open spec fn spec_sample(&self, tx: int, ty: int) -> u32 {
        let cx = if tx < self.width { tx } else { self.width - 1 };
        let cy = if ty < self.height { ty } else { self.height - 1 };
        self.pixels[cy * self.width + cx]
    }

    /// Builds a texture from a decoded row-major pixel grid.
    pub fn from_pixels(width: usize, height: usize, pixels: Vec<u32>) -> (t: Texture)
        requires
            1 <= width,
            1 <= height,
            pixels.len() == width * height,
        ensures
            t.wf(),
            t.width == width,
            t.height == height,
            t.pixels == pixels,
    {
        Texture { width, height, pixels }
    }

    /// Samples the color at (tx, ty), clamping each coordinate to the edge.
    pub fn get_pixel_color(&self, tx: u32, ty: u32) -> (c: u32)
        requires
            self.wf(),
        ensures
            c == self.spec_sample(tx as int, ty as int),
    {
        let cx: usize = if (tx as usize) < self.width {
            tx as usize
        } else {
            self.width - 1
        };
        let cy: usize = if (ty as usize) < self.height {
            ty as usize
        } else {
            self.height - 1
        };
        assert(cy * self.width + cx < self.width * self.height) by (nonlinear_arith)
            requires cx < self.width, cy < self.height,
        ;
        self.pixels[cy * self.width + cx]
    }
}

} // verus!
