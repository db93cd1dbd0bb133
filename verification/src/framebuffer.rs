//! The CPU framebuffer: a width x height grid of packed 32-bit colors with a
//! current-color pen. Every drawing primitive of the engine goes through
//! [`Framebuffer::point`], whose contract makes out-of-bounds writes silent
//! no-ops, so no frame can write outside the pixel grid.

use vstd::prelude::*;

verus! {

/// Row-major index of pixel (x, y) on a grid of the given width.
pub open spec fn pix_idx(width: int, x: int, y: int) -> int {
    y * width + x
}

/// The buffer after filling the rectangle of size rw x rh at (x0, y0) with
/// a color on a grid `width` pixels wide; pixels outside the rectangle keep
/// their value, and the rectangle is clipped by the buffer itself.
pub open spec fn spec_fill_rect(
    buf: Seq<u32>,
    width: int,
    x0: int,
    y0: int,
    rw: int,
    rh: int,
    color: u32,
) -> Seq<u32> {
    Seq::new(
        buf.len(),
        |i: int|
            {
                let x = i % width;
                let y = i / width;
                if x0 <= x < x0 + rw && y0 <= y < y0 + rh {
                    color
                } else {
                    buf[i]
                }
            },
    )
}

/// A flat buffer index on a w x h grid decomposes into the unique in-bounds
/// pixel coordinates (i % w, i / w).
pub(crate) proof fn lemma_flat_xy(w: int, h: int, i: int)
    requires
        1 <= w,
        0 <= i < w * h,
    ensures
        0 <= i % w < w,
        0 <= i / w < h,
        pix_idx(w, i % w, i / w) == i,
{
    assert(0 <= i % w < w && 0 <= i / w < h && (i / w) * w + i % w == i) by (nonlinear_arith)
        requires
            1 <= w,
            0 <= i < w * h,
    ;
}

pub struct Framebuffer {
    pub width: usize,
    pub height: usize,
    pub buffer: Vec<u32>,
    pub background_color: u32,
    pub current_color: u32,
}

impl Framebuffer {
    /// The buffer holds exactly one cell per pixel, row-major.
    pub open spec fn wf(&self) -> bool {
        self.buffer.len() == self.width * self.height
    }

    /// Row-major index of pixel (x, y).
    pub open spec fn idx(&self, x: int, y: int) -> int {
        y * self.width + x
    }

    pub open spec fn in_bounds(&self, x: int, y: int) -> bool {
        0 <= x < self.width && 0 <= y < self.height
    }

    pub fn new(width: usize, height: usize) -> (fb: Framebuffer)
        requires
            width * height <= usize::MAX,
        ensures
            fb.wf(),
            fb.width == width,
            fb.height == height,
            fb.background_color == 0,
            fb.current_color == 0,
            forall|i: int| 0 <= i < fb.buffer.len() ==> fb.buffer[i] == 0,
    {
        let n: usize = width * height;
        let mut buffer: Vec<u32> = Vec::new();
        let mut i: usize = 0;
        while i < n
            invariant
                i <= n,
                buffer.len() == i,
                forall|j: int| 0 <= j < i ==> buffer[j] == 0,
            decreases n - i,
        {
            buffer.push(0);
            i = i + 1;
        }
        Framebuffer { width, height, buffer, background_color: 0, current_color: 0 }
    }

    pub fn set_current_color(&mut self, color: u32)
        ensures
            *final(self) == (Framebuffer { current_color: color, ..*old(self) }),
    {
        self.current_color = color;
    }

    pub fn set_background_color(&mut self, color: u32)
        ensures
            *final(self) == (Framebuffer { background_color: color, ..*old(self) }),
    {
        self.background_color = color;
    }

    /// Fills every pixel with the background color.
    pub fn clear(&mut self)
        requires
            old(self).wf(),
        ensures
            final(self).wf(),
            final(self).width == old(self).width,
            final(self).height == old(self).height,
            final(self).background_color == old(self).background_color,
            final(self).current_color == old(self).current_color,
            forall|i: int|
                0 <= i < final(self).buffer.len() ==> final(self).buffer[i]
                    == final(self).background_color,
    {
        let n: usize = self.buffer.len();
        let mut i: usize = 0;
        while i < n
            invariant
                i <= n,
                n == self.buffer.len(),
                self.width == old(self).width,
                self.height == old(self).height,
                self.background_color == old(self).background_color,
                self.current_color == old(self).current_color,
                forall|j: int| 0 <= j < i ==> self.buffer[j] == self.background_color,
            decreases n - i,
        {
            let c = self.background_color;
            self.buffer.set(i, c);
            i = i + 1;
        }
    }

    /// Writes the current color at (x, y) when in bounds; out of bounds the
    /// call is a silent no-op, so a pixel write can never land outside the
    /// grid.
    pub fn point(&mut self, x: usize, y: usize)
        requires
            old(self).wf(),
        ensures
            final(self).wf(),
            final(self).width == old(self).width,
            final(self).height == old(self).height,
            final(self).background_color == old(self).background_color,
            final(self).current_color == old(self).current_color,
            old(self).in_bounds(x as int, y as int) ==> final(self).buffer@ == old(
                self,
            ).buffer@.update(old(self).idx(x as int, y as int), old(self).current_color),
            !old(self).in_bounds(x as int, y as int) ==> final(self).buffer@ == old(self).buffer@,
    {
        if x < self.width && y < self.height {
            assert(y * self.width + x < self.width * self.height) by (nonlinear_arith)
                requires x < self.width, y < self.height,
            ;
            let i: usize = y * self.width + x;
            let c = self.current_color;
            self.buffer.set(i, c);
        }
    }

    /// Reads the pixel at (x, y).
    pub fn get_pixel(&self, x: usize, y: usize) -> (c: u32)
        requires
            self.wf(),
            self.in_bounds(x as int, y as int),
        ensures
            c == self.buffer[self.idx(x as int, y as int)],
    {
        assert(y * self.width + x < self.width * self.height) by (nonlinear_arith)
            requires x < self.width, y < self.height,
        ;
        self.buffer[y * self.width + x]
    }
}

} // verus!
