use vstd::prelude::*;

use crate::error::RangleError;

verus! {

/// An RGBA8 color.
pub type Color = (u8, u8, u8, u8);

/// A `width` x `height` grid of colors stored row-major, origin at the top left.
pub struct FrameBuffer {
    width: u16,
    height: u16,
    buffer: Vec<Color>,
}

/// Position of pixel `(x, y)` in a row-major grid of the given width.
pub open spec fn pixel_index(width: int, x: int, y: int) -> int {
    y * width + x
}

impl FrameBuffer {
    pub closed spec fn spec_width(&self) -> int {
        self.width as int
    }

    pub closed spec fn spec_height(&self) -> int {
        self.height as int
    }

    /// The colors of all pixels, row after row.
    pub closed spec fn pixels(&self) -> Seq<Color> {
        self.buffer@
    }

    /// The buffer holds exactly one color per pixel.
    pub open spec fn wf(&self) -> bool {
        self.pixels().len() == self.spec_width() * self.spec_height()
    }

    /// The color stored at pixel `(x, y)`.
    pub open spec fn pixel(&self, x: int, y: int) -> Color {
        self.pixels()[pixel_index(self.spec_width(), x, y)]
    }

    /// A buffer of the given size with every pixel transparent black.
    pub fn new(width: u16, height: u16) -> (r: Result<Self, RangleError>)
        ensures
            r is Ok,
            r->Ok_0.wf(),
            r->Ok_0.spec_width() == width,
            r->Ok_0.spec_height() == height,
            forall|i: int| 0 <= i < r->Ok_0.pixels().len() ==> r->Ok_0.pixels()[i] == (0u8, 0u8, 0u8, 0u8),
    {
        proof {
            assert(width as int * height as int <= 65535 * 65535) by (nonlinear_arith)
                requires
                    width <= 65535,
                    height <= 65535,
            ;
        }
        let n: usize = width as usize * height as usize;
        let mut buffer: Vec<Color> = Vec::with_capacity(n);
        let mut i: usize = 0;
        while i < n
            invariant
                i <= n,
                buffer@.len() == i,
                forall|j: int| 0 <= j < i ==> buffer@[j] == (0u8, 0u8, 0u8, 0u8),
            decreases n - i,
        {
            buffer.push((0u8, 0u8, 0u8, 0u8));
            i += 1;
        }
        Ok(FrameBuffer { width, height, buffer })
    }

    pub fn get_size(&self) -> (r: (u16, u16))
        ensures
            r.0 == self.spec_width(),
            r.1 == self.spec_height(),
    {
        (self.width, self.height)
    }

    /// The colors of all pixels, row after row.
    pub fn get_buffer(&self) -> (r: &Vec<Color>)
        ensures
            r@ == self.pixels(),
    {
        &self.buffer
    }

    /// Stores `color` at pixel `(x, y)`, leaving every other pixel as it was.
    pub fn draw_point(&mut self, x: usize, y: usize, color: Color)
        requires
            old(self).wf(),
            x < old(self).spec_width(),
            y < old(self).spec_height(),
        ensures
            final(self).wf(),
            final(self).spec_width() == old(self).spec_width(),
            final(self).spec_height() == old(self).spec_height(),
            final(self).pixels() == old(self).pixels().update(
                pixel_index(old(self).spec_width(), x as int, y as int),
                color,
            ),
    {
        proof {
            assert(y * (self.width as int) + x < (self.width as int) * (self.height as int))
                by (nonlinear_arith)
                requires
                    x < self.width as int,
                    y < self.height as int,
            ;
            assert(self.width as int * self.height as int <= 65535 * 65535) by (nonlinear_arith)
                requires
                    self.width <= 65535,
                    self.height <= 65535,
            ;
            assert(y * (self.width as int) <= y * (self.width as int) + x);
        }
        let index: usize = y * self.width as usize + x;
        self.buffer.set(index, color);
    }

    /// Sets every pixel to `val`.
    pub fn fill_buffer(&mut self, val: Color)
        requires
            old(self).wf(),
        ensures
            final(self).wf(),
            final(self).spec_width() == old(self).spec_width(),
            final(self).spec_height() == old(self).spec_height(),
            forall|i: int| 0 <= i < final(self).pixels().len() ==> final(self).pixels()[i] == val,
    {
        let n: usize = self.buffer.len();
        let mut i: usize = 0;
        while i < n
            invariant
                self.wf(),
                n == self.buffer@.len(),
                self.width == old(self).width,
                self.height == old(self).height,
                i <= n,
                forall|j: int| 0 <= j < i ==> self.buffer@[j] == val,
            decreases n - i,
        {
            self.buffer.set(i, val);
            i += 1;
        }
    }
}

} // verus!
