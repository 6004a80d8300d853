use vstd::prelude::*;

use crate::error::RangleError;
use crate::frame_buffer::{pixel_index, Color, FrameBuffer};
use crate::viewport::FIXED_ONE;

verus! {

/// Depth every cell holds after a clear: -2, below every depth that can pass.
pub const DEPTH_CLEAR: i64 = -2 * FIXED_ONE;

/// Whether a fragment at fixed-point depth `z` wins over the stored depth:
/// it lies in `[-1, 1]` and is strictly greater.
pub open spec fn depth_passes(stored: int, z: int) -> bool {
    -FIXED_ONE <= z <= FIXED_ONE && z > stored
}

/// The (depth, color) of one pixel after a fragment of depth `z` and color `c`
/// reaches it.
pub open spec fn fragment_step(state: (int, Color), z: int, c: Color) -> (int, Color) {
    if depth_passes(state.0, z) {
        (z, c)
    } else {
        state
    }
}

/// A framebuffer together with its depth buffer, one depth per pixel.
pub struct RenderTarget {
    frame_buffer: FrameBuffer,
    depth_buffer: Vec<i64>,
}

impl RenderTarget {
    pub closed spec fn frame(&self) -> FrameBuffer {
        self.frame_buffer
    }

    /// The depths of all pixels, row after row.
    pub closed spec fn depths(&self) -> Seq<i64> {
        self.depth_buffer@
    }

    pub open spec fn spec_width(&self) -> int {
        self.frame().spec_width()
    }

    pub open spec fn spec_height(&self) -> int {
        self.frame().spec_height()
    }

    pub open spec fn wf(&self) -> bool {
        &&& self.frame().wf()
        &&& self.depths().len() == self.frame().pixels().len()
    }

    /// Depth and color of pixel `(x, y)`.
    pub open spec fn pixel_state(&self, x: int, y: int) -> (int, Color) {
        let i = pixel_index(self.spec_width(), x, y);
        (self.depths()[i] as int, self.frame().pixels()[i])
    }

    /// Every depth is the cleared value and every pixel holds `color`.
    pub open spec fn is_cleared(&self, color: Color) -> bool {
        &&& forall|i: int| 0 <= i < self.depths().len() ==> #[trigger] self.depths()[i] == DEPTH_CLEAR
        &&& forall|i: int|
            0 <= i < self.frame().pixels().len() ==> #[trigger] self.frame().pixels()[i] == color
    }

    /// A target of the given size, cleared to transparent black.
    pub fn new(width: u16, height: u16) -> (r: Result<Self, RangleError>)
        ensures
            r is Ok,
            r->Ok_0.wf(),
            r->Ok_0.spec_width() == width,
            r->Ok_0.spec_height() == height,
            r->Ok_0.is_cleared((0u8, 0u8, 0u8, 0u8)),
    {
        let frame_buffer = match FrameBuffer::new(width, height) {
            Ok(fb) => fb,
            Err(e) => return Err(e),
        };
        let n: usize = frame_buffer.get_buffer().len();
        let mut depth_buffer: Vec<i64> = Vec::with_capacity(n);
        let mut i: usize = 0;
        while i < n
            invariant
                i <= n,
                depth_buffer@.len() == i,
                forall|j: int| 0 <= j < i ==> depth_buffer@[j] == DEPTH_CLEAR,
            decreases n - i,
        {
            depth_buffer.push(DEPTH_CLEAR);
            i += 1;
        }
        Ok(RenderTarget { frame_buffer, depth_buffer })
    }

    pub fn get_frame_buffer(&self) -> (r: &FrameBuffer)
        ensures
            *r == self.frame(),
    {
        &self.frame_buffer
    }

    pub fn get_size(&self) -> (r: (u16, u16))
        ensures
            r.0 == self.spec_width(),
            r.1 == self.spec_height(),
    {
        self.frame_buffer.get_size()
    }

    /// Resets every depth to `DEPTH_CLEAR` and every pixel to `background`.
    pub fn clear(&mut self, background: Color)
        requires
            old(self).wf(),
        ensures
            final(self).wf(),
            final(self).spec_width() == old(self).spec_width(),
            final(self).spec_height() == old(self).spec_height(),
            final(self).is_cleared(background),
    {
        self.frame_buffer.fill_buffer(background);
        let n: usize = self.depth_buffer.len();
        let mut i: usize = 0;
        while i < n
            invariant
                self.frame_buffer.wf(),
                self.frame_buffer.spec_width() == old(self).frame_buffer.spec_width(),
                self.frame_buffer.spec_height() == old(self).frame_buffer.spec_height(),
                n == self.depth_buffer@.len(),
                n == self.frame_buffer.pixels().len(),
                forall|j: int|
                    0 <= j < self.frame_buffer.pixels().len() ==> self.frame_buffer.pixels()[j]
                        == background,
                i <= n,
                forall|j: int| 0 <= j < i ==> self.depth_buffer@[j] == DEPTH_CLEAR,
            decreases n - i,
        {
            self.depth_buffer.set(i, DEPTH_CLEAR);
            i += 1;
        }
    }

    fn index_of(&self, x: u16, y: u16) -> (r: usize)
        requires
            self.wf(),
            x < self.spec_width(),
            y < self.spec_height(),
        ensures
            r == pixel_index(self.spec_width(), x as int, y as int),
            r < self.depths().len(),
    {
        let (w, h) = self.frame_buffer.get_size();
        proof {
            assert(y * (w as int) + x < (w as int) * (h as int)) by (nonlinear_arith)
                requires
                    x < w,
                    y < h,
            ;
            assert((w as int) * (h as int) <= 65535 * 65535) by (nonlinear_arith)
                requires
                    w <= 65535,
                    h <= 65535,
            ;
            assert(y * (w as int) <= y * (w as int) + x);
        }
        y as usize * w as usize + x as usize
    }

    /// The stored depth of pixel `(x, y)`.
    pub fn get_depth(&self, x: u16, y: u16) -> (r: i64)
        requires
            self.wf(),
            x < self.spec_width(),
            y < self.spec_height(),
        ensures
            r == self.pixel_state(x as int, y as int).0,
    {
        let i = self.index_of(x, y);
        self.depth_buffer[i]
    }

    /// Whether a fragment at depth `z` on pixel `(x, y)` would pass the depth test.
    pub fn passes_depth_test(&self, x: u16, y: u16, z: i64) -> (r: bool)
        requires
            self.wf(),
            x < self.spec_width(),
            y < self.spec_height(),
        ensures
            r == depth_passes(self.pixel_state(x as int, y as int).0, z as int),
    {
        let i = self.index_of(x, y);
        -FIXED_ONE <= z && z <= FIXED_ONE && z > self.depth_buffer[i]
    }

    /// Submits a fragment of depth `z` and color `color` to pixel `(x, y)`: if
    /// it passes the depth test, its depth and color are stored there. Every
    /// other pixel keeps its state. Returns whether the fragment was written.
    pub fn write_fragment(&mut self, x: u16, y: u16, z: i64, color: Color) -> (r: bool)
        requires
            old(self).wf(),
            x < old(self).spec_width(),
            y < old(self).spec_height(),
        ensures
            final(self).wf(),
            final(self).spec_width() == old(self).spec_width(),
            final(self).spec_height() == old(self).spec_height(),
            r == depth_passes(old(self).pixel_state(x as int, y as int).0, z as int),
            final(self).pixel_state(x as int, y as int) == fragment_step(
                old(self).pixel_state(x as int, y as int),
                z as int,
                color,
            ),
            forall|i: int|
                0 <= i < final(self).depths().len() && i != pixel_index(
                    old(self).spec_width(),
                    x as int,
                    y as int,
                ) ==> {
                    &&& #[trigger] final(self).depths()[i] == old(self).depths()[i]
                    &&& final(self).frame().pixels()[i] == old(self).frame().pixels()[i]
                },
    {
        let i = self.index_of(x, y);
        if -FIXED_ONE <= z && z <= FIXED_ONE && z > self.depth_buffer[i] {
            self.depth_buffer.set(i, z);
            self.frame_buffer.draw_point(x as usize, y as usize, color);
            true
        } else {
            false
        }
    }
}

/// Clear invariant: once cleared, every pixel holds depth `DEPTH_CLEAR` and the
/// background color.
pub proof fn lemma_cleared_pixel(t: RenderTarget, background: Color, x: int, y: int)
    requires
        t.wf(),
        t.is_cleared(background),
        0 <= x < t.spec_width(),
        0 <= y < t.spec_height(),
    ensures
        t.pixel_state(x, y) == (DEPTH_CLEAR as int, background),
{
    let w = t.spec_width();
    let h = t.spec_height();
    assert(0 <= y * w + x < w * h) by (nonlinear_arith)
        requires
            0 <= x < w,
            0 <= y < h,
    ;
}

/// Depth monotonicity: of two fragments in `[-1, 1]` that reach a cleared pixel
/// in turn, the second one, being closer, is what the pixel shows.
pub proof fn lemma_closer_fragment_wins(background: Color, z1: int, c1: Color, z2: int, c2: Color)
    requires
        -FIXED_ONE <= z1 < z2 <= FIXED_ONE,
    ensures
        fragment_step(fragment_step((DEPTH_CLEAR as int, background), z1, c1), z2, c2) == (z2, c2),
{
}

/// Strict test: of two fragments at the same depth in `[-1, 1]` that reach a
/// cleared pixel in turn, the first one stays and the second is rejected.
pub proof fn lemma_equal_depth_first_wins(background: Color, z: int, c1: Color, c2: Color)
    requires
        -FIXED_ONE <= z <= FIXED_ONE,
    ensures
        fragment_step((DEPTH_CLEAR as int, background), z, c1) == (z, c1),
        fragment_step(fragment_step((DEPTH_CLEAR as int, background), z, c1), z, c2) == (z, c1),
{
}

} // verus!
