//! A flat, row-major grayscale pixel grid with bounds-checked writes.

use vstd::prelude::*;

verus! {

/// Intensity that `clear_image` fills the whole grid with; pixels that the
/// evaluator never escapes keep this value.
pub const BACKGROUND: u8 = 255;

/// Error for a pixel write whose coordinate lies outside the grid.
#[derive(Clone, Copy, Debug, PartialEq, Eq, Structural)]
pub enum PixelError {
    OutOfRange,
}

/// A grayscale framebuffer: `width * height` intensity bytes in row-major
/// order (index `y * width + x`). It starts empty; `clear_image` allocates
/// and fills it with [`BACKGROUND`].
pub struct Framebuffer {
    width: usize,
    height: usize,
    pixels: Vec<u8>,
}

impl Framebuffer {
    /// Grid width in pixels.
    pub closed spec fn spec_width(&self) -> int {
        self.width as int
    }

    /// Grid height in pixels.
    pub closed spec fn spec_height(&self) -> int {
        self.height as int
    }

    /// The stored intensity bytes, row-major.
    pub closed spec fn pixel_data(&self) -> Seq<u8> {
        self.pixels@
    }

    /// Structural invariant: the pixel count fits in `usize`, and the buffer
    /// is either still unallocated or exactly `width * height` long.
    pub open spec fn wf(&self) -> bool {
        &&& self.spec_width() * self.spec_height() <= usize::MAX
        &&& (self.pixel_data().len() == 0
            || self.pixel_data().len() == self.spec_width() * self.spec_height())
    }

    /// The buffer has been allocated to its full `width * height` size.
    pub open spec fn is_initialized(&self) -> bool {
        self.pixel_data().len() == self.spec_width() * self.spec_height()
    }

    /// Row-major index of coordinate `(x, y)`.
    pub open spec fn spec_index_of(&self, x: int, y: int) -> int {
        y * self.spec_width() + x
    }

    /// Whether `(x, y)` names a pixel of the grid (strict bounds).
    pub open spec fn in_bounds(&self, x: int, y: int) -> bool {
        0 <= x < self.spec_width() && 0 <= y < self.spec_height()
    }

    /// The intensity stored at `(x, y)`.
    pub open spec fn pixel(&self, x: int, y: int) -> u8 {
        self.pixel_data()[self.spec_index_of(x, y)]
    }

    /// Every stored byte is the background intensity, and the buffer is full
    /// size: the state `clear_image` leaves behind.
    pub open spec fn is_cleared(&self) -> bool {
        &&& self.is_initialized()
        &&& forall|i: int|
            0 <= i < self.pixel_data().len() ==> self.pixel_data()[i] == BACKGROUND
    }

    /// Create an empty framebuffer for a `width` by `height` grid.
    pub fn new(width: usize, height: usize) -> (fb: Framebuffer)
        requires
            width * height <= usize::MAX,
        ensures
            fb.wf(),
            fb.spec_width() == width,
            fb.spec_height() == height,
            fb.pixel_data() == Seq::<u8>::empty(),
    {
        Framebuffer { width, height, pixels: Vec::new() }
    }

    /// Grid width in pixels.
    pub fn width(&self) -> (w: usize)
        ensures
            w == self.spec_width(),
    {
        self.width
    }

    /// Grid height in pixels.
    pub fn height(&self) -> (h: usize)
        ensures
            h == self.spec_height(),
    {
        self.height
    }

    /// Number of intensity bytes currently stored.
    pub fn pixel_count(&self) -> (n: usize)
        ensures
            n == self.pixel_data().len(),
    {
        self.pixels.len()
    }

    /// Whether the buffer has been allocated to its full size.
    pub fn initialized(&self) -> (b: bool)
        requires
            self.wf(),
        ensures
            b == self.is_initialized(),
    {
        self.pixels.len() == self.width * self.height
    }

    /// Fill the whole grid with [`BACKGROUND`]: allocate the buffer if it is
    /// still empty, overwrite every byte otherwise. The final state does not
    /// depend on the old contents.
    pub fn clear_image(&mut self)
        requires
            old(self).wf(),
        ensures
            final(self).wf(),
            final(self).spec_width() == old(self).spec_width(),
            final(self).spec_height() == old(self).spec_height(),
            final(self).is_cleared(),
    {
        let ghost fb0 = *old(self);
        let total: usize = self.width * self.height;
        if self.pixels.len() == 0 {
            let mut i: usize = 0;
            while i < total
                invariant
                    i <= total,
                    self.width == fb0.width,
                    self.height == fb0.height,
                    total == fb0.spec_width() * fb0.spec_height(),
                    self.pixels@.len() == i,
                    forall|j: int| 0 <= j < i ==> self.pixels@[j] == BACKGROUND,
                decreases total - i,
            {
                self.pixels.push(BACKGROUND);
                i = i + 1;
            }
        } else {
            let n: usize = self.pixels.len();
            let mut i: usize = 0;
            while i < n
                invariant
                    i <= n,
                    self.width == fb0.width,
                    self.height == fb0.height,
                    n == fb0.spec_width() * fb0.spec_height(),
                    self.pixels@.len() == n,
                    forall|j: int| 0 <= j < i ==> self.pixels@[j] == BACKGROUND,
                decreases n - i,
            {
                self.pixels[i] = BACKGROUND;
                i = i + 1;
            }
        }
    }
    /// The stored byte count is a `Vec` length, so it fits in `usize`.
    pub proof fn lemma_data_len_fits(&self)
        ensures
            self.pixel_data().len() <= usize::MAX,
    {
        assert(self.pixels@.len() == vstd::std_specs::vec::spec_vec_len(&self.pixels));
    }

    /// Write `color` at `(x, y)`. The bounds check is strict: `x == width`
    /// or `y == height` is rejected with `OutOfRange` and the buffer is left
    /// unchanged.
    pub fn write_pixel(&mut self, x: usize, y: usize, color: u8) -> (r: Result<(), PixelError>)
        requires
            old(self).wf(),
            old(self).is_initialized(),
        ensures
            final(self).wf(),
            final(self).is_initialized(),
            final(self).spec_width() == old(self).spec_width(),
            final(self).spec_height() == old(self).spec_height(),
            old(self).in_bounds(x as int, y as int) ==> {
                &&& r is Ok
                &&& final(self).pixel_data() == old(self).pixel_data().update(
                    old(self).spec_index_of(x as int, y as int),
                    color,
                )
            },
            !old(self).in_bounds(x as int, y as int) ==> {
                &&& r == Err::<(), PixelError>(PixelError::OutOfRange)
                &&& final(self).pixel_data() == old(self).pixel_data()
            },
    {
        if x >= self.width || y >= self.height {
            return Err(PixelError::OutOfRange);
        }
        proof {
            lemma_row_major_index_in_range(
                self.spec_width(),
                self.spec_height(),
                x as int,
                y as int,
            );
        }
        let index: usize = y * self.width + x;
        self.pixels[index] = color;
        Ok(())
    }

    /// Read the intensity stored at `(x, y)`.
    pub fn read_pixel(&self, x: usize, y: usize) -> (c: u8)
        requires
            self.wf(),
            self.is_initialized(),
            self.in_bounds(x as int, y as int),
        ensures
            c == self.pixel(x as int, y as int),
    {
        proof {
            lemma_row_major_index_in_range(
                self.spec_width(),
                self.spec_height(),
                x as int,
                y as int,
            );
        }
        let index: usize = y * self.width + x;
        self.pixels[index]
    }

    /// Read the intensity stored at a raw row-major index.
    pub fn read_index(&self, i: usize) -> (c: u8)
        requires
            i < self.pixel_data().len(),
        ensures
            c == self.pixel_data()[i as int],
    {
        self.pixels[i]
    }

    /// Commit one pixel's escape-time result: an escape at iteration `i`
    /// writes intensity `i`; no escape leaves the pixel untouched, so it
    /// keeps whatever `clear_image` put there.
    pub fn record_escape(&mut self, x: usize, y: usize, escape: Option<u8>) -> (r: Result<
        (),
        PixelError,
    >)
        requires
            old(self).wf(),
            old(self).is_initialized(),
        ensures
            final(self).wf(),
            final(self).is_initialized(),
            final(self).spec_width() == old(self).spec_width(),
            final(self).spec_height() == old(self).spec_height(),
            escape is None ==> {
                &&& r is Ok
                &&& final(self).pixel_data() == old(self).pixel_data()
            },
            escape matches Some(i) ==> {
                &&& old(self).in_bounds(x as int, y as int) ==> {
                    &&& r is Ok
                    &&& final(self).pixel_data() == old(self).pixel_data().update(
                        old(self).spec_index_of(x as int, y as int),
                        i,
                    )
                }
                &&& !old(self).in_bounds(x as int, y as int) ==> {
                    &&& r == Err::<(), PixelError>(PixelError::OutOfRange)
                    &&& final(self).pixel_data() == old(self).pixel_data()
                }
            },
    {
        match escape {
            None => Ok(()),
            Some(i) => self.write_pixel(x, y, i),
        }
    }
}

/// A coordinate inside the grid maps to a row-major index inside the buffer.
proof fn lemma_row_major_index_in_range(w: int, h: int, x: int, y: int)
    requires
        0 <= x < w,
        0 <= y < h,
    ensures
        0 <= y * w + x < w * h,
{
    assert(0 <= y * w + x) by (nonlinear_arith)
        requires
            0 <= x,
            0 <= y,
            0 < w,
    ;
    assert(y * w + x < w * h) by (nonlinear_arith)
        requires
            0 <= x < w,
            0 <= y < h,
    ;
}

/// Distinct coordinates map to distinct row-major indices.
proof fn lemma_row_major_index_injective(w: int, x1: int, y1: int, x2: int, y2: int)
    requires
        0 <= x1 < w,
        0 <= x2 < w,
        0 <= y1,
        0 <= y2,
        !(x1 == x2 && y1 == y2),
    ensures
        y1 * w + x1 != y2 * w + x2,
{
    if y1 == y2 {
        assert(y1 * w + x1 != y2 * w + x2);
    } else if y1 < y2 {
        assert((y1 + 1) * w <= y2 * w) by (nonlinear_arith)
            requires
                y1 + 1 <= y2,
                w >= 1,
        ;
        assert(y1 * w + x1 < (y1 + 1) * w) by (nonlinear_arith)
            requires
                x1 < w,
        ;
    } else {
        assert((y2 + 1) * w <= y1 * w) by (nonlinear_arith)
            requires
                y2 + 1 <= y1,
                w >= 1,
        ;
        assert(y2 * w + x2 < (y2 + 1) * w) by (nonlinear_arith)
            requires
                x2 < w,
        ;
    }
}

/// Law: after `clear_image` and before any pixel write, every coordinate of
/// the grid reads as the background intensity.
pub proof fn lemma_cleared_pixel(fb: Framebuffer, x: int, y: int)
    requires
        fb.is_cleared(),
        fb.in_bounds(x, y),
    ensures
        fb.pixel(x, y) == BACKGROUND,
{
    lemma_row_major_index_in_range(fb.spec_width(), fb.spec_height(), x, y);
}

/// Law: a pixel write is read back unchanged at the same coordinate, and
/// every other coordinate keeps its old value. `pre` and `post` are related
/// exactly as `write_pixel`'s contract relates the buffer before and after
/// an in-bounds write.
pub proof fn lemma_write_then_read(
    pre: Framebuffer,
    post: Framebuffer,
    x: int,
    y: int,
    color: u8,
    x2: int,
    y2: int,
)
    requires
        pre.wf(),
        pre.is_initialized(),
        pre.in_bounds(x, y),
        pre.in_bounds(x2, y2),
        !(x2 == x && y2 == y),
        post.spec_width() == pre.spec_width(),
        post.spec_height() == pre.spec_height(),
        post.pixel_data() == pre.pixel_data().update(pre.spec_index_of(x, y), color),
    ensures
        post.pixel(x, y) == color,
        post.pixel(x2, y2) == pre.pixel(x2, y2),
{
    let w = pre.spec_width();
    let h = pre.spec_height();
    lemma_row_major_index_in_range(w, h, x, y);
    lemma_row_major_index_in_range(w, h, x2, y2);
    lemma_row_major_index_injective(w, x, y, x2, y2);
}

/// Law: clearing is idempotent. The cleared state is a function of the
/// dimensions alone, so clearing an already-populated framebuffer yields
/// exactly the state that clearing a fresh one of the same size yields.
pub proof fn lemma_cleared_state_unique(a: Framebuffer, b: Framebuffer)
    requires
        a.is_cleared(),
        b.is_cleared(),
        a.spec_width() == b.spec_width(),
        a.spec_height() == b.spec_height(),
    ensures
        a.pixel_data() == b.pixel_data(),
{
    assert(a.pixel_data() =~= b.pixel_data());
}

} // verus!
