//! Pixel canvases: a bounded, bounds-checked pixel grid over a raw
//! byte buffer, rectangular sub-views of it, and alpha-blended
//! drawing of rasterized text and rule lines.

use vstd::prelude::*;

use crate::color::{spec_blend, Color};
use crate::error::Error;

verus! {

/// A paintable target: a bounded pixel grid with bounds-checked
/// access and alpha-blended drawing.
pub trait Paintable: Sized {
    /// Well-formedness of the target.
    spec fn wf(&self) -> bool;

    /// Width in pixels.
    spec fn spec_width(&self) -> nat;

    /// Height in pixels.
    spec fn spec_height(&self) -> nat;

    /// The pixel at `(x, y)`, for coordinates in bounds.
    spec fn pix(&self, x: int, y: int) -> Color;

    /// A well-formed target's extent fits the machine word.
    proof fn wf_bounded(&self)
        requires
            self.wf(),
        ensures
            self.spec_width() <= usize::MAX,
            self.spec_height() <= usize::MAX,
    ;

    fn width(&self) -> (r: usize)
        requires
            self.wf(),
        ensures
            r == self.spec_width(),
    ;

    fn height(&self) -> (r: usize)
        requires
            self.wf(),
        ensures
            r == self.spec_height(),
    ;

    /// Write the pixel at `(x, y)`; out of bounds is an error and
    /// leaves the target unchanged.
    fn set_pixel(&mut self, x: usize, y: usize, color: Color) -> (r: Result<(), Error>)
        requires
            old(self).wf(),
        ensures
            final(self).wf(),
            final(self).spec_width() == old(self).spec_width(),
            final(self).spec_height() == old(self).spec_height(),
            (r is Ok) == (x < old(self).spec_width() && y < old(self).spec_height()),
            r is Ok ==> final(self).pix(x as int, y as int) == color,
            r is Ok ==> forall|i: int, j: int|
                0 <= i < old(self).spec_width() && 0 <= j < old(self).spec_height()
                && !(i == x && j == y) ==> final(self).pix(i, j) == old(self).pix(i, j),
            r is Err ==> *final(self) == *old(self) && r == Err::<(), Error>(
                Error::PointOutbound),
    ;

    /// Read the pixel at `(x, y)`; out of bounds is an error.
    fn get_pixel(&self, x: usize, y: usize) -> (r: Result<Color, Error>)
        requires
            self.wf(),
        ensures
            (r is Ok) == (x < self.spec_width() && y < self.spec_height()),
            r is Ok ==> r == Ok::<Color, Error>(self.pix(x as int, y as int)),
            r is Err ==> r == Err::<Color, Error>(Error::PointOutbound),
    ;

    /// Composite `color` over the pixel at `(x, y)`.
    fn draw_pixel(&mut self, x: usize, y: usize, color: Color) -> (r: Result<(), Error>)
        requires
            old(self).wf(),
        ensures
            final(self).wf(),
            final(self).spec_width() == old(self).spec_width(),
            final(self).spec_height() == old(self).spec_height(),
            (r is Ok) == (x < old(self).spec_width() && y < old(self).spec_height()),
            r is Ok ==> final(self).pix(x as int, y as int) == spec_blend(
                color, old(self).pix(x as int, y as int)),
            r is Ok ==> forall|i: int, j: int|
                0 <= i < old(self).spec_width() && 0 <= j < old(self).spec_height()
                && !(i == x && j == y) ==> final(self).pix(i, j) == old(self).pix(i, j),
            r is Err ==> *final(self) == *old(self) && r == Err::<(), Error>(
                Error::PointOutbound),
    {
        match self.get_pixel(x, y) {
            Ok(below) => self.set_pixel(x, y, color.blend(&below)),
            Err(e) => Err(e),
        }
    }

}

/// A rectangular sub-view of `target` with its own origin; a
/// rectangle beyond the bounds is rejected at construction, handing
/// the target back.
pub fn slice_of<P: Paintable>(target: P, x: usize, y: usize, width: usize, height: usize) -> (r:
    Result<PaintableSlice<P>, (P, Error)>)
    requires
        target.wf(),
    ensures
        (match r {
            Ok(s) => {
                &&& x + width <= target.spec_width()
                &&& y + height <= target.spec_height()
                &&& s.parent == target
                &&& s.x == x
                &&& s.y == y
                &&& s.width == width
                &&& s.height == height
                &&& s.wf()
            },
            Err((orig, e)) => {
                &&& orig == target
                &&& e == Error::PointOutbound
                &&& !(x + width <= target.spec_width() && y + height
                    <= target.spec_height())
            },
        }),
{
    let w = target.width();
    let h = target.height();
    if h < y || h - y < height || w < x || w - x < width {
        Err((target, Error::PointOutbound))
    } else {
        Ok(PaintableSlice::new(target, x, y, height, width))
    }
}

/// A bounded rectangular view onto a paintable target, translating
/// its own coordinates onto the target's.
#[derive(Debug)]
pub struct PaintableSlice<P: Paintable> {
    pub parent: P,
    pub x: usize,
    pub y: usize,
    pub height: usize,
    pub width: usize,
}

impl<P: Paintable> PaintableSlice<P> {
    /// Wrap `parent` in a view at `(x, y)` of the given size. The
    /// view is well formed when the rectangle lies inside the parent.
    pub fn new(parent: P, x: usize, y: usize, height: usize, width: usize) -> (s: Self)
        ensures
            s.parent == parent,
            s.x == x,
            s.y == y,
            s.height == height,
            s.width == width,
    {
        PaintableSlice { parent, x, y, height, width }
    }

    /// Hand the underlying target back.
    pub fn into_parent(self) -> (r: P)
        ensures
            r == self.parent,
    {
        self.parent
    }

    /// A sub-view of this view; see [`slice_of`].
    pub fn slice(self, x: usize, y: usize, width: usize, height: usize) -> (r: Result<
        PaintableSlice<Self>,
        (Self, Error),
    >)
        requires
            self.wf(),
        ensures
            (match r {
                Ok(s) => {
                    &&& x + width <= self.spec_width()
                    &&& y + height <= self.spec_height()
                    &&& s.parent == self
                    &&& s.x == x
                    &&& s.y == y
                    &&& s.width == width
                    &&& s.height == height
                    &&& s.wf()
                },
                Err((orig, e)) => {
                    &&& orig == self
                    &&& e == Error::PointOutbound
                    &&& !(x + width <= self.spec_width() && y + height
                        <= self.spec_height())
                },
            }),
    {
        slice_of(self, x, y, width, height)
    }
}

impl<P: Paintable> Paintable for PaintableSlice<P> {
    open spec fn wf(&self) -> bool {
        &&& self.parent.wf()
        &&& self.x + self.width <= self.parent.spec_width()
        &&& self.y + self.height <= self.parent.spec_height()
    }

    open spec fn spec_width(&self) -> nat {
        self.width as nat
    }

    open spec fn spec_height(&self) -> nat {
        self.height as nat
    }

    open spec fn pix(&self, x: int, y: int) -> Color {
        self.parent.pix(self.x + x, self.y + y)
    }

    proof fn wf_bounded(&self) {
    }

    fn width(&self) -> (r: usize) {
        self.width
    }

    fn height(&self) -> (r: usize) {
        self.height
    }

    fn set_pixel(&mut self, x: usize, y: usize, color: Color) -> (r: Result<(), Error>) {
        if y >= self.height || x >= self.width {
            return Err(Error::PointOutbound);
        }
        proof {
            self.parent.wf_bounded();
        }
        let r = self.parent.set_pixel(x + self.x, y + self.y, color);
        proof {
            assert(r is Ok);
        }
        r
    }

    fn get_pixel(&self, x: usize, y: usize) -> (r: Result<Color, Error>) {
        if y >= self.height || x >= self.width {
            return Err(Error::PointOutbound);
        }
        proof {
            self.parent.wf_bounded();
        }
        self.parent.get_pixel(x + self.x, y + self.y)
    }
}

/// A pixel canvas owning its backing byte buffer, row-major with four
/// bytes per pixel in the presentation format's `[b, g, r, a]` order.
#[derive(Debug)]
pub struct Canvas {
    pub width: usize,
    pub height: usize,
    pub buffer: Vec<u8>,
}

/// Index of the first byte of the pixel at `(x, y)`.
pub open spec fn pixel_base(width: int, x: int, y: int) -> int {
    (y * width + x) * 4
}

/// Distinct in-bounds pixel coordinates have row-major indices at
/// least one pixel apart.
proof fn lemma_rowmajor_distinct(w: int, x1: int, y1: int, x2: int, y2: int)
    requires
        0 <= x1 < w,
        0 <= x2 < w,
        0 <= y1,
        0 <= y2,
        !(x1 == x2 && y1 == y2),
    ensures
        y1 * w + x1 != y2 * w + x2,
{
    if y1 < y2 {
        vstd::arithmetic::mul::lemma_mul_inequality(y1 + 1, y2, w);
        assert((y1 + 1) * w == y1 * w + w) by (nonlinear_arith);
    } else if y2 < y1 {
        vstd::arithmetic::mul::lemma_mul_inequality(y2 + 1, y1, w);
        assert((y2 + 1) * w == y2 * w + w) by (nonlinear_arith);
    }
}

/// An in-bounds pixel's four bytes lie inside the buffer.
proof fn lemma_pixel_in_buffer(w: int, h: int, x: int, y: int)
    requires
        0 <= x < w,
        0 <= y < h,
    ensures
        0 <= pixel_base(w, x, y),
        pixel_base(w, x, y) + 4 <= w * h * 4,
{
    vstd::arithmetic::mul::lemma_mul_inequality(y + 1, h, w);
    assert((y + 1) * w == y * w + w) by (nonlinear_arith);
    vstd::arithmetic::mul::lemma_mul_nonnegative(y, w);
    assert(y * w + x + 1 <= h * w);
    assert((y * w + x) * 4 + 4 <= h * w * 4) by (nonlinear_arith)
        requires
            y * w + x + 1 <= h * w,
    ;
    vstd::arithmetic::mul::lemma_mul_nonnegative(y * w + x, 4);
    assert(h * w * 4 == w * h * 4) by (nonlinear_arith);
}

impl Canvas {
    /// A canvas of the given size over `buffer`, which must hold
    /// exactly four bytes per pixel.
    pub fn new(height: usize, width: usize, buffer: Vec<u8>) -> (c: Canvas)
        requires
            buffer@.len() == width * height * 4,
        ensures
            c.wf(),
            c.width == width,
            c.height == height,
            c.buffer == buffer,
    {
        Canvas { width, height, buffer }
    }

    /// Hand the backing buffer back, for presentation.
    pub fn into_buffer(self) -> (r: Vec<u8>)
        ensures
            r == self.buffer,
    {
        self.buffer
    }
}

impl Paintable for Canvas {
    open spec fn wf(&self) -> bool {
        self.buffer@.len() == self.width * self.height * 4
    }

    open spec fn spec_width(&self) -> nat {
        self.width as nat
    }

    open spec fn spec_height(&self) -> nat {
        self.height as nat
    }

    open spec fn pix(&self, x: int, y: int) -> Color {
        let base = pixel_base(self.width as int, x, y);
        Color {
            b: self.buffer@[base],
            g: self.buffer@[base + 1],
            r: self.buffer@[base + 2],
            a: self.buffer@[base + 3],
        }
    }

    proof fn wf_bounded(&self) {
    }

    fn width(&self) -> (r: usize) {
        self.width
    }

    fn height(&self) -> (r: usize) {
        self.height
    }

    fn set_pixel(&mut self, x: usize, y: usize, color: Color) -> (r: Result<(), Error>) {
        if x >= self.width || y >= self.height {
            return Err(Error::PointOutbound);
        }
        let blen = self.buffer.len();
        proof {
            lemma_pixel_in_buffer(self.width as int, self.height as int, x as int, y as int);
            vstd::arithmetic::mul::lemma_mul_nonnegative(
                self.width as int, self.height as int);
            vstd::arithmetic::mul::lemma_mul_nonnegative(y as int, self.width as int);
            assert((y * self.width + x) * 4 + 4 <= blen);
            assert(y * self.width + x <= (y * self.width + x) * 4) by (nonlinear_arith)
                requires
                    0 <= y * self.width + x,
            ;
        }
        let base = (y * self.width + x) * 4;
        let bytes = color.to_bytes();
        self.buffer[base] = bytes[0];
        self.buffer[base + 1] = bytes[1];
        self.buffer[base + 2] = bytes[2];
        self.buffer[base + 3] = bytes[3];
        proof {
            assert forall|i: int, j: int|
                0 <= i < old(self).spec_width() && 0 <= j < old(self).spec_height()
                && !(i == x && j == y) implies self.pix(i, j) == old(self).pix(i, j) by {
                lemma_rowmajor_distinct(self.width as int, i, j, x as int, y as int);
                lemma_pixel_in_buffer(self.width as int, self.height as int, i, j);
            }
        }
        Ok(())
    }

    fn get_pixel(&self, x: usize, y: usize) -> (r: Result<Color, Error>) {
        if x >= self.width || y >= self.height {
            return Err(Error::PointOutbound);
        }
        let blen = self.buffer.len();
        proof {
            lemma_pixel_in_buffer(self.width as int, self.height as int, x as int, y as int);
            vstd::arithmetic::mul::lemma_mul_nonnegative(
                self.width as int, self.height as int);
            vstd::arithmetic::mul::lemma_mul_nonnegative(y as int, self.width as int);
            assert((y * self.width + x) * 4 + 4 <= blen);
            assert(y * self.width + x <= (y * self.width + x) * 4) by (nonlinear_arith)
                requires
                    0 <= y * self.width + x,
            ;
        }
        let base = (y * self.width + x) * 4;
        Ok(Color {
            b: self.buffer[base],
            g: self.buffer[base + 1],
            r: self.buffer[base + 2],
            a: self.buffer[base + 3],
        })
    }
}

impl Canvas {
    /// A sub-view of this canvas; see [`slice_of`].
    pub fn slice(self, x: usize, y: usize, width: usize, height: usize) -> (r: Result<
        PaintableSlice<Canvas>,
        (Canvas, Error),
    >)
        requires
            self.wf(),
        ensures
            (match r {
                Ok(s) => {
                    &&& x + width <= self.spec_width()
                    &&& y + height <= self.spec_height()
                    &&& s.parent == self
                    &&& s.x == x
                    &&& s.y == y
                    &&& s.width == width
                    &&& s.height == height
                    &&& s.wf()
                },
                Err((orig, e)) => {
                    &&& orig == self
                    &&& e == Error::PointOutbound
                    &&& !(x + width <= self.spec_width() && y + height
                        <= self.spec_height())
                },
            }),
    {
        slice_of(self, x, y, width, height)
    }
}

/// Composite `color` over every pixel of the target (the background
/// wash before a frame is drawn).
pub fn fill<P: Paintable>(canvas: &mut P, color: Color)
    requires
        old(canvas).wf(),
    ensures
        final(canvas).wf(),
        final(canvas).spec_width() == old(canvas).spec_width(),
        final(canvas).spec_height() == old(canvas).spec_height(),
        forall|i: int, j: int|
            0 <= i < old(canvas).spec_width() && 0 <= j < old(canvas).spec_height()
            ==> final(canvas).pix(i, j) == spec_blend(color, old(canvas).pix(i, j)),
{
    let ghost c0 = *canvas;
    let h = canvas.height();
    let w = canvas.width();
    let mut y: usize = 0;
    while y < h
        invariant
            y <= h,
            canvas.wf(),
            w == c0.spec_width(),
            h == c0.spec_height(),
            canvas.spec_width() == c0.spec_width(),
            canvas.spec_height() == c0.spec_height(),
            forall|i: int, j: int| 0 <= i < w && 0 <= j < y ==> canvas.pix(i, j)
                == spec_blend(color, c0.pix(i, j)),
            forall|i: int, j: int| 0 <= i < w && y <= j < h ==> canvas.pix(i, j)
                == c0.pix(i, j),
        decreases h - y,
    {
        let mut x: usize = 0;
        while x < w
            invariant
                y < h,
                x <= w,
                canvas.wf(),
                w == c0.spec_width(),
                h == c0.spec_height(),
                canvas.spec_width() == c0.spec_width(),
                canvas.spec_height() == c0.spec_height(),
                forall|i: int, j: int| 0 <= i < w && 0 <= j < y ==> canvas.pix(i, j)
                    == spec_blend(color, c0.pix(i, j)),
                forall|i: int| 0 <= i < x ==> canvas.pix(i, y as int)
                    == spec_blend(color, c0.pix(i, y as int)),
                forall|i: int| x <= i < w ==> canvas.pix(i, y as int)
                    == c0.pix(i, y as int),
                forall|i: int, j: int| 0 <= i < w && y < j < h ==> canvas.pix(i, j)
                    == c0.pix(i, j),
            decreases w - x,
        {
            let res = canvas.draw_pixel(x, y, color);
            proof {
                assert(res is Ok);
            }
            x = x + 1;
        }
        y = y + 1;
    }
}

/// Composite `color` over the pixels `[start, end)` of row `y` (an
/// underline or overline segment).
pub fn draw_hline<P: Paintable>(canvas: &mut P, y: usize, start: usize, end: usize, color: Color)
    requires
        old(canvas).wf(),
        start <= end <= old(canvas).spec_width(),
        y < old(canvas).spec_height(),
    ensures
        final(canvas).wf(),
        final(canvas).spec_width() == old(canvas).spec_width(),
        final(canvas).spec_height() == old(canvas).spec_height(),
        forall|i: int| start <= i < end ==> final(canvas).pix(i, y as int) == spec_blend(
            color, old(canvas).pix(i, y as int)),
        forall|i: int, j: int|
            0 <= i < old(canvas).spec_width() && 0 <= j < old(canvas).spec_height()
            && !(start <= i < end && j == y) ==> final(canvas).pix(i, j) == old(
            canvas).pix(i, j),
{
    let ghost c0 = *canvas;
    let mut x = start;
    while x < end
        invariant
            start <= x <= end,
            canvas.wf(),
            canvas.spec_width() == c0.spec_width(),
            canvas.spec_height() == c0.spec_height(),
            end <= c0.spec_width(),
            y < c0.spec_height(),
            forall|i: int| start <= i < x ==> canvas.pix(i, y as int) == spec_blend(
                color, c0.pix(i, y as int)),
            forall|i: int, j: int| 0 <= i < c0.spec_width() && 0 <= j < c0.spec_height()
                && !(start <= i < x && j == y) ==> canvas.pix(i, j) == c0.pix(i, j),
        decreases end - x,
    {
        let res = canvas.draw_pixel(x, y, color);
        proof {
            assert(res is Ok);
        }
        x = x + 1;
    }
}

/// One rasterized coverage sample: target coordinates and an 8-bit
/// glyph coverage value.
#[derive(Debug, PartialEq, Eq, Clone, Copy, Structural)]
pub struct CoveragePixel {
    pub x: usize,
    pub y: usize,
    pub cov: u8,
}

/// A rasterized text span ready to composite: the coverage samples
/// the rasterizer produced, with the colors to draw in. Rasterization
/// itself (fonts and outlines) happens outside; compositing the
/// samples onto a canvas is done and verified here.
#[derive(Debug)]
pub struct RasterText {
    pub pixels: Vec<CoveragePixel>,
    pub fg: Color,
    pub bg: Color,
}

/// Something that can draw itself onto a paintable target, keeping
/// the target's size and well-formedness.
pub trait Paint {
    fn paint<P: Paintable>(&self, canvas: &mut P) -> (r: Result<(), Error>)
        requires
            old(canvas).wf(),
        ensures
            final(canvas).wf(),
            final(canvas).spec_width() == old(canvas).spec_width(),
            final(canvas).spec_height() == old(canvas).spec_height(),
    ;
}

/// The color one coverage sample paints, before compositing onto the
/// target: the foreground scaled to the sample's coverage, over the
/// span's background.
pub open spec fn sample_color(fg: Color, bg: Color, cov: u8) -> Color {
    spec_blend(
        Color { a: crate::color::spec_scale_alpha(fg.a as int, cov as int) as u8, ..fg },
        bg,
    )
}

/// Whether a sample lies outside a `w` by `h` target.
pub open spec fn sample_oob(p: CoveragePixel, w: nat, h: nat) -> bool {
    p.x >= w || p.y >= h
}

/// The pixel grid `base` after compositing the coverage samples onto
/// it, in order.
pub open spec fn painted(
    base: spec_fn(int, int) -> Color,
    pixels: Seq<CoveragePixel>,
    fg: Color,
    bg: Color,
) -> spec_fn(int, int) -> Color
    decreases pixels.len(),
{
    if pixels.len() == 0 {
        base
    } else {
        let prev = painted(base, pixels.drop_last(), fg, bg);
        let p = pixels.last();
        |i: int, j: int|
            if i == p.x && j == p.y {
                spec_blend(sample_color(fg, bg, p.cov), prev(i, j))
            } else {
                prev(i, j)
            }
    }
}

/// Whether `after` is `before` with the coverage samples composited
/// on, in order.
pub open spec fn painted_onto<P: Paintable>(
    before: P,
    after: P,
    pixels: Seq<CoveragePixel>,
    fg: Color,
    bg: Color,
) -> bool {
    forall|i: int, j: int|
        0 <= i < before.spec_width() && 0 <= j < before.spec_height()
        ==> #[trigger] after.pix(i, j) == painted(
            |i2: int, j2: int| before.pix(i2, j2), pixels, fg, bg)(i, j)
}

impl RasterText {
    pub fn new(pixels: Vec<CoveragePixel>, fg: Color, bg: Color) -> (t: RasterText)
        ensures
            t.pixels == pixels,
            t.fg == fg,
            t.bg == bg,
    {
        RasterText { pixels, fg, bg }
    }

    /// Composite every coverage sample onto `canvas`, in order. Fails
    /// at the first sample outside the canvas, which indicates a
    /// layout bug; succeeds exactly when all samples lie inside.
    pub fn paint_onto<P: Paintable>(&self, canvas: &mut P) -> (r: Result<(), Error>)
        requires
            old(canvas).wf(),
        ensures
            final(canvas).wf(),
            final(canvas).spec_width() == old(canvas).spec_width(),
            final(canvas).spec_height() == old(canvas).spec_height(),
            (r is Ok) == (forall|t: int| 0 <= t < self.pixels@.len() ==> !sample_oob(
                #[trigger] self.pixels@[t], old(canvas).spec_width(),
                old(canvas).spec_height())),
            r is Ok ==> painted_onto(
                *old(canvas), *final(canvas), self.pixels@, self.fg, self.bg),
            r is Err ==> r == Err::<(), Error>(Error::PointOutbound),
    {
        let ghost c0 = *canvas;
        let mut t: usize = 0;
        let n = self.pixels.len();
        while t < n
            invariant
                t <= n,
                n == self.pixels@.len(),
                c0 == *old(canvas),
                canvas.wf(),
                canvas.spec_width() == c0.spec_width(),
                canvas.spec_height() == c0.spec_height(),
                forall|u: int| 0 <= u < t ==> !sample_oob(
                    #[trigger] self.pixels@[u], c0.spec_width(), c0.spec_height()),
                painted_onto(c0, *canvas, self.pixels@.take(t as int), self.fg, self.bg),
            decreases n - t,
        {
            let p = self.pixels[t];
            let shade = self.fg.with_alpha(p.cov).blend(&self.bg);
            let ghost pre = *canvas;
            let res = canvas.draw_pixel(p.x, p.y, shade);
            match res {
                Ok(_) => {
                    proof {
                        let base = |i2: int, j2: int| c0.pix(i2, j2);
                        let sub = self.pixels@.take(t as int);
                        let sub1 = self.pixels@.take(t + 1 as int);
                        assert(sub1.drop_last() =~= sub);
                        assert(sub1.last() == self.pixels@[t as int]);
                        assert(shade == sample_color(self.fg, self.bg, p.cov));
                        assert forall|i: int, j: int|
                            0 <= i < c0.spec_width() && 0 <= j < c0.spec_height() implies
                            #[trigger] canvas.pix(i, j) == painted(
                                base, sub1, self.fg, self.bg)(i, j) by {
                            if i == p.x && j == p.y {
                                assert(pre.pix(i, j) == painted(
                                    base, sub, self.fg, self.bg)(i, j));
                            } else {
                                assert(canvas.pix(i, j) == pre.pix(i, j));
                                assert(pre.pix(i, j) == painted(
                                    base, sub, self.fg, self.bg)(i, j));
                            }
                        }
                    }
                    t = t + 1;
                },
                Err(e) => {
                    proof {
                        assert(sample_oob(
                            self.pixels@[t as int], c0.spec_width(), c0.spec_height()));
                    }
                    return Err(e);
                },
            }
        }
        proof {
            assert(self.pixels@.take(n as int) =~= self.pixels@);
        }
        Ok(())
    }
}

impl Paint for RasterText {
    fn paint<P: Paintable>(&self, canvas: &mut P) -> (r: Result<(), Error>) {
        self.paint_onto(canvas)
    }
}

} // verus!
