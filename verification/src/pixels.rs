//! Pixel buffers: rectangular grids of RGBA samples.
//!
//! A sample is one `u32`: red in the top byte, then green, blue, and alpha in
//! the low byte. Samples lie row by row. Reading outside a buffer gives
//! transparent black, writing outside it is dropped, as on a raster surface.

use vstd::prelude::*;
use vstd::arithmetic::div_mod::lemma_fundamental_div_mod_converse;

verus! {

/// The sample that reads as transparent black.
pub const CLEAR: u32 = 0;

/// One channel of a sample, with its value.
#[derive(Clone, Copy, Debug)]
pub enum RGB {
    R(u8),
    G(u8),
    B(u8),
    A(u8),
}

impl RGB {
    /// The channel's value.
    pub open spec fn value(self) -> int {
        match self {
            RGB::R(v) => v as int,
            RGB::G(v) => v as int,
            RGB::B(v) => v as int,
            RGB::A(v) => v as int,
        }
    }

    /// What one unit of the channel is worth inside a sample.
    pub open spec fn weight(self) -> int {
        match self {
            RGB::R(_) => 0x100_0000,
            RGB::G(_) => 0x1_0000,
            RGB::B(_) => 0x100,
            RGB::A(_) => 1,
        }
    }

    /// The channel at its place in a sample, the other channels zero.
    pub fn to_u32(&self) -> (sample: u32)
        ensures
            sample == self.value() * self.weight(),
    {
        match self {
            RGB::R(r) => {
                let r: u8 = *r;
                assert((r as u32) << 24 == (r as u32) * 0x100_0000) by (bit_vector);
                (r as u32) << 24
            },
            RGB::G(g) => {
                let g: u8 = *g;
                assert((g as u32) << 16 == (g as u32) * 0x1_0000) by (bit_vector);
                (g as u32) << 16
            },
            RGB::B(b) => {
                let b: u8 = *b;
                assert((b as u32) << 8 == (b as u32) * 0x100) by (bit_vector);
                (b as u32) << 8
            },
            RGB::A(a) => *a as u32,
        }
    }

    /// The channel's value, whichever channel it is.
    pub fn to_u8(&self) -> (v: u8)
        ensures
            v == self.value(),
    {
        match self {
            RGB::R(v) => *v,
            RGB::G(v) => *v,
            RGB::B(v) => *v,
            RGB::A(v) => *v,
        }
    }
}

/// Position of the sample at column `x` of row `y` in a grid `w` samples
/// wide.
pub fn xy_to_index(x: u32, y: u32, w: u32) -> (index: usize)
    requires
        y * w + x <= u32::MAX,
    ensures
        index == y * w + x,
{
    assert(y * w <= u32::MAX) by (nonlinear_arith)
        requires
            y * w + x <= u32::MAX,
            x >= 0,
    ;
    ((y * w) + x) as usize
}

/// Inside a grid `w` wide and `h` high, every position has its own index
/// below `w * h`.
pub proof fn lemma_index_within(x: int, y: int, w: int, h: int)
    requires
        0 <= x < w,
        0 <= y < h,
    ensures
        0 <= y * w + x < w * h,
{
    assert(y * w + x < w * h) by (nonlinear_arith)
        requires
            0 <= x < w,
            0 <= y < h,
    ;
    assert(0 <= y * w) by (nonlinear_arith)
        requires
            0 <= y,
            0 <= w,
    ;
}

/// Two positions of one grid row-major index apart unless they are the same.
pub proof fn lemma_index_injective(x1: int, y1: int, x2: int, y2: int, w: int)
    requires
        0 <= x1 < w,
        0 <= x2 < w,
        0 <= y1,
        0 <= y2,
        y1 * w + x1 == y2 * w + x2,
    ensures
        x1 == x2,
        y1 == y2,
{
    lemma_fundamental_div_mod_converse(y1 * w + x1, w, y1, x1);
    lemma_fundamental_div_mod_converse(y2 * w + x2, w, y2, x2);
}

/// The picture that a buffer holds: its size and the sample at each of its
/// positions.
pub struct Raster {
    pub width: int,
    pub height: int,
    pub samples: Map<(int, int), u32>,
}

impl Raster {
    /// Whether column `x` of row `y` lies inside the picture.
    pub open spec fn contains(self, x: int, y: int) -> bool {
        0 <= x < self.width && 0 <= y < self.height
    }

    /// The sample at column `x` of row `y`; transparent black outside the
    /// picture.
    pub open spec fn pixel(self, x: int, y: int) -> u32 {
        if self.contains(x, y) {
            self.samples[(x, y)]
        } else {
            CLEAR
        }
    }

    /// The picture holds a sample for each of its positions and for nothing
    /// else.
    pub open spec fn wf(self) -> bool {
        forall|p: (int, int)| #[trigger] self.samples.dom().contains(p) <==> self.contains(p.0, p.1)
    }

    /// The picture of the given size that shows `sample(x, y)` at column `x`
    /// of row `y`.
    pub open spec fn of(width: int, height: int, sample: spec_fn(int, int) -> u32) -> Raster {
        Raster {
            width,
            height,
            samples: Map::new(
                |p: (int, int)| 0 <= p.0 < width && 0 <= p.1 < height,
                |p: (int, int)| sample(p.0, p.1),
            ),
        }
    }

    /// What a read-back of the rectangle of `width` by `height` samples at
    /// column `left` of row `top` gives.
    pub open spec fn captured(self, left: int, top: int, width: int, height: int) -> Raster {
        Raster::of(width, height, |x: int, y: int| self.pixel(left + x, top + y))
    }

    /// The picture with `block` written at column `px` of row `py`: the
    /// block's samples where the block falls, the old samples elsewhere.
    pub open spec fn stamped(self, block: Raster, px: int, py: int) -> Raster {
        Raster::of(
            self.width,
            self.height,
            |x: int, y: int|
                if block.contains(x - px, y - py) {
                    block.pixel(x - px, y - py)
                } else {
                    self.pixel(x, y)
                },
        )
    }
}

/// A grid of `width` by `height` samples.
#[derive(Debug)]
pub struct PixelBuffer {
    width: u32,
    height: u32,
    samples: Vec<u32>,
}

impl View for PixelBuffer {
    type V = Raster;

    /// The picture that the buffer holds.
    open spec fn view(&self) -> Raster {
        Raster::of(self.spec_width(), self.spec_height(), |x: int, y: int| self.pixel(x, y))
    }
}

impl PixelBuffer {
    pub closed spec fn spec_width(&self) -> int {
        self.width as int
    }

    pub closed spec fn spec_height(&self) -> int {
        self.height as int
    }

    /// The samples, row by row.
    pub closed spec fn samples(&self) -> Seq<u32> {
        self.samples@
    }

    /// There is one sample for each position, and no more than `u32::MAX` of
    /// them.
    pub closed spec fn wf(&self) -> bool {
        &&& self.samples@.len() == self.width * self.height
        &&& self.width * self.height <= u32::MAX
    }

    /// Whether column `x` of row `y` lies inside the buffer.
    pub open spec fn contains(&self, x: int, y: int) -> bool {
        0 <= x < self.spec_width() && 0 <= y < self.spec_height()
    }

    /// The sample at column `x` of row `y`; transparent black outside the
    /// buffer.
    pub closed spec fn pixel(&self, x: int, y: int) -> u32 {
        if self.contains(x, y) {
            self.samples@[y * self.width + x]
        } else {
            CLEAR
        }
    }

    /// Same size, same samples.
    pub open spec fn same_as(&self, other: &PixelBuffer) -> bool {
        &&& self.spec_width() == other.spec_width()
        &&& self.spec_height() == other.spec_height()
        &&& forall|x: int, y: int| #[trigger] self.pixel(x, y) == other.pixel(x, y)
    }

    /// `self` holds what the rectangle of its own size at column `left` of row
    /// `top` of `source` shows.
    pub open spec fn is_capture_of(&self, source: &PixelBuffer, left: int, top: int) -> bool {
        forall|x: int, y: int|
            self.contains(x, y) ==> #[trigger] self.pixel(x, y) == source.pixel(left + x, top + y)
    }

    /// `self` is `before` with `block` written at column `px` of row `py`:
    /// same size, the block's samples where the block falls inside, the old
    /// samples elsewhere.
    pub open spec fn is_stamp_of(
        &self,
        before: &PixelBuffer,
        block: &PixelBuffer,
        px: int,
        py: int,
    ) -> bool {
        &&& self.spec_width() == before.spec_width()
        &&& self.spec_height() == before.spec_height()
        &&& forall|x: int, y: int| #[trigger]
            self.pixel(x, y) == if before.contains(x, y) && block.contains(x - px, y - py) {
                block.pixel(x - px, y - py)
            } else {
                before.pixel(x, y)
            }
    }

    /// Writing a captured rectangle back where it was read changes nothing:
    /// the round trip of capture and stamp is lossless.
    pub proof fn lemma_stamp_of_capture(
        &self,
        source: &PixelBuffer,
        block: &PixelBuffer,
        left: int,
        top: int,
    )
        requires
            block.is_capture_of(source, left, top),
            self.is_stamp_of(source, block, left, top),
        ensures
            self.same_as(source),
            self.wf() && source.wf() ==> self.samples() == source.samples(),
    {
        self.lemma_round_trip_positions(source, block, left, top);
        if self.wf() && source.wf() {
            self.lemma_same_samples(source);
        }
    }

    proof fn lemma_round_trip_positions(
        &self,
        source: &PixelBuffer,
        block: &PixelBuffer,
        left: int,
        top: int,
    )
        requires
            block.is_capture_of(source, left, top),
            self.is_stamp_of(source, block, left, top),
        ensures
            self.same_as(source),
    {
        assert forall|x: int, y: int| #[trigger] self.pixel(x, y) == source.pixel(x, y) by {
            if source.contains(x, y) && block.contains(x - left, y - top) {
                assert(block.pixel(x - left, y - top) == source.pixel(
                    left + (x - left),
                    top + (y - top),
                ));
            }
        }
    }

    /// A well-formed buffer holds one sample for each position, row by row,
    /// and its picture shows them.
    pub proof fn lemma_samples(&self)
        requires
            self.wf(),
        ensures
            self.samples().len() == self.spec_width() * self.spec_height(),
            self.spec_width() * self.spec_height() <= u32::MAX,
            forall|x: int, y: int|
                self.contains(x, y) ==> #[trigger] self.pixel(x, y) == self.samples()[y
                    * self.spec_width() + x],
            forall|x: int, y: int| #[trigger] self@.pixel(x, y) == self.pixel(x, y),
    {
    }

    /// The picture of a buffer shows the buffer's samples.
    pub proof fn lemma_view(&self)
        ensures
            self@.wf(),
            self@.width == self.spec_width(),
            self@.height == self.spec_height(),
            forall|x: int, y: int| #[trigger] self@.pixel(x, y) == self.pixel(x, y),
    {
    }

    /// Outside the buffer every sample reads as transparent black.
    pub proof fn lemma_outside_is_clear(&self, x: int, y: int)
        requires
            !self.contains(x, y),
        ensures
            self.pixel(x, y) == CLEAR,
    {
    }

    /// Buffers that agree on size and on every position hold the same
    /// samples.
    pub proof fn lemma_same_samples(&self, other: &PixelBuffer)
        requires
            self.wf(),
            other.wf(),
            self.same_as(other),
        ensures
            self.samples() == other.samples(),
    {
        let w = self.spec_width();
        assert forall|i: int| 0 <= i < self.samples().len() implies self.samples()[i]
            == other.samples()[i] by {
            let x = i % w;
            let y = i / w;
            assert(w > 0 && 0 <= y < self.spec_height() && i == y * w + x && 0 <= x < w)
                by (nonlinear_arith)
                requires
                    0 <= i < w * self.spec_height(),
                    0 <= w,
                    0 <= self.spec_height(),
                    x == i % w,
                    y == i / w,
            ;
            assert(self.pixel(x, y) == other.pixel(x, y));
        }
        assert(self.samples() =~= other.samples());
    }

    /// A buffer of the given size, all transparent black. `None` exactly when
    /// it would hold more than `u32::MAX` samples.
    pub fn new(width: u32, height: u32) -> (buffer: Option<PixelBuffer>)
        ensures
            buffer is Some <==> width * height <= u32::MAX,
            buffer matches Some(b) ==> {
                &&& b.wf()
                &&& b.spec_width() == width
                &&& b.spec_height() == height
                &&& b.samples().len() == width * height
                &&& forall|x: int, y: int| #[trigger] b.pixel(x, y) == CLEAR
            },
    {
        assert(width * height <= 0xffff_ffff * 0xffff_ffff) by (nonlinear_arith)
            requires
                0 <= width <= 0xffff_ffff,
                0 <= height <= 0xffff_ffff,
        ;
        let count: u64 = (width as u64) * (height as u64);
        if count > u32::MAX as u64 {
            return None;
        }
        let samples: Vec<u32> = vec![CLEAR; count as usize];
        let b = PixelBuffer { width, height, samples };
        proof {
            assert forall|x: int, y: int| #[trigger] b.pixel(x, y) == CLEAR by {
                if b.contains(x, y) {
                    lemma_index_within(x, y, width as int, height as int);
                }
            }
        }
        Some(b)
    }

    pub fn width(&self) -> (w: u32)
        ensures
            w == self.spec_width(),
    {
        self.width
    }

    pub fn height(&self) -> (h: u32)
        ensures
            h == self.spec_height(),
    {
        self.height
    }

    /// The sample at column `x` of row `y`; transparent black outside the
    /// buffer.
    pub fn get(&self, x: u64, y: u64) -> (sample: u32)
        requires
            self.wf(),
        ensures
            sample == self.pixel(x as int, y as int),
    {
        if x >= self.width as u64 || y >= self.height as u64 {
            return CLEAR;
        }
        proof {
            lemma_index_within(x as int, y as int, self.width as int, self.height as int);
        }
        self.samples[xy_to_index(x as u32, y as u32, self.width)]
    }

    /// Writes `sample` at column `x` of row `y`, if that lies inside the
    /// buffer, and says whether it does. No other sample changes.
    pub fn set(&mut self, x: u64, y: u64, sample: u32) -> (inside: bool)
        requires
            old(self).wf(),
        ensures
            final(self).wf(),
            final(self).spec_width() == old(self).spec_width(),
            final(self).spec_height() == old(self).spec_height(),
            inside == old(self).contains(x as int, y as int),
            forall|a: int, b: int| #[trigger]
                final(self).pixel(a, b) == if inside && a == x && b == y {
                    sample
                } else {
                    old(self).pixel(a, b)
                },
    {
        if x >= self.width as u64 || y >= self.height as u64 {
            return false;
        }
        proof {
            lemma_index_within(x as int, y as int, self.width as int, self.height as int);
        }
        let index: usize = xy_to_index(x as u32, y as u32, self.width);
        self.samples.set(index, sample);
        proof {
            assert forall|a: int, b: int| #[trigger]
                self.pixel(a, b) == if a == x && b == y {
                    sample
                } else {
                    old(self).pixel(a, b)
                } by {
                if self.contains(a, b) && !(a == x && b == y) {
                    lemma_index_within(a, b, self.width as int, self.height as int);
                    if b * self.width + a == y * self.width + x {
                        lemma_index_injective(a, b, x as int, y as int, self.width as int);
                    }
                }
            }
        }
        true
    }

    /// Reads the rectangle of `width` by `height` samples whose top left
    /// sample is at column `left` of row `top`. Where the rectangle reaches
    /// outside the buffer it reads transparent black. `None` exactly when the
    /// rectangle is empty or holds more than `u32::MAX` samples.
    pub fn capture(&self, left: u32, top: u32, width: u32, height: u32) -> (block: Option<
        PixelBuffer,
    >)
        requires
            self.wf(),
        ensures
            block is Some <==> width > 0 && height > 0 && width * height <= u32::MAX,
            block matches Some(b) ==> {
                &&& b.wf()
                &&& b.spec_width() == width
                &&& b.spec_height() == height
                &&& b.is_capture_of(self, left as int, top as int)
                &&& b@ == self@.captured(left as int, top as int, width as int, height as int)
            },
    {
        if width == 0 || height == 0 {
            return None;
        }
        let mut block = match PixelBuffer::new(width, height) {
            Some(b) => b,
            None => {
                return None;
            },
        };
        let mut y: u32 = 0;
        while y < height
            invariant
                self.wf(),
                block.wf(),
                block.spec_width() == width,
                block.spec_height() == height,
                y <= height,
                forall|a: int, b: int|
                    block.contains(a, b) && b < y ==> #[trigger] block.pixel(a, b) == self.pixel(
                        left + a,
                        top + b,
                    ),
            decreases height - y,
        {
            let mut x: u32 = 0;
            while x < width
                invariant
                    self.wf(),
                    block.wf(),
                    block.spec_width() == width,
                    block.spec_height() == height,
                    y < height,
                    x <= width,
                    forall|a: int, b: int|
                        block.contains(a, b) && (b < y || (b == y && a < x))
                            ==> #[trigger] block.pixel(a, b) == self.pixel(left + a, top + b),
                decreases width - x,
            {
                let sample: u32 = self.get(left as u64 + x as u64, top as u64 + y as u64);
                block.set(x as u64, y as u64, sample);
                x += 1;
            }
            y += 1;
        }
        proof {
            assert(block@.samples =~= self@.captured(
                left as int,
                top as int,
                width as int,
                height as int,
            ).samples);
        }
        Some(block)
    }

    /// Writes `block` with its top left sample at column `px` of row `py`.
    /// What falls outside the buffer is dropped; what the block does not
    /// cover stays as it was.
    pub fn stamp(&mut self, block: &PixelBuffer, px: u64, py: u64)
        requires
            old(self).wf(),
            block.wf(),
        ensures
            final(self).wf(),
            final(self).is_stamp_of(old(self), block, px as int, py as int),
            final(self)@ == old(self)@.stamped(block@, px as int, py as int),
    {
        if px >= self.width as u64 || py >= self.height as u64 {
            proof {
                assert(self@.samples =~= self@.stamped(block@, px as int, py as int).samples);
            }
            return ;
        }
        let mut b: u64 = 0;
        while b < block.height as u64 && py + b < self.height as u64
            invariant
                self.wf(),
                block.wf(),
                self.spec_width() == old(self).spec_width(),
                self.spec_height() == old(self).spec_height(),
                px < self.spec_width(),
                py < self.spec_height(),
                b <= block.spec_height(),
                py + b <= self.spec_height(),
                forall|x: int, y: int| #[trigger]
                    self.pixel(x, y) == if old(self).contains(x, y) && block.contains(
                        x - px,
                        y - py,
                    ) && y - py < b {
                        block.pixel(x - px, y - py)
                    } else {
                        old(self).pixel(x, y)
                    },
            decreases block.spec_height() - b,
        {
            let mut a: u64 = 0;
            while a < block.width as u64 && px + a < self.width as u64
                invariant
                    self.wf(),
                    block.wf(),
                    self.spec_width() == old(self).spec_width(),
                    self.spec_height() == old(self).spec_height(),
                    px < self.spec_width(),
                    py < self.spec_height(),
                    b < block.spec_height(),
                    py + b < self.spec_height(),
                    a <= block.spec_width(),
                    px + a <= self.spec_width(),
                    forall|x: int, y: int| #[trigger]
                        self.pixel(x, y) == if old(self).contains(x, y) && block.contains(
                            x - px,
                            y - py,
                        ) && (y - py < b || (y - py == b && x - px < a)) {
                            block.pixel(x - px, y - py)
                        } else {
                            old(self).pixel(x, y)
                        },
                decreases block.spec_width() - a,
            {
                let sample: u32 = block.get(a, b);
                self.set(px + a, py + b, sample);
                a += 1;
            }
            b += 1;
        }
        proof {
            assert(self@.samples =~= old(self)@.stamped(block@, px as int, py as int).samples);
        }
    }
}

} // verus!
