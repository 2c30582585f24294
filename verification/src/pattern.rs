//! The pattern source: the small rotating texture that the flowers are filled
//! with.

use vstd::prelude::*;
use crate::canvas::DrawOp;
use crate::geometry::TriangleUnit;

verus! {

/// A rectangle to fill, in pixels of the surface's own rotated frame.
#[derive(Clone, Copy, Debug, PartialEq, Eq, Structural)]
pub struct FillRect {
    pub x: i64,
    pub y: i64,
    pub width: i64,
    pub height: i64,
}

impl FillRect {
    /// Whether the closed rectangle holds the point `(px / scale, py / scale)`.
    pub open spec fn covers(self, px: int, py: int, scale: int) -> bool {
        &&& self.x * scale <= px <= (self.x + self.width) * scale
        &&& self.y * scale <= py <= (self.y + self.height) * scale
    }
}

/// The four squares of side `d` that meet at the origin, in the order in which
/// they are filled: lower left, upper right, upper left, lower right.
pub open spec fn quadrants(d: int) -> Seq<FillRect> {
    seq![
        FillRect { x: (-d) as i64, y: 0, width: d as i64, height: d as i64 },
        FillRect { x: 0, y: (-d) as i64, width: d as i64, height: d as i64 },
        FillRect { x: (-d) as i64, y: (-d) as i64, width: d as i64, height: d as i64 },
        FillRect { x: 0, y: 0, width: d as i64, height: d as i64 },
    ]
}

/// Whether one of the four quadrants holds the point `(px / scale, py / scale)`.
pub open spec fn quadrants_cover(d: int, px: int, py: int, scale: int) -> bool {
    exists|i: int| 0 <= i < 4 && (#[trigger] quadrants(d)[i]).covers(px, py, scale)
}

/// The four quadrants fill the square `[-d, d] x [-d, d]` and nothing else:
/// a point, at any resolution, lies in one of them exactly when it lies in
/// the square. The quadrants are laid out in the rotated frame of the surface,
/// so this holds at every angle.
pub proof fn lemma_quadrants_fill_square(d: int, px: int, py: int, scale: int)
    requires
        0 < d <= u32::MAX,
        0 < scale,
    ensures
        quadrants_cover(d, px, py, scale) <==> (-d * scale <= px <= d * scale && -d * scale <= py
            <= d * scale),
{
    let q = quadrants(d);
    assert((-d) * scale == -(d * scale) && (-d + d) * scale == 0 && (0 + d) * scale == d * scale
        && 0 * scale == 0) by (nonlinear_arith);
    if -d * scale <= px <= d * scale && -d * scale <= py <= d * scale {
        if px <= 0 && py >= 0 {
            assert(q[0].covers(px, py, scale));
        } else if px >= 0 && py <= 0 {
            assert(q[1].covers(px, py, scale));
        } else if px <= 0 && py <= 0 {
            assert(q[2].covers(px, py, scale));
        } else {
            assert(q[3].covers(px, py, scale));
        }
    }
    if quadrants_cover(d, px, py, scale) {
        let i = choose|i: int| 0 <= i < 4 && (#[trigger] quadrants(d)[i]).covers(px, py, scale);
        assert(q[i].covers(px, py, scale));
    }
}

/// The surface of the pattern source and the angle it has been rotated by.
#[derive(Clone, Copy, Debug)]
pub struct InputCanvas {
    width: u32,
    height: u32,
    angle: i64,
}

impl InputCanvas {
    pub closed spec fn spec_width(&self) -> int {
        self.width as int
    }

    pub closed spec fn spec_height(&self) -> int {
        self.height as int
    }

    /// The rotation applied so far, in hundredths of a radian.
    pub closed spec fn spec_angle(&self) -> int {
        self.angle as int
    }

    /// A pattern surface of `width` by `height` pixels, not rotated yet.
    pub fn new(width: u32, height: u32) -> (source: InputCanvas)
        ensures
            source.spec_width() == width,
            source.spec_height() == height,
            source.spec_angle() == 0,
    {
        InputCanvas { width, height, angle: 0 }
    }

    pub fn width(&self) -> (w: u32)
        ensures
            w == self.spec_width(),
    {
        self.width
    }

    pub fn height(&self) -> (h: u32)
        ensures
            h == self.spec_height(),
    {
        self.height
    }

    /// The rotation applied so far, in hundredths of a radian.
    pub fn angle(&self) -> (a: i64)
        ensures
            a == self.spec_angle(),
    {
        self.angle
    }

    /// Rotates by `delta` hundredths of a radian and says whether it did: the
    /// angle is left alone, and `false` returned, exactly when the sum does not
    /// fit in an `i64`. Nothing but the angle changes.
    pub fn advance(&mut self, delta: i64) -> (turned: bool)
        ensures
            final(self).spec_width() == old(self).spec_width(),
            final(self).spec_height() == old(self).spec_height(),
            turned <==> i64::MIN <= old(self).spec_angle() + delta <= i64::MAX,
            turned ==> final(self).spec_angle() == old(self).spec_angle() + delta,
            !turned ==> final(self).spec_angle() == old(self).spec_angle(),
    {
        match self.angle.checked_add(delta) {
            Some(angle) => {
                self.angle = angle;
                true
            },
            None => false,
        }
    }

    /// The fills that repaint the pattern: the four [`quadrants`] about the
    /// origin, whatever the angle.
    pub fn draw_onto(&self, unit: &TriangleUnit) -> (fills: Vec<FillRect>)
        requires
            unit.wf(),
        ensures
            fills@ == quadrants(unit.spec_edge()),
    {
        let d: i64 = unit.edge() as i64;
        let mut fills: Vec<FillRect> = Vec::new();
        fills.push(FillRect { x: -d, y: 0, width: d, height: d });
        fills.push(FillRect { x: 0, y: -d, width: d, height: d });
        fills.push(FillRect { x: -d, y: -d, width: d, height: d });
        fills.push(FillRect { x: 0, y: 0, width: d, height: d });
        proof {
            assert(fills@ =~= quadrants(unit.spec_edge()));
        }
        fills
    }

    /// The read-back of the whole pattern surface, written back unchanged at
    /// its place.
    pub fn frame(&self) -> (ops: Vec<DrawOp>)
        ensures
            ops@ == seq![
                DrawOp::Capture {
                    left: 0,
                    top: 0,
                    width: self.spec_width() as u32,
                    height: self.spec_height() as u32,
                },
                DrawOp::Stamp { px: 0, py: 0 },
            ],
    {
        let mut ops: Vec<DrawOp> = Vec::new();
        ops.push(DrawOp::Capture { left: 0, top: 0, width: self.width, height: self.height });
        ops.push(DrawOp::Stamp { px: 0, py: 0 });
        proof {
            assert(ops@ =~= seq![
                DrawOp::Capture {
                    left: 0,
                    top: 0,
                    width: self.spec_width() as u32,
                    height: self.spec_height() as u32,
                },
                DrawOp::Stamp { px: 0, py: 0 },
            ]);
        }
        ops
    }
}

} // verus!
