//! The kaleidoscope surface: one frame is a grid of flowers, tiled over the
//! whole surface and read back.

use vstd::prelude::*;
use crate::canvas::{
    lemma_bracket_unwinds, lemma_own_saves_concat, lemma_own_saves_push, lemma_own_saves_without,
    lemma_restores_own_saves_prefix, lemma_run_concat, lemma_run_push, lemma_traced_concat,
    lemma_traced_push, open_saves, restores_own_saves, run, traced, unwound, Canvas, DrawOp,
};
use crate::grid::{
    col, col_ops, flower_state, lemma_col_own_saves, lemma_col_restores_state,
    lemma_col_traces_hexagons, lemma_flower_pivot, rows_hexagons,
};
use crate::motif::in_hexagon;
use crate::tiling::{
    lemma_pixel_ops_keep_state, lemma_tile_keeps_state, moves_pixels, tile, tile_ops,
};
use crate::geometry::TriangleUnit;
use crate::transform::{SurfaceState, Transform, Vector};

verus! {

/// Edge length of the motif, in pixels.
pub const PAT_DIM: u32 = 150;

/// Cells along each side of the grid that one frame draws.
pub const GRID: i32 = 2;

/// What one frame draws on a surface of `width` by `height` pixels: clear,
/// the grid inside a save and a restore, then the tiling pass.
pub open spec fn frame_ops(unit: TriangleUnit, width: int, height: int) -> Seq<DrawOp> {
    seq![DrawOp::Clear, DrawOp::Save] + col_ops(GRID as int) + seq![DrawOp::Restore] + tile_ops(
        unit,
        width,
        height,
    )
}

/// The read-back of the whole surface.
pub open spec fn whole_surface(width: int, height: int) -> DrawOp {
    DrawOp::Capture { left: 0, top: 0, width: width as u32, height: height as u32 }
}

/// The transform that every frame starts from and returns to: the origin
/// half an edge left of and one height above the top left pixel.
pub open spec fn base_transform() -> Transform {
    Transform::identity().translated(Vector::of_steps(-1, -1))
}

/// A frame leaves the transform state as it found it.
pub proof fn lemma_frame_restores_state(s: SurfaceState, unit: TriangleUnit, width: int, height: int)
    requires
        0 <= s.current.turns < 6,
    ensures
        run(s, frame_ops(unit, width, height)) == s,
{
    let grid = col_ops(GRID as int);
    let open = seq![DrawOp::Clear, DrawOp::Save];
    assert(open =~= Seq::<DrawOp>::empty().push(DrawOp::Clear).push(DrawOp::Save));
    lemma_run_push(s, Seq::empty(), DrawOp::Clear);
    lemma_run_push(s, Seq::<DrawOp>::empty().push(DrawOp::Clear), DrawOp::Save);
    lemma_run_concat(s, open, grid);
    lemma_col_restores_state(s.save(), GRID as int);
    lemma_run_push(s, open + grid, DrawOp::Restore);
    assert(open + grid + seq![DrawOp::Restore] =~= (open + grid).push(DrawOp::Restore));
    assert(s.save().restore().saved =~= s.saved);
    lemma_run_concat(s, open + grid + seq![DrawOp::Restore], tile_ops(unit, width, height));
    lemma_tile_keeps_state(s, unit, width, height);
}

/// A frame restores only its own saves, and leaves none open: a replay
/// broken off part of the way can be unwound to the state on entry.
pub proof fn lemma_frame_own_saves(unit: TriangleUnit, width: int, height: int)
    ensures
        restores_own_saves(frame_ops(unit, width, height)),
        open_saves(frame_ops(unit, width, height)) == 0,
{
    let grid = col_ops(GRID as int);
    let open = seq![DrawOp::Clear, DrawOp::Save];
    assert(open =~= Seq::<DrawOp>::empty().push(DrawOp::Clear).push(DrawOp::Save));
    lemma_own_saves_push(Seq::empty(), DrawOp::Clear);
    lemma_own_saves_push(Seq::<DrawOp>::empty().push(DrawOp::Clear), DrawOp::Save);
    lemma_col_own_saves(GRID as int);
    lemma_own_saves_concat(open, grid);
    lemma_own_saves_push(open + grid, DrawOp::Restore);
    assert(open + grid + seq![DrawOp::Restore] =~= (open + grid).push(DrawOp::Restore));
    lemma_tile_keeps_state(SurfaceState::initial(), unit, width, height);
    lemma_own_saves_concat(open + grid + seq![DrawOp::Restore], tile_ops(unit, width, height));
}

/// What a frame traces: the hexagons of a grid of two by two cells, drawn
/// from the state on entry.
pub proof fn lemma_frame_traces_honeycomb(
    s: SurfaceState,
    unit: TriangleUnit,
    width: int,
    height: int,
)
    requires
        0 <= s.current.turns < 6,
    ensures
        traced(s, frame_ops(unit, width, height)) == rows_hexagons(s.save().save(), 2, 2),
{
    let open = seq![DrawOp::Clear, DrawOp::Save];
    let grid = col_ops(GRID as int);
    let pass = tile_ops(unit, width, height);
    assert(open =~= Seq::<DrawOp>::empty().push(DrawOp::Clear).push(DrawOp::Save));
    lemma_run_push(s, Seq::empty(), DrawOp::Clear);
    lemma_run_push(s, Seq::<DrawOp>::empty().push(DrawOp::Clear), DrawOp::Save);
    lemma_traced_push(s, Seq::empty(), DrawOp::Clear);
    lemma_traced_push(s, Seq::<DrawOp>::empty().push(DrawOp::Clear), DrawOp::Save);
    lemma_traced_concat(s, open, grid);
    lemma_col_traces_hexagons(s.save(), GRID as int);
    assert(open + grid + seq![DrawOp::Restore] =~= (open + grid).push(DrawOp::Restore));
    lemma_traced_push(s, open + grid, DrawOp::Restore);
    lemma_traced_concat(s, open + grid + seq![DrawOp::Restore], pass);
    lemma_traces_nothing(run(s, open + grid + seq![DrawOp::Restore]), pass);
    assert(Seq::<Vector>::empty() + rows_hexagons(s.save().save(), 2, 2) =~= rows_hexagons(
        s.save().save(),
        2,
        2,
    ));
    assert(rows_hexagons(s.save().save(), 2, 2) + Seq::<Vector>::empty() =~= rows_hexagons(
        s.save().save(),
        2,
        2,
    ));
}

/// Captures and stamps extend no path.
pub proof fn lemma_traces_nothing(s: SurfaceState, ops: Seq<DrawOp>)
    requires
        forall|i: int| 0 <= i < ops.len() ==> moves_pixels(#[trigger] ops[i]),
    ensures
        traced(s, ops) == Seq::<Vector>::empty(),
    decreases ops.len(),
{
    if ops.len() > 0 {
        lemma_traces_nothing(s, ops.drop_last());
    }
}

/// The state in which a frame draws its grid: the base transform in force,
/// saved twice.
pub open spec fn grid_state() -> SurfaceState {
    (SurfaceState { current: base_transform(), saved: Seq::empty() }).save().save()
}

/// Whether the hexagon of flower `j` of the cell in column `x` of row `y` of
/// a frame holds the point `(px / q, py / q)`, in quarter edges across and
/// half heights down from the top left corner of the surface.
pub open spec fn flower_covers(x: int, y: int, j: int, px: int, py: int, q: int) -> bool {
    let pivot = flower_state(grid_state(), x, y, j).current.apply(Vector::of_steps(2, 1));
    in_hexagon(px - pivot.x * q, py - pivot.y * q, q)
}

/// The block is covered before it is stamped: every point of the rectangle
/// of `3 * d` by `2 * h` at the top left corner of the surface, which holds
/// the block of `3 * d` by `floor(2 * h)` pixels, lies in the hexagon of one
/// of the flowers that the frame draws.
pub proof fn lemma_block_is_covered(px: int, py: int, q: int)
    requires
        0 < q,
        0 <= px <= 12 * q,
        0 <= py <= 4 * q,
    ensures
        exists|x: int, y: int, j: int|
            0 <= x < 2 && 0 <= y < 2 && 0 <= j < 2 && #[trigger] flower_covers(x, y, j, px, py, q),
{
    let s = grid_state();
    reveal_with_fuel(Vector::turned_by, 1);
    assert(s.current.origin == (Vector { x: -2, y: -2 }) && s.current.turns == 0);
    lemma_flower_pivot(s, 0, 0, 0);
    lemma_flower_pivot(s, 0, 0, 1);
    lemma_flower_pivot(s, 1, 0, 0);
    lemma_flower_pivot(s, 0, 1, 0);
    lemma_flower_pivot(s, 1, 1, 0);
    assert(2 * q == 2 * q && 0 * q == 0) by (nonlinear_arith);
    let a = flower_state(s, 0, 0, 0).current.apply(Vector::of_steps(2, 1));
    let b = flower_state(s, 0, 0, 1).current.apply(Vector::of_steps(2, 1));
    let c = flower_state(s, 1, 0, 0).current.apply(Vector::of_steps(2, 1));
    let d = flower_state(s, 0, 1, 0).current.apply(Vector::of_steps(2, 1));
    let e = flower_state(s, 1, 1, 0).current.apply(Vector::of_steps(2, 1));
    assert(a.x * q == 2 * q && a.y * q == 0 && b.x * q == 8 * q && b.y * q == 2 * q && c.x * q
        == 14 * q && c.y * q == 0 && d.x * q == 2 * q && d.y * q == 4 * q && e.x * q == 14 * q
        && e.y * q == 4 * q) by (nonlinear_arith)
        requires
            a == (Vector { x: 2, y: 0 }),
            b == (Vector { x: 8, y: 2 }),
            c == (Vector { x: 14, y: 0 }),
            d == (Vector { x: 2, y: 4 }),
            e == (Vector { x: 14, y: 4 }),
    ;
    assert(flower_covers(0, 0, 0, px, py, q) || flower_covers(0, 0, 1, px, py, q) || flower_covers(
        1,
        0,
        0,
        px,
        py,
        q,
    ) || flower_covers(0, 1, 0, px, py, q) || flower_covers(1, 1, 0, px, py, q));
}

/// No drift after a failure: wherever the drawing of a frame is broken off,
/// once the saves still open are restored the surface is in the state the
/// frame started from, the transform in force included.
pub proof fn lemma_frame_unwinds(
    s: SurfaceState,
    unit: TriangleUnit,
    width: int,
    height: int,
    done: int,
)
    requires
        0 <= done <= frame_ops(unit, width, height).len(),
    ensures
        unwound(
            run(s, frame_ops(unit, width, height).take(done)),
            open_saves(frame_ops(unit, width, height).take(done)),
        ) == s,
{
    let clear = seq![DrawOp::Clear];
    let grid = col_ops(GRID as int);
    let bracket = seq![DrawOp::Save] + grid + seq![DrawOp::Restore];
    let pass = tile_ops(unit, width, height);
    let ops = frame_ops(unit, width, height);
    assert(ops =~= clear + bracket + pass);
    assert(clear =~= Seq::<DrawOp>::empty().push(DrawOp::Clear));
    lemma_run_push(s, Seq::empty(), DrawOp::Clear);
    lemma_own_saves_push(Seq::empty(), DrawOp::Clear);
    lemma_col_own_saves(GRID as int);
    if done == 0 {
        assert(ops.take(0) =~= Seq::<DrawOp>::empty());
    } else if done <= 1 + bracket.len() {
        let part = bracket.take(done - 1);
        assert(ops.take(done) =~= clear + part);
        lemma_bracket_unwinds(s, grid, done - 1);
        lemma_restores_own_saves_prefix(bracket, done - 1);
        lemma_own_saves_concat(clear, part);
        lemma_run_concat(s, clear, part);
    } else {
        let part = pass.take(done - 1 - bracket.len());
        assert(ops.take(done) =~= clear + bracket + part);
        lemma_bracket_unwinds(s, grid, bracket.len() as int);
        assert(bracket.take(bracket.len() as int) =~= bracket);
        lemma_own_saves_concat(clear, bracket);
        lemma_run_concat(s, clear, bracket);
        lemma_pixel_ops_keep_state(s, part);
        lemma_own_saves_without(part);
        lemma_own_saves_concat(clear + bracket, part);
        lemma_run_concat(s, clear + bracket, part);
    }
}

/// The surface that the kaleidoscope is drawn on, with the scale of its
/// motif.
pub struct Kaleidoscope {
    ctx: Canvas,
    unit: TriangleUnit,
}

impl Kaleidoscope {
    /// The recording surface.
    pub closed spec fn canvas(&self) -> Canvas {
        self.ctx
    }

    /// The scale of the motif.
    pub closed spec fn unit(&self) -> TriangleUnit {
        self.unit
    }

    /// The motif has a valid scale, and the surface is in the state that
    /// every frame starts from: nothing saved, the base transform in force.
    /// What is pending restores only its own saves.
    pub open spec fn wf(&self) -> bool {
        &&& self.unit().wf()
        &&& self.canvas().state() == (SurfaceState {
            current: base_transform(),
            saved: Seq::empty(),
        })
        &&& restores_own_saves(self.canvas().pending())
        &&& open_saves(self.canvas().pending()) == 0
    }

    /// A surface of `width` by `height` pixels for a motif of edge
    /// [`PAT_DIM`], with the move to the base transform recorded.
    pub fn new(width: u32, height: u32) -> (kal: Kaleidoscope)
        ensures
            kal.wf(),
            kal.unit().spec_edge() == PAT_DIM,
            kal.canvas().spec_width() == width,
            kal.canvas().spec_height() == height,
            kal.canvas().base() == SurfaceState::initial(),
            kal.canvas().pending() == seq![DrawOp::Translate { dx: -1i64, dy: -1i64 }],
    {
        let unit = TriangleUnit::new(PAT_DIM).unwrap();
        let mut ctx = Canvas::new(width, height);
        ctx.translate(-1, -1);
        proof {
            assert(ctx.pending() =~= seq![DrawOp::Translate { dx: -1i64, dy: -1i64 }]);
            assert(ctx.state().saved =~= Seq::<Transform>::empty());
            lemma_own_saves_push(Seq::empty(), DrawOp::Translate { dx: -1i64, dy: -1i64 });
            assert(ctx.pending() =~= Seq::<DrawOp>::empty().push(
                DrawOp::Translate { dx: -1i64, dy: -1i64 },
            ));
        }
        Kaleidoscope { ctx, unit }
    }

    /// The motif's scale.
    pub fn triangle_unit(&self) -> (unit: TriangleUnit)
        ensures
            unit == self.unit(),
    {
        self.unit
    }

    /// Width of the surface, in pixels.
    pub fn width(&self) -> (w: u32)
        ensures
            w == self.canvas().spec_width(),
    {
        self.ctx.width()
    }

    /// Height of the surface, in pixels.
    pub fn height(&self) -> (h: u32)
        ensures
            h == self.canvas().spec_height(),
    {
        self.ctx.height()
    }

    /// Records the clearing of the surface.
    pub fn clear(&mut self)
        ensures
            old(self).wf() ==> final(self).wf(),
            final(self).unit() == old(self).unit(),
            final(self).canvas().extends(&old(self).canvas(), seq![DrawOp::Clear]),
            final(self).canvas().state() == old(self).canvas().state(),
    {
        proof {
            lemma_own_saves_push(self.ctx.pending(), DrawOp::Clear);
            assert(self.ctx.pending() + seq![DrawOp::Clear] =~= self.ctx.pending().push(
                DrawOp::Clear,
            ));
        }
        self.ctx.record(DrawOp::Clear);
    }

    /// Records one frame: exactly [`frame_ops`]. The surface is back at the
    /// base transform with nothing saved when the frame is done.
    pub fn frame(&mut self)
        requires
            old(self).wf(),
        ensures
            final(self).wf(),
            final(self).unit() == old(self).unit(),
            final(self).canvas().extends(
                &old(self).canvas(),
                frame_ops(
                    old(self).unit(),
                    old(self).canvas().spec_width(),
                    old(self).canvas().spec_height(),
                ),
            ),
    {
        let ghost before = self.ctx;
        let ghost width = self.ctx.spec_width();
        let ghost height = self.ctx.spec_height();
        self.clear();
        self.ctx.save();
        col(&mut self.ctx, GRID);
        self.ctx.restore();
        tile(&mut self.ctx, &self.unit);
        proof {
            let ops = frame_ops(self.unit, width, height);
            assert(self.ctx.pending() =~= before.pending() + ops);
            self.ctx.lemma_state_after(&before, ops);
            lemma_frame_restores_state(before.state(), self.unit, width, height);
            lemma_frame_own_saves(self.unit, width, height);
            lemma_own_saves_concat(before.pending(), ops);
        }
    }

    /// Renders one frame and reads the whole surface back. Hands out
    /// everything recorded since the last hand-out: what was pending on entry,
    /// then [`frame_ops`], then the capture of the whole surface, which leaves
    /// a buffer of exactly `width` by `height` samples as the held buffer.
    pub fn get_frame(&mut self) -> (ops: Vec<DrawOp>)
        requires
            old(self).wf(),
        ensures
            final(self).wf(),
            final(self).unit() == old(self).unit(),
            final(self).canvas().spec_width() == old(self).canvas().spec_width(),
            final(self).canvas().spec_height() == old(self).canvas().spec_height(),
            final(self).canvas().pending() == Seq::<DrawOp>::empty(),
            ops@ == old(self).canvas().pending() + frame_ops(
                old(self).unit(),
                old(self).canvas().spec_width(),
                old(self).canvas().spec_height(),
            ) + seq![
                whole_surface(old(self).canvas().spec_width(), old(self).canvas().spec_height()),
            ],
            restores_own_saves(ops@),
            open_saves(ops@) == 0,
    {
        self.frame();
        let width: u32 = self.ctx.width();
        let height: u32 = self.ctx.height();
        proof {
            lemma_own_saves_push(
                self.ctx.pending(),
                DrawOp::Capture { left: 0, top: 0, width, height },
            );
            assert(self.ctx.pending() + seq![DrawOp::Capture { left: 0, top: 0, width, height }]
                =~= self.ctx.pending().push(DrawOp::Capture { left: 0, top: 0, width, height }));
        }
        self.ctx.record(DrawOp::Capture { left: 0, top: 0, width, height });
        self.ctx.take_ops()
    }

    /// Makes the pattern source the fill style, then renders and reads back
    /// one frame as [`Kaleidoscope::get_frame`] does.
    pub fn get_update_frame(&mut self) -> (ops: Vec<DrawOp>)
        requires
            old(self).wf(),
        ensures
            final(self).wf(),
            final(self).unit() == old(self).unit(),
            final(self).canvas().spec_width() == old(self).canvas().spec_width(),
            final(self).canvas().spec_height() == old(self).canvas().spec_height(),
            final(self).canvas().pending() == Seq::<DrawOp>::empty(),
            ops@ == old(self).canvas().pending() + seq![DrawOp::UsePattern] + frame_ops(
                old(self).unit(),
                old(self).canvas().spec_width(),
                old(self).canvas().spec_height(),
            ) + seq![
                whole_surface(old(self).canvas().spec_width(), old(self).canvas().spec_height()),
            ],
            restores_own_saves(ops@),
            open_saves(ops@) == 0,
    {
        proof {
            lemma_own_saves_push(self.ctx.pending(), DrawOp::UsePattern);
            assert(self.ctx.pending() + seq![DrawOp::UsePattern] =~= self.ctx.pending().push(
                DrawOp::UsePattern,
            ));
        }
        self.ctx.record(DrawOp::UsePattern);
        self.get_frame()
    }
}

} // verus!
