//! The tiling pass: one block of the rendered grid, stamped across the whole
//! surface.

use vstd::prelude::*;
use vstd::arithmetic::div_mod::{lemma_fundamental_div_mod, lemma_fundamental_div_mod_converse};
use crate::canvas::{lemma_own_saves_without, open_saves, restores_own_saves, run, Canvas, DrawOp};
use crate::error::RenderError;
use crate::geometry::{lemma_block_height_bounds, lemma_floor_sqrt_exists, TriangleUnit};
use crate::pixels::{PixelBuffer, Raster};
use crate::transform::SurfaceState;

verus! {

/// How many multiples of `step`, counted from zero, lie below `limit`.
pub open spec fn steps_below(limit: int, step: int) -> int {
    (limit + step - 1) / step
}

/// Stamps in one row of the tiling of a surface `width` pixels wide: one for
/// each multiple of the block width that lies below `width + d`.
pub open spec fn stamp_cols(unit: TriangleUnit, width: int) -> int {
    steps_below(width + unit.spec_edge(), unit.spec_block_width())
}

/// Rows of stamps in the tiling of a surface `height` pixels high: one for
/// each multiple of the block height that lies below `height + d`.
pub open spec fn stamp_rows(unit: TriangleUnit, height: int) -> int {
    steps_below(height + unit.spec_edge(), unit.spec_block_height())
}

/// The stamp number `n` of a tiling with `cols` stamps per row, counted row
/// by row.
pub open spec fn stamp_at(unit: TriangleUnit, cols: int, n: int) -> DrawOp {
    DrawOp::Stamp {
        px: (unit.spec_block_width() * (n % cols)) as u64,
        py: (unit.spec_block_height() * (n / cols)) as u64,
    }
}

/// The stamps that tile a surface of `width` by `height` pixels, row by row
/// from the top, left to right within a row.
pub open spec fn stamps(unit: TriangleUnit, width: int, height: int) -> Seq<DrawOp> {
    Seq::new(
        (stamp_rows(unit, height) * stamp_cols(unit, width)) as nat,
        |n: int| stamp_at(unit, stamp_cols(unit, width), n),
    )
}

/// The capture of the block at the top left corner of the surface.
pub open spec fn block_capture(unit: TriangleUnit) -> DrawOp {
    DrawOp::Capture {
        left: 0,
        top: 0,
        width: unit.spec_block_width() as u32,
        height: unit.spec_block_height() as u32,
    }
}

/// The tiling pass over a surface of `width` by `height` pixels: capture the
/// block, then stamp it everywhere.
pub open spec fn tile_ops(unit: TriangleUnit, width: int, height: int) -> Seq<DrawOp> {
    seq![block_capture(unit)] + stamps(unit, width, height)
}

/// Number of stamps per row and number of rows for a surface of `width` by
/// `height` pixels.
pub fn stamp_grid(unit: &TriangleUnit, width: u32, height: u32) -> (grid: (u64, u64))
    requires
        unit.wf(),
    ensures
        grid.0 == stamp_cols(*unit, width as int),
        grid.1 == stamp_rows(*unit, height as int),
        1 <= grid.0 <= 0x1_0000_0000,
        1 <= grid.1 <= 0x2_0000_0000,
{
    let d: u64 = unit.edge() as u64;
    let bw: u64 = unit.block_width() as u64;
    let bh: u64 = unit.block_height() as u64;
    let cols: u64 = (width as u64 + d + bw - 1) / bw;
    let rows: u64 = (height as u64 + d + bh - 1) / bh;
    proof {
        lemma_steps_below(width + d, bw as int, 0);
        lemma_steps_below(height + d, bh as int, 0);
        lemma_steps_below(width + d, bw as int, 0x1_0000_0000);
        lemma_steps_below(height + d, bh as int, 0x2_0000_0000);
        assert(0x1_0000_0000 * bw >= width + d) by (nonlinear_arith)
            requires
                bw == 3 * d,
                d >= 1,
                width <= 0xffff_ffff,
        ;
        assert(0x2_0000_0000 * bh >= height + d) by (nonlinear_arith)
            requires
                bh >= d,
                d >= 1,
                height <= 0xffff_ffff,
        ;
    }
    (cols, rows)
}

/// Tiles the surface with its own top left block: captures the block of
/// `3 * d` by `floor(2 * h)` pixels at the origin, then stamps it at every
/// position `(3 * k * d, i * floor(2 * h))` with `3 * k * d < width + d` and
/// `i * floor(2 * h) < height + d`. Records exactly [`tile_ops`]; the
/// transform state is not touched.
pub fn tile(ctx: &mut Canvas, unit: &TriangleUnit)
    requires
        unit.wf(),
    ensures
        final(ctx).extends(
            old(ctx),
            tile_ops(*unit, old(ctx).spec_width(), old(ctx).spec_height()),
        ),
        final(ctx).state() == old(ctx).state(),
        old(ctx).wf() ==> final(ctx).wf(),
{
    let bw: u32 = unit.block_width();
    let bh: u32 = unit.block_height();
    let (cols, rows) = stamp_grid(unit, ctx.width(), ctx.height());
    let ghost width = ctx.spec_width();
    let ghost height = ctx.spec_height();
    let ghost at = |n: int| stamp_at(*unit, cols as int, n);
    ctx.record(DrawOp::Capture { left: 0, top: 0, width: bw, height: bh });
    let ghost mut done: int = 0;
    let mut i: u64 = 0;
    while i < rows
        invariant
            unit.wf(),
            bw == unit.spec_block_width(),
            bh == unit.spec_block_height(),
            cols == stamp_cols(*unit, width),
            rows == stamp_rows(*unit, height),
            0 <= width <= u32::MAX,
            0 <= height <= u32::MAX,
            1 <= cols,
            1 <= bw,
            1 <= bh,
            i <= rows,
            done == i * cols,
            at == |n: int| stamp_at(*unit, cols as int, n),
            ctx.extends(old(ctx), seq![block_capture(*unit)] + Seq::new(done as nat, at)),
        decreases rows - i,
    {
        proof {
            lemma_steps_below(height + unit.spec_edge(), bh as int, i as int);
            assert(bh * i == i * bh) by (nonlinear_arith);
        }
        let py: u64 = bh as u64 * i;
        let mut k: u64 = 0;
        while k < cols
            invariant
                unit.wf(),
                bw == unit.spec_block_width(),
                bh == unit.spec_block_height(),
                cols == stamp_cols(*unit, width),
                0 <= width <= u32::MAX,
                1 <= cols,
                1 <= bw,
                k <= cols,
                i < rows,
                py == bh * i,
                done == i * cols + k,
                at == |n: int| stamp_at(*unit, cols as int, n),
                ctx.extends(old(ctx), seq![block_capture(*unit)] + Seq::new(done as nat, at)),
            decreases cols - k,
        {
            proof {
                lemma_steps_below(width + unit.spec_edge(), bw as int, k as int);
                assert(bw * k == k * bw) by (nonlinear_arith);
                assert(0 <= i * cols) by (nonlinear_arith)
                    requires
                        0 <= i,
                        0 <= cols,
                ;
                lemma_fundamental_div_mod_converse(done, cols as int, i as int, k as int);
            }
            let px: u64 = bw as u64 * k;
            ctx.record(DrawOp::Stamp { px, py });
            proof {
                assert(DrawOp::Stamp { px, py } == at(done));
                assert(Seq::new((done + 1) as nat, at) =~= Seq::new(done as nat, at).push(
                    at(done),
                ));
                assert(ctx.pending() =~= old(ctx).pending() + (seq![block_capture(*unit)]
                    + Seq::new((done + 1) as nat, at)));
                done = done + 1;
            }
            k += 1;
        }
        proof {
            assert(i * cols + cols == (i + 1) * cols) by (nonlinear_arith);
        }
        i += 1;
    }
    proof {
        let ops = tile_ops(*unit, width, height);
        assert(Seq::new(done as nat, at) =~= stamps(*unit, width, height));
        ctx.lemma_state_after(old(ctx), ops);
        lemma_tile_keeps_state(old(ctx).state(), *unit, width, height);
    }
}

/// The pixels of a surface and the buffer that was read back last.
pub struct PixelState {
    pub surface: Raster,
    pub held: Option<Raster>,
}

/// What one operation does to the pixels: a capture reads a rectangle into
/// the held buffer, a stamp writes the held buffer, if there is one, onto the
/// surface. What drawing does to the pixels is the surface's own matter and is
/// not modelled: the other operations leave the state as it is.
pub open spec fn paint(s: PixelState, op: DrawOp) -> PixelState {
    match op {
        DrawOp::Capture { left, top, width, height } => PixelState {
            surface: s.surface,
            held: Some(s.surface.captured(left as int, top as int, width as int, height as int)),
        },
        DrawOp::Stamp { px, py } => match s.held {
            Some(block) => PixelState {
                surface: s.surface.stamped(block, px as int, py as int),
                held: s.held,
            },
            None => s,
        },
        _ => s,
    }
}

/// The pixels after all of `ops`, first to last.
pub open spec fn painted(s: PixelState, ops: Seq<DrawOp>) -> PixelState
    decreases ops.len(),
{
    if ops.len() == 0 {
        s
    } else {
        paint(painted(s, ops.drop_last()), ops.last())
    }
}

/// The state of a surface that shows `surface` and holds no buffer yet.
pub open spec fn fresh(surface: Raster) -> PixelState {
    PixelState { surface, held: None }
}

/// Whether a buffer can hold what `op` reads back: every capture is of a
/// rectangle that is not empty and has at most `u32::MAX` samples.
pub open spec fn capture_fits(op: DrawOp) -> bool {
    op matches DrawOp::Capture { width, height, .. } ==> width > 0 && height > 0 && width
        * height <= u32::MAX
}

/// Whether every capture in `ops` fits.
pub open spec fn captures_fit(ops: Seq<DrawOp>) -> bool {
    forall|i: int| 0 <= i < ops.len() ==> capture_fits(#[trigger] ops[i])
}

/// `after` shows the block of `bw` by `bh` pixels at the top left corner of
/// `before`, repeated over its whole area: same size, and every sample is the
/// one of `before` at the same place within the block.
pub open spec fn is_tiling_of(after: Raster, before: Raster, bw: int, bh: int) -> bool {
    &&& after.width == before.width
    &&& after.height == before.height
    &&& forall|x: int, y: int|
        after.contains(x, y) ==> #[trigger] after.pixel(x, y) == before.pixel(x % bw, y % bh)
}

/// Carries out the captures and stamps of `ops` on an in-memory surface, in
/// order; the other operations are passed over. The pass fails, before it
/// touches the surface, exactly when some capture does not fit.
pub fn replay_pixels(surface: &mut PixelBuffer, ops: &Vec<DrawOp>) -> (done: Result<
    (),
    RenderError,
>)
    requires
        old(surface).wf(),
    ensures
        final(surface).wf(),
        done is Ok <==> captures_fit(ops@),
        done is Ok ==> final(surface)@ == painted(fresh(old(surface)@), ops@).surface,
        done matches Err(e) ==> e == RenderError::PixelIo && *final(surface) == *old(surface),
{
    let mut n: usize = 0;
    while n < ops.len()
        invariant
            n <= ops.len(),
            surface.wf(),
            *surface == *old(surface),
            forall|i: int| 0 <= i < n ==> capture_fits(#[trigger] ops@[i]),
        decreases ops.len() - n,
    {
        match ops[n] {
            DrawOp::Capture { left, top, width, height } => {
                assert(width * height <= 0xffff_ffff * 0xffff_ffff) by (nonlinear_arith)
                    requires
                        0 <= width <= 0xffff_ffff,
                        0 <= height <= 0xffff_ffff,
                ;
                if width == 0 || height == 0 || width as u64 * height as u64 > u32::MAX as u64 {
                    assert(!capture_fits(ops@[n as int]));
                    return Err(RenderError::PixelIo);
                }
            },
            _ => {},
        }
        n += 1;
    }
    let mut held: Option<PixelBuffer> = None;
    let mut i: usize = 0;
    while i < ops.len()
        invariant
            i <= ops.len(),
            captures_fit(ops@),
            surface.wf(),
            surface@ == painted(fresh(old(surface)@), ops@.take(i as int)).surface,
            held is Some <==> painted(fresh(old(surface)@), ops@.take(i as int)).held is Some,
            held matches Some(b) ==> b.wf() && Some(b@) == painted(
                fresh(old(surface)@),
                ops@.take(i as int),
            ).held,
        decreases ops.len() - i,
    {
        proof {
            assert(ops@.take(i + 1).drop_last() =~= ops@.take(i as int));
            assert(ops@.take(i + 1).last() == ops@[i as int]);
            assert(capture_fits(ops@[i as int]));
        }
        match ops[i] {
            DrawOp::Capture { left, top, width, height } => {
                held = surface.capture(left, top, width, height);
            },
            DrawOp::Stamp { px, py } => {
                match &held {
                    Some(block) => {
                        surface.stamp(block, px, py);
                    },
                    None => {},
                }
            },
            _ => {},
        }
        i += 1;
    }
    proof {
        assert(ops@.take(ops.len() as int) =~= ops@);
    }
    Ok(())
}

/// Tiles an in-memory surface with its own top left block: carries out what
/// [`tile`] records for a surface of this size. On success every sample of
/// the surface is the one that was at the same place within the block. The
/// pass fails, and leaves the surface untouched, exactly when the block
/// holds more than `u32::MAX` samples.
pub fn tile_pixels(surface: &mut PixelBuffer, unit: &TriangleUnit) -> (done: Result<
    (),
    RenderError,
>)
    requires
        old(surface).wf(),
        unit.wf(),
    ensures
        final(surface).wf(),
        done is Ok <==> unit.spec_block_width() * unit.spec_block_height() <= u32::MAX,
        done is Ok ==> final(surface)@ == painted(
            fresh(old(surface)@),
            tile_ops(*unit, old(surface).spec_width(), old(surface).spec_height()),
        ).surface,
        done is Ok ==> is_tiling_of(
            final(surface)@,
            old(surface)@,
            unit.spec_block_width(),
            unit.spec_block_height(),
        ),
        done matches Err(e) ==> e == RenderError::PixelIo && *final(surface) == *old(surface),
{
    let width: u32 = surface.width();
    let height: u32 = surface.height();
    let mut record = Canvas::new(width, height);
    tile(&mut record, unit);
    let ops: Vec<DrawOp> = record.take_ops();
    proof {
        let pass = tile_ops(*unit, width as int, height as int);
        assert(ops@ =~= pass);
        lemma_tile_captures_fit(*unit, width as int, height as int);
        surface.lemma_view();
        lemma_tile_ops_tile(*unit, surface@);
    }
    replay_pixels(surface, &ops)
}

/// [`steps_below`] counts what it says: the multiple number `k` lies below
/// the limit exactly when `k` is below the count.
pub proof fn lemma_steps_below(limit: int, step: int, k: int)
    requires
        0 <= limit,
        0 < step,
    ensures
        k < steps_below(limit, step) <==> k * step < limit,
{
    let q = steps_below(limit, step);
    lemma_fundamental_div_mod(limit + step - 1, step);
    let r = (limit + step - 1) % step;
    assert(k < q ==> k * step < limit) by (nonlinear_arith)
        requires
            limit + step - 1 == step * q + r,
            0 <= r < step,
    ;
    assert(k * step < limit ==> k < q) by (nonlinear_arith)
        requires
            limit + step - 1 == step * q + r,
            0 <= r < step,
    ;
}

/// The stamps are those of the grid: there is one at `(3 * k * d, i *
/// floor(2 * h))` for every `k` and `i` from zero on with `3 * k * d <
/// width + d` and `i * floor(2 * h) < height + d`, and it is the stamp number
/// `i * cols + k`.
pub proof fn lemma_stamps_are_the_grid(unit: TriangleUnit, width: int, height: int, k: int, i: int)
    requires
        unit.wf(),
        0 <= width,
        0 <= height,
        0 <= k,
        0 <= i,
    ensures
        (k < stamp_cols(unit, width) && i < stamp_rows(unit, height)) <==> (3 * k
            * unit.spec_edge() < width + unit.spec_edge() && i * unit.spec_block_height() < height
            + unit.spec_edge()),
        k < stamp_cols(unit, width) && i < stamp_rows(unit, height) ==> {
            let n = i * stamp_cols(unit, width) + k;
            &&& 0 <= n < stamps(unit, width, height).len()
            &&& stamps(unit, width, height)[n] == DrawOp::Stamp {
                px: (3 * k * unit.spec_edge()) as u64,
                py: (i * unit.spec_block_height()) as u64,
            }
        },
{
    let d = unit.spec_edge();
    let bw = unit.spec_block_width();
    let bh = unit.spec_block_height();
    let cols = stamp_cols(unit, width);
    let rows = stamp_rows(unit, height);
    lemma_floor_sqrt_exists(3 * d * d);
    lemma_block_height_bounds(bh, d);
    lemma_steps_below(width + d, bw, k);
    lemma_steps_below(height + d, bh, i);
    assert(k * bw == 3 * k * d) by (nonlinear_arith)
        requires
            bw == 3 * d,
    ;
    if k < cols && i < rows {
        let n = i * cols + k;
        assert(0 <= i * cols && n < rows * cols) by (nonlinear_arith)
            requires
                0 <= i < rows,
                0 <= k < cols,
                n == i * cols + k,
        ;
        lemma_fundamental_div_mod_converse(n, cols, i, k);
        assert(bw * k == 3 * k * d && bh * i == i * bh) by (nonlinear_arith)
            requires
                bw == 3 * d,
        ;
    }
}

/// Whether `op` is a capture or a stamp.
pub open spec fn moves_pixels(op: DrawOp) -> bool {
    op is Capture || op is Stamp
}

/// Captures and stamps leave the transform state alone.
pub proof fn lemma_pixel_ops_keep_state(s: SurfaceState, ops: Seq<DrawOp>)
    requires
        forall|i: int| 0 <= i < ops.len() ==> moves_pixels(#[trigger] ops[i]),
    ensures
        run(s, ops) == s,
    decreases ops.len(),
{
    if ops.len() > 0 {
        lemma_pixel_ops_keep_state(s, ops.drop_last());
    }
}

/// The tiling pass moves pixels only: it leaves the transform state alone,
/// and it neither saves nor restores.
pub proof fn lemma_tile_keeps_state(s: SurfaceState, unit: TriangleUnit, width: int, height: int)
    ensures
        run(s, tile_ops(unit, width, height)) == s,
        restores_own_saves(tile_ops(unit, width, height)),
        open_saves(tile_ops(unit, width, height)) == 0,
{
    lemma_pixel_ops_keep_state(s, tile_ops(unit, width, height));
    lemma_own_saves_without(tile_ops(unit, width, height));
}

/// The only capture of the tiling pass is that of the block, which fits
/// exactly when the block has at most `u32::MAX` samples.
pub proof fn lemma_tile_captures_fit(unit: TriangleUnit, width: int, height: int)
    requires
        unit.wf(),
    ensures
        captures_fit(tile_ops(unit, width, height)) <==> unit.spec_block_width()
            * unit.spec_block_height() <= u32::MAX,
{
    let d = unit.spec_edge();
    let ops = tile_ops(unit, width, height);
    lemma_floor_sqrt_exists(3 * d * d);
    lemma_block_height_bounds(unit.spec_block_height(), d);
    assert(ops[0] == block_capture(unit));
    if unit.spec_block_width() * unit.spec_block_height() <= u32::MAX {
        assert forall|i: int| 0 <= i < ops.len() implies capture_fits(#[trigger] ops[i]) by {
            if i > 0 {
                assert(ops[i] == stamps(unit, width, height)[i - 1]);
            }
        }
    } else {
        assert(!capture_fits(ops[0]));
    }
}

/// The surface `s` with its block repeated over the first `rows` rows of
/// stamps and over the first `cols` stamps of the row after them.
pub open spec fn tiled_to(s: Raster, bw: int, bh: int, rows: int, cols: int) -> Raster {
    Raster::of(
        s.width,
        s.height,
        |x: int, y: int|
            if y < rows * bh || (y < (rows + 1) * bh && x < cols * bw) {
                s.pixel(x % bw, y % bh)
            } else {
                s.pixel(x, y)
            },
    )
}

/// One more stamp of the block extends the tiled area by one block: to the
/// right, or, where the row is full, to the start of the next row.
pub proof fn lemma_stamp_extends_tiling(s: Raster, bw: int, bh: int, i: int, k: int, cols: int)
    requires
        0 < bw,
        0 < bh,
        0 <= i,
        0 <= k < cols,
        s.width <= cols * bw,
    ensures
        tiled_to(s, bw, bh, i, k).stamped(s.captured(0, 0, bw, bh), bw * k, bh * i) == (if k + 1
            < cols {
            tiled_to(s, bw, bh, i, k + 1)
        } else {
            tiled_to(s, bw, bh, i + 1, 0)
        }),
{
    let block = s.captured(0, 0, bw, bh);
    let before = tiled_to(s, bw, bh, i, k);
    let after = before.stamped(block, bw * k, bh * i);
    let target = if k + 1 < cols {
        tiled_to(s, bw, bh, i, k + 1)
    } else {
        tiled_to(s, bw, bh, i + 1, 0)
    };
    assert((k + 1) * bw == k * bw + bw && bw * k == k * bw && 0 * bw == 0) by (nonlinear_arith);
    assert((i + 1) * bh == i * bh + bh && bh * i == i * bh && (i + 2) * bh == i * bh + 2 * bh)
        by (nonlinear_arith);
    assert forall|p: (int, int)| after.samples.dom().contains(p) implies #[trigger] after.samples[p]
        == target.samples[p] by {
        let x = p.0;
        let y = p.1;
        if block.contains(x - bw * k, y - bh * i) {
            lemma_fundamental_div_mod_converse(x, bw, k, x - bw * k);
            lemma_fundamental_div_mod_converse(y, bh, i, y - bh * i);
            assert(block.pixel(x - bw * k, y - bh * i) == s.pixel(
                0 + (x - bw * k),
                0 + (y - bh * i),
            ));
        } else {
            assert(after.samples[p] == before.pixel(x, y));
        }
    }
    assert(after.samples =~= target.samples);
}

/// After the capture of the block and the first `n` stamps the surface is
/// tiled up to stamp `n`, and the block is still held.
pub proof fn lemma_stamps_tile(unit: TriangleUnit, s: Raster, n: int)
    requires
        unit.wf(),
        s.wf(),
        0 <= s.width <= u32::MAX,
        0 <= s.height <= u32::MAX,
        0 <= n <= stamps(unit, s.width, s.height).len(),
    ensures
        painted(
            PixelState {
                surface: s,
                held: Some(s.captured(0, 0, unit.spec_block_width(), unit.spec_block_height())),
            },
            stamps(unit, s.width, s.height).take(n),
        ) == (PixelState {
            surface: tiled_to(
                s,
                unit.spec_block_width(),
                unit.spec_block_height(),
                n / stamp_cols(unit, s.width),
                n % stamp_cols(unit, s.width),
            ),
            held: Some(s.captured(0, 0, unit.spec_block_width(), unit.spec_block_height())),
        }),
    decreases n,
{
    let d = unit.spec_edge();
    let bw = unit.spec_block_width();
    let bh = unit.spec_block_height();
    let cols = stamp_cols(unit, s.width);
    let rows = stamp_rows(unit, s.height);
    let all = stamps(unit, s.width, s.height);
    lemma_floor_sqrt_exists(3 * d * d);
    lemma_block_height_bounds(bh, d);
    lemma_steps_below(s.width + d, bw, 0);
    lemma_steps_below(s.width + d, bw, cols);
    assert(cols * bw == bw * cols) by (nonlinear_arith);
    if n == 0 {
        assert(0int / cols == 0 && 0int % cols == 0) by {
            lemma_fundamental_div_mod_converse(0, cols, 0, 0);
        }
        assert(0 * bh == 0 && 0 * bw == 0 && (0 + 1) * bh == bh) by (nonlinear_arith);
        assert(tiled_to(s, bw, bh, 0, 0).samples =~= s.samples);
    } else {
        let m = n - 1;
        let i = m / cols;
        let k = m % cols;
        lemma_stamps_tile(unit, s, m);
        lemma_fundamental_div_mod(m, cols);
        assert(0 <= i) by (nonlinear_arith)
            requires
                m == cols * i + k,
                0 <= k < cols,
                0 <= m,
        ;
        assert(i < rows) by (nonlinear_arith)
            requires
                m == cols * i + k,
                0 <= k < cols,
                m < rows * cols,
        ;
        assert(all.take(n).drop_last() =~= all.take(m));
        assert(all.take(n).last() == stamp_at(unit, cols, m));
        lemma_steps_below(s.width + d, bw, k);
        lemma_steps_below(s.height + d, bh, i);
        assert(bw * k == k * bw && bh * i == i * bh) by (nonlinear_arith);
        lemma_stamp_extends_tiling(s, bw, bh, i, k, cols);
        if k + 1 < cols {
            assert(n == i * cols + (k + 1)) by (nonlinear_arith)
                requires
                    m == cols * i + k,
                    n == m + 1,
            ;
            lemma_fundamental_div_mod_converse(n, cols, i, k + 1);
        } else {
            assert(n == (i + 1) * cols + 0) by (nonlinear_arith)
                requires
                    m == cols * i + k,
                    n == m + 1,
                    k + 1 == cols,
            ;
            lemma_fundamental_div_mod_converse(n, cols, i + 1, 0);
        }
    }
}

/// What the tiling pass does to the pixels: whatever a surface shows, once
/// the operations of [`tile_ops`] for its size are carried out it shows its
/// own top left block, repeated over its whole area.
pub proof fn lemma_tile_ops_tile(unit: TriangleUnit, s: Raster)
    requires
        unit.wf(),
        s.wf(),
        0 <= s.width <= u32::MAX,
        0 <= s.height <= u32::MAX,
    ensures
        is_tiling_of(
            painted(fresh(s), tile_ops(unit, s.width, s.height)).surface,
            s,
            unit.spec_block_width(),
            unit.spec_block_height(),
        ),
{
    let d = unit.spec_edge();
    let bw = unit.spec_block_width();
    let bh = unit.spec_block_height();
    let cols = stamp_cols(unit, s.width);
    let rows = stamp_rows(unit, s.height);
    let all = stamps(unit, s.width, s.height);
    let block = s.captured(0, 0, bw, bh);
    let ready = PixelState { surface: s, held: Some(block) };
    lemma_floor_sqrt_exists(3 * d * d);
    lemma_block_height_bounds(bh, d);
    lemma_steps_below(s.width + d, bw, 0);
    lemma_steps_below(s.height + d, bh, 0);
    lemma_steps_below(s.height + d, bh, rows);
    assert(0 <= rows * cols) by (nonlinear_arith)
        requires
            0 < rows,
            0 < cols,
    ;
    assert(painted(fresh(s), seq![block_capture(unit)]) == ready) by {
        assert(seq![block_capture(unit)].drop_last() =~= Seq::<DrawOp>::empty());
        reveal_with_fuel(painted, 2);
    }
    lemma_painted_concat(fresh(s), seq![block_capture(unit)], all);
    lemma_stamps_tile(unit, s, rows * cols);
    assert(all.take(rows * cols) =~= all);
    lemma_fundamental_div_mod_converse(rows * cols, cols, rows, 0);
    let after = painted(fresh(s), tile_ops(unit, s.width, s.height)).surface;
    assert(after == tiled_to(s, bw, bh, rows, 0));
    assert forall|x: int, y: int| after.contains(x, y) implies #[trigger] after.pixel(x, y)
        == s.pixel(x % bw, y % bh) by {
        assert(after.samples.dom().contains((x, y)));
    }
}

/// Painting a concatenation is painting its parts in turn.
pub proof fn lemma_painted_concat(s: PixelState, first: Seq<DrawOp>, second: Seq<DrawOp>)
    ensures
        painted(s, first + second) == painted(painted(s, first), second),
    decreases second.len(),
{
    if second.len() == 0 {
        assert(first + second =~= first);
    } else {
        lemma_painted_concat(s, first, second.drop_last());
        assert((first + second).drop_last() =~= first + second.drop_last());
        assert((first + second).last() == second.last());
    }
}

/// A tiled surface repeats with the period of the block, across and down: no
/// stamp differs from its neighbour. In particular the two pixel columns that
/// meet at the boundary between any two stamps are the last and the first
/// column of the block.
pub proof fn lemma_tiling_repeats(after: Raster, before: Raster, bw: int, bh: int, x: int, y: int)
    requires
        0 < bw,
        0 < bh,
        is_tiling_of(after, before, bw, bh),
        after.contains(x, y),
    ensures
        after.contains(x + bw, y) ==> after.pixel(x + bw, y) == after.pixel(x, y),
        after.contains(x, y + bh) ==> after.pixel(x, y + bh) == after.pixel(x, y),
        x % bw == 0 ==> after.pixel(x, y) == before.pixel(0, y % bh),
        x % bw == 0 && x > 0 ==> after.pixel(x - 1, y) == before.pixel(bw - 1, y % bh),
{
    lemma_fundamental_div_mod(x, bw);
    lemma_fundamental_div_mod(y, bh);
    assert((x / bw + 1) * bw == bw * (x / bw) + bw) by (nonlinear_arith);
    lemma_fundamental_div_mod_converse(x + bw, bw, x / bw + 1, x % bw);
    assert((y / bh + 1) * bh == bh * (y / bh) + bh) by (nonlinear_arith);
    lemma_fundamental_div_mod_converse(y + bh, bh, y / bh + 1, y % bh);
    if x % bw == 0 && x > 0 {
        assert((x / bw - 1) * bw == bw * (x / bw) - bw) by (nonlinear_arith);
        lemma_fundamental_div_mod_converse(x - 1, bw, x / bw - 1, bw - 1);
        assert(after.contains(x - 1, y));
    }
    if after.contains(x + bw, y) {
        assert(after.pixel(x + bw, y) == before.pixel((x + bw) % bw, y % bh));
    }
    if after.contains(x, y + bh) {
        assert(after.pixel(x, y + bh) == before.pixel(x % bw, (y + bh) % bh));
    }
}

/// Where the last column of the block shows what its first column shows, no
/// boundary between two stamps shows a seam: the column left of the boundary
/// and the column right of it are the same, row by row.
pub proof fn lemma_no_seam(after: Raster, before: Raster, bw: int, bh: int, x: int, y: int)
    requires
        0 < bw,
        0 < bh,
        is_tiling_of(after, before, bw, bh),
        forall|row: int| 0 <= row < bh ==> before.pixel(bw - 1, row) == before.pixel(0, row),
        after.contains(x, y),
        x > 0,
        x % bw == 0,
    ensures
        after.pixel(x - 1, y) == after.pixel(x, y),
{
    lemma_tiling_repeats(after, before, bw, bh, x, y);
    assert(0 <= y % bh < bh);
}

} // verus!
