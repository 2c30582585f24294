use kaleidoscope::canvas::{Canvas, DrawOp};
use kaleidoscope::grid::{col, placed_flower};
use kaleidoscope::tiling::{replay_pixels, stamp_grid, tile, tile_pixels};
use kaleidoscope::error::RenderError;
use kaleidoscope::geometry::TriangleUnit;
use kaleidoscope::motif::flower;
use kaleidoscope::pixels::PixelBuffer;

/// Origin `(e, f)` of a 2D context after `ops` that hold no rotation outside
/// flowers, for an edge of `d` pixels, with the count of open saves.
fn origin_after(ops: &[DrawOp], d: f64) -> (f64, f64, usize) {
    let h = 3.0f64.sqrt() / 2.0 * d;
    let mut turns = 0usize;
    let mut at = (0.0f64, 0.0f64);
    let mut saved: Vec<(usize, (f64, f64))> = Vec::new();
    for op in ops {
        match *op {
            DrawOp::Save => saved.push((turns, at)),
            DrawOp::Restore => {
                if let Some(top) = saved.pop() {
                    (turns, at) = top;
                }
            }
            DrawOp::Translate { dx, dy } => {
                let (sin, cos) = (turns as f64 * std::f64::consts::PI / 3.0).sin_cos();
                let (tx, ty) = (dx as f64 * d / 2.0, dy as f64 * h);
                at = (at.0 + tx * cos - ty * sin, at.1 + tx * sin + ty * cos);
            }
            DrawOp::RotateSixth => turns = (turns + 1) % 6,
            _ => {}
        }
    }
    (at.0, at.1, saved.len())
}

fn flower_ops() -> Vec<DrawOp> {
    let mut ctx = Canvas::new(1, 1);
    ctx.translate(2, 1);
    flower(&mut ctx);
    ctx.translate(-2, -1);
    ctx.take_ops()
}

fn grid_ops(count: i32) -> Vec<DrawOp> {
    let mut ctx = Canvas::new(1, 1);
    col(&mut ctx, count);
    ctx.take_ops()
}

fn tile_ops(d: u32, width: u32, height: u32) -> Vec<DrawOp> {
    let mut ctx = Canvas::new(width, height);
    tile(&mut ctx, &TriangleUnit::new(d).unwrap());
    ctx.take_ops()
}

fn checkered(width: u32, height: u32) -> PixelBuffer {
    let mut buffer = PixelBuffer::new(width, height).unwrap();
    for y in 0..height {
        for x in 0..width {
            buffer.set(x as u64, y as u64, ((x * 31 + y * 17) << 8) | 0xff);
        }
    }
    buffer
}

#[test]
fn grid_of_two_by_two() {
    let ops = grid_ops(2);
    let flower = flower_ops();
    assert_eq!(ops.len(), 508);
    let mut expected = vec![DrawOp::Save];
    for _ in 0..2 {
        for _ in 0..2 {
            expected.extend_from_slice(&flower);
            expected.push(DrawOp::Translate { dx: 3, dy: 1 });
            expected.extend_from_slice(&flower);
            expected.push(DrawOp::Translate { dx: 3, dy: -1 });
        }
        expected.push(DrawOp::Translate { dx: -12, dy: 2 });
    }
    expected.push(DrawOp::Restore);
    assert_eq!(ops, expected);
}

#[test]
fn grid_without_cells() {
    assert_eq!(grid_ops(0), vec![DrawOp::Save, DrawOp::Restore]);
    assert_eq!(grid_ops(-1), vec![DrawOp::Save, DrawOp::Restore]);
    assert_eq!(grid_ops(i32::MIN), vec![DrawOp::Save, DrawOp::Restore]);
}

#[test]
fn grid_row_return_grows_with_the_square_of_the_count() {
    for (count, dx) in [(1, -4i64), (2, -12), (3, -24), (4, -40)] {
        let ops = grid_ops(count);
        let cells = count as usize * 126;
        assert_eq!(ops[1 + cells], DrawOp::Translate { dx, dy: 2 });
        assert_eq!(ops.len(), 2 + count as usize * (cells + 1));
    }
}

#[test]
fn grid_leaves_the_transform_alone() {
    for count in 0..5 {
        let (x, y, open) = origin_after(&grid_ops(count), 150.0);
        assert!(x.abs() < 1e-6 && y.abs() < 1e-6);
        assert_eq!(open, 0);
    }
}

#[test]
fn rows_of_a_grid_of_two_start_straight_below_each_other() {
    let ops = grid_ops(2);
    let h = 3.0f64.sqrt() / 2.0 * 150.0;
    let row = 2 * 126 + 1;
    let (x, y, open) = origin_after(&ops[..1 + row], 150.0);
    assert!(x.abs() < 1e-6 && (y - 2.0 * h).abs() < 1e-6);
    assert_eq!(open, 1);
    let (x, y, _) = origin_after(&ops[..1 + 2 * row], 150.0);
    assert!(x.abs() < 1e-6 && (y - 4.0 * h).abs() < 1e-6);
}

#[test]
fn rows_of_other_grids_drift_sideways() {
    for count in [1i32, 3, 4] {
        let ops = grid_ops(count);
        let row = count as usize * 126 + 1;
        let (x, y, _) = origin_after(&ops[..1 + row], 150.0);
        let drift = 150.0 * (count * (2 - count)) as f64;
        assert!((x - drift).abs() < 1e-6 && drift != 0.0);
        assert!((y - 3.0f64.sqrt() * 150.0).abs() < 1e-6);
    }
}

#[test]
fn cells_of_a_row_are_three_edges_apart() {
    let ops = grid_ops(2);
    let (x, y, _) = origin_after(&ops[..1 + 126], 150.0);
    assert!((x - 450.0).abs() < 1e-6 && y.abs() < 1e-6);
    let (x, y, _) = origin_after(&ops[..1 + 63], 150.0);
    assert!((x - 225.0).abs() < 1e-6 && (y - 3.0f64.sqrt() * 75.0).abs() < 1e-6);
}

#[test]
fn stamp_grid_of_the_observed_surface() {
    let unit = TriangleUnit::new(150).unwrap();
    assert_eq!(stamp_grid(&unit, 1024, 1024), (3, 5));
}

#[test]
fn stamp_grid_counts_multiples_below_the_limit() {
    for d in [1u32, 2, 7, 150] {
        let unit = TriangleUnit::new(d).unwrap();
        let (bw, bh) = (unit.block_width() as u64, unit.block_height() as u64);
        for size in [0u32, 1, 2, 5, 149, 150, 151, 299, 300, 449, 450, 1024] {
            let (cols, rows) = stamp_grid(&unit, size, size);
            let limit = size as u64 + d as u64;
            assert!((cols - 1) * bw < limit && cols * bw >= limit);
            assert!((rows - 1) * bh < limit && rows * bh >= limit);
        }
    }
}

#[test]
fn stamp_grid_of_extreme_sizes() {
    let unit = TriangleUnit::new(1).unwrap();
    assert_eq!(stamp_grid(&unit, u32::MAX, u32::MAX), (1_431_655_766, 4_294_967_296));
    let unit = TriangleUnit::new(1_431_655_765).unwrap();
    assert_eq!(stamp_grid(&unit, 0, 0), (1, 1));
    assert_eq!(stamp_grid(&unit, u32::MAX, u32::MAX), (2, 3));
}

#[test]
fn tile_captures_the_block_then_stamps_row_by_row() {
    let ops = tile_ops(150, 1024, 1024);
    assert_eq!(ops.len(), 16);
    assert_eq!(ops[0], DrawOp::Capture { left: 0, top: 0, width: 450, height: 259 });
    let mut n = 1;
    for i in 0..5u64 {
        for j in [0u64, 3, 6] {
            assert_eq!(ops[n], DrawOp::Stamp { px: j * 150, py: i * 259 });
            n += 1;
        }
    }
}

#[test]
fn tile_stamps_exactly_below_the_limits() {
    for (d, width, height) in [(150u32, 1024u32, 768u32), (7, 100, 50), (1, 3, 3), (40, 0, 0)] {
        let unit = TriangleUnit::new(d).unwrap();
        let bh = unit.block_height() as u64;
        let mut expected = vec![DrawOp::Capture {
            left: 0,
            top: 0,
            width: 3 * d,
            height: unit.block_height(),
        }];
        let mut i = 0u64;
        while i * bh < height as u64 + d as u64 {
            let mut j = 0u64;
            while j * (d as u64) < width as u64 + d as u64 {
                expected.push(DrawOp::Stamp { px: j * d as u64, py: i * bh });
                j += 3;
            }
            i += 1;
        }
        assert_eq!(tile_ops(d, width, height), expected);
    }
}

#[test]
fn tile_of_an_empty_surface_stamps_once() {
    assert_eq!(
        tile_ops(150, 0, 0),
        vec![
            DrawOp::Capture { left: 0, top: 0, width: 450, height: 259 },
            DrawOp::Stamp { px: 0, py: 0 },
        ]
    );
}

#[test]
fn tile_appends_to_what_is_recorded() {
    let mut ctx = Canvas::new(10, 10);
    ctx.save();
    tile(&mut ctx, &TriangleUnit::new(150).unwrap());
    let ops = ctx.take_ops();
    assert_eq!(ops[0], DrawOp::Save);
    assert_eq!(&ops[1..], &tile_ops(150, 10, 10)[..]);
}

#[test]
fn tiled_pixels_repeat_the_block() {
    let unit = TriangleUnit::new(2).unwrap();
    let mut surface = checkered(20, 11);
    let before = checkered(20, 11);
    assert_eq!(tile_pixels(&mut surface, &unit), Ok(()));
    assert_eq!((surface.width(), surface.height()), (20, 11));
    for y in 0..11 {
        for x in 0..20 {
            assert_eq!(surface.get(x, y), before.get(x % 6, y % 3), "at ({x}, {y})");
        }
    }
}

#[test]
fn tiled_pixels_keep_the_block_itself() {
    let unit = TriangleUnit::new(3).unwrap();
    let mut surface = checkered(30, 30);
    let before = checkered(30, 30);
    assert_eq!(tile_pixels(&mut surface, &unit), Ok(()));
    for y in 0..5 {
        for x in 0..9 {
            assert_eq!(surface.get(x, y), before.get(x, y));
        }
    }
}

#[test]
fn tiled_pixels_show_no_seam_between_stamps() {
    let unit = TriangleUnit::new(4).unwrap();
    let (bw, bh) = (unit.block_width() as u64, unit.block_height() as u64);
    let mut surface = checkered(50, 40);
    assert_eq!(tile_pixels(&mut surface, &unit), Ok(()));
    for y in 0..40 {
        for boundary in [bw, 2 * bw, 3 * bw, 4 * bw] {
            assert_eq!(surface.get(boundary - 1, y), surface.get(bw - 1, y % bh));
            assert_eq!(surface.get(boundary, y), surface.get(0, y % bh));
        }
        for x in 0..50 - bw {
            assert_eq!(surface.get(x, y), surface.get(x + bw, y));
        }
    }
    for x in 0..50 {
        for y in 0..40 - bh {
            assert_eq!(surface.get(x, y), surface.get(x, y + bh));
        }
    }
}

#[test]
fn tiled_pixels_of_a_surface_smaller_than_the_block() {
    let unit = TriangleUnit::new(150).unwrap();
    let mut surface = checkered(20, 10);
    let before = checkered(20, 10);
    assert_eq!(tile_pixels(&mut surface, &unit), Ok(()));
    for y in 0..10 {
        for x in 0..20 {
            assert_eq!(surface.get(x, y), before.get(x, y));
        }
    }
}

#[test]
fn tiled_pixels_of_the_observed_surface_leave_no_hole() {
    let unit = TriangleUnit::new(150).unwrap();
    let mut surface = PixelBuffer::new(1024, 1024).unwrap();
    for y in 0..259u64 {
        for x in 0..450u64 {
            surface.set(x, y, (((x * 259 + y) as u32) << 8) | 0xff);
        }
    }
    assert_eq!(tile_pixels(&mut surface, &unit), Ok(()));
    assert_eq!((surface.width(), surface.height()), (1024, 1024));
    for y in 0..1024u64 {
        for x in 0..1024u64 {
            let sample = surface.get(x, y);
            assert_ne!(sample & 0xff, 0, "transparent at ({x}, {y})");
            assert_eq!(sample, ((((x % 450) * 259 + y % 259) as u32) << 8) | 0xff);
        }
    }
}

#[test]
fn tiled_pixels_fail_when_the_block_cannot_be_read() {
    let unit = TriangleUnit::new(30_000).unwrap();
    let mut surface = checkered(8, 8);
    let before = checkered(8, 8);
    assert_eq!(tile_pixels(&mut surface, &unit), Err(RenderError::PixelIo));
    for y in 0..8 {
        for x in 0..8 {
            assert_eq!(surface.get(x, y), before.get(x, y));
        }
    }
}

#[test]
fn grid_of_two_draws_a_honeycomb() {
    let d = 150.0;
    let h = 3.0f64.sqrt() / 2.0 * d;
    let ops = grid_ops(2);
    let mut pivots = Vec::new();
    for (n, op) in ops.iter().enumerate() {
        if *op == (DrawOp::LineTo { x: 0, y: 0 }) {
            let (x, y, _) = origin_after(&ops[..n], d);
            pivots.push((x, y));
        }
    }
    assert_eq!(pivots.len(), 48);
    let mut expected = Vec::new();
    for y in 0..2 {
        for x in 0..2 {
            let (x, y) = (x as f64, y as f64);
            expected.push((d + 3.0 * d * x, h + 2.0 * h * y));
            expected.push((2.5 * d + 3.0 * d * x, 2.0 * h + 2.0 * h * y));
        }
    }
    for (flower, pivot) in expected.iter().enumerate() {
        for petal in 0..6 {
            let found = pivots[6 * flower + petal];
            assert!((found.0 - pivot.0).abs() < 1e-6 && (found.1 - pivot.1).abs() < 1e-6);
        }
    }
}

#[test]
fn placed_flower_moves_to_its_pivot_and_back() {
    let mut ctx = Canvas::new(1, 1);
    placed_flower(&mut ctx);
    let ops = ctx.take_ops();
    assert_eq!(ops.len(), 62);
    assert_eq!(ops[0], DrawOp::Translate { dx: 2, dy: 1 });
    assert_eq!(ops[61], DrawOp::Translate { dx: -2, dy: -1 });
    assert_eq!(ops, flower_ops());
    let (x, y, open) = origin_after(&ops, 150.0);
    assert!(x.abs() < 1e-9 && y.abs() < 1e-9);
    assert_eq!(open, 0);
    let (x, y, _) = origin_after(&ops[..31], 150.0);
    assert!((x - 150.0).abs() < 1e-9 && (y - 3.0f64.sqrt() * 75.0).abs() < 1e-9);
}

#[test]
fn replayed_pixels_follow_the_record() {
    let mut surface = checkered(6, 4);
    let before = checkered(6, 4);
    let ops = vec![
        DrawOp::Stamp { px: 0, py: 0 },
        DrawOp::Capture { left: 1, top: 1, width: 2, height: 2 },
        DrawOp::Fill,
        DrawOp::Stamp { px: 4, py: 0 },
        DrawOp::Capture { left: 4, top: 0, width: 1, height: 1 },
        DrawOp::Stamp { px: 0, py: 3 },
    ];
    assert_eq!(replay_pixels(&mut surface, &ops), Ok(()));
    for y in 0..4u64 {
        for x in 0..6u64 {
            let expected = if x >= 4 && y < 2 {
                before.get(x - 3, y + 1)
            } else if (x, y) == (0, 3) {
                before.get(1, 1)
            } else {
                before.get(x, y)
            };
            assert_eq!(surface.get(x, y), expected, "at ({x}, {y})");
        }
    }
}

#[test]
fn replayed_pixels_refuse_a_capture_that_does_not_fit() {
    for capture in [
        DrawOp::Capture { left: 0, top: 0, width: 0, height: 1 },
        DrawOp::Capture { left: 0, top: 0, width: 1, height: 0 },
        DrawOp::Capture { left: 0, top: 0, width: 65_536, height: 65_536 },
    ] {
        let mut surface = checkered(4, 4);
        let before = checkered(4, 4);
        let ops = vec![
            DrawOp::Capture { left: 0, top: 0, width: 1, height: 1 },
            DrawOp::Stamp { px: 3, py: 3 },
            capture,
        ];
        assert_eq!(replay_pixels(&mut surface, &ops), Err(RenderError::PixelIo));
        for y in 0..4 {
            for x in 0..4 {
                assert_eq!(surface.get(x, y), before.get(x, y));
            }
        }
    }
}

#[test]
fn replaying_the_recorded_pass_is_tiling() {
    let unit = TriangleUnit::new(3).unwrap();
    let mut replayed = checkered(25, 17);
    let mut tiled = checkered(25, 17);
    assert_eq!(replay_pixels(&mut replayed, &tile_ops(3, 25, 17)), Ok(()));
    assert_eq!(tile_pixels(&mut tiled, &unit), Ok(()));
    for y in 0..17 {
        for x in 0..25 {
            assert_eq!(replayed.get(x, y), tiled.get(x, y));
        }
    }
}

#[test]
fn block_with_matching_edge_columns_tiles_without_a_seam() {
    let unit = TriangleUnit::new(2).unwrap();
    let mut surface = checkered(20, 9);
    for y in 0..3 {
        let first = surface.get(0, y);
        surface.set(5, y, first);
    }
    assert_eq!(tile_pixels(&mut surface, &unit), Ok(()));
    for y in 0..9 {
        for boundary in [6u64, 12, 18] {
            assert_eq!(surface.get(boundary - 1, y), surface.get(boundary, y));
        }
    }
}
