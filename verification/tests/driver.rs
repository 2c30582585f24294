use kaleidoscope::canvas::DrawOp;
use kaleidoscope::driver::{Action, Event, FrameDriver, Phase, Tick, ROTATION_STEP};
use kaleidoscope::error::RenderError;
use kaleidoscope::kaleidoscope::{Kaleidoscope, GRID, PAT_DIM};
use kaleidoscope::pattern::FillRect;

fn render(driver: &mut FrameDriver) -> Tick {
    match driver.step(Event::Tick) {
        Action::Render(tick) => tick,
        other => panic!("expected the work of a tick, got {other:?}"),
    }
}

#[test]
fn configuration_constants() {
    assert_eq!(PAT_DIM, 150);
    assert_eq!(GRID, 2);
    assert_eq!(ROTATION_STEP, -1);
}

#[test]
fn kaleidoscope_starts_with_the_move_to_its_base() {
    let mut kal = Kaleidoscope::new(1024, 768);
    assert_eq!((kal.width(), kal.height()), (1024, 768));
    assert_eq!(kal.triangle_unit().edge(), 150);
    kal.clear();
    let ops = kal.get_frame();
    assert_eq!(ops[0], DrawOp::Translate { dx: -1, dy: -1 });
    assert_eq!(ops[1], DrawOp::Clear);
}

#[test]
fn kaleidoscope_frame_is_clear_grid_tiling_readback() {
    let mut kal = Kaleidoscope::new(1024, 1024);
    let first = kal.get_frame();
    let ops = kal.get_frame();
    assert_eq!(&first[1..], &ops[..]);
    assert_eq!(ops.len(), 2 + 508 + 1 + 16 + 1);
    assert_eq!(&ops[..3], &[DrawOp::Clear, DrawOp::Save, DrawOp::Save]);
    assert_eq!(&ops[509..511], &[DrawOp::Restore, DrawOp::Restore]);
    assert_eq!(ops[511], DrawOp::Capture { left: 0, top: 0, width: 450, height: 259 });
    assert_eq!(ops[512], DrawOp::Stamp { px: 0, py: 0 });
    assert_eq!(ops[526], DrawOp::Stamp { px: 900, py: 1036 });
    assert_eq!(ops[527], DrawOp::Capture { left: 0, top: 0, width: 1024, height: 1024 });
}

#[test]
fn kaleidoscope_frame_balances_saves_and_restores() {
    let mut kal = Kaleidoscope::new(640, 480);
    let ops = kal.get_update_frame();
    let mut open = 0i32;
    for op in &ops {
        match op {
            DrawOp::Save => open += 1,
            DrawOp::Restore => {
                open -= 1;
                assert!(open >= 0);
            }
            _ => {}
        }
    }
    assert_eq!(open, 0);
}

#[test]
fn kaleidoscope_update_frame_installs_the_pattern_first() {
    let mut kal = Kaleidoscope::new(1024, 1024);
    let ops = kal.get_update_frame();
    assert_eq!(&ops[..3], &[DrawOp::Translate { dx: -1, dy: -1 }, DrawOp::UsePattern, DrawOp::Clear]);
    let mut plain = Kaleidoscope::new(1024, 1024);
    let frame = plain.get_frame();
    assert_eq!(&ops[2..], &frame[1..]);
}

#[test]
fn kaleidoscope_frame_records_without_handing_out() {
    let mut kal = Kaleidoscope::new(32, 32);
    kal.frame();
    kal.frame();
    let ops = kal.get_frame();
    let one = 2 + 508 + 1 + 1 + 1;
    assert_eq!(ops.len(), 1 + 3 * one + 1);
}

#[test]
fn driver_starts_idle() {
    let driver = FrameDriver::new(Kaleidoscope::new(1024, 1024));
    assert_eq!(driver.phase(), Phase::Idle);
    assert_eq!(driver.angle(), 0);
    assert_eq!(driver.presented(), None);
}

#[test]
fn tick_asks_for_the_work_of_one_frame() {
    let mut driver = FrameDriver::new(Kaleidoscope::new(1024, 1024));
    let tick = render(&mut driver);
    assert_eq!(driver.phase(), Phase::Rendering);
    assert_eq!(driver.angle(), -1);
    assert_eq!(driver.presented(), None);
    assert_eq!(tick.rotation, -1);
    assert_eq!(
        tick.fills,
        vec![
            FillRect { x: -150, y: 0, width: 150, height: 150 },
            FillRect { x: 0, y: -150, width: 150, height: 150 },
            FillRect { x: -150, y: -150, width: 150, height: 150 },
            FillRect { x: 0, y: 0, width: 150, height: 150 },
        ]
    );
    assert_eq!(
        tick.snapshot,
        vec![
            DrawOp::Capture { left: 0, top: 0, width: 152, height: 258 },
            DrawOp::Stamp { px: 0, py: 0 },
        ]
    );
    let mut kal = Kaleidoscope::new(1024, 1024);
    assert_eq!(tick.frame, kal.get_update_frame());
}

fn present(driver: &mut FrameDriver) {
    assert!(matches!(driver.step(Event::Rendered), Action::Present));
    assert!(matches!(driver.step(Event::Delivered), Action::Wait));
}

#[test]
fn one_tick_reads_back_the_whole_surface() {
    let mut driver = FrameDriver::new(Kaleidoscope::new(1024, 1024));
    let tick = render(&mut driver);
    assert_eq!(
        tick.frame.last(),
        Some(&DrawOp::Capture { left: 0, top: 0, width: 1024, height: 1024 })
    );
    assert_eq!(tick.frame.iter().filter(|op| matches!(op, DrawOp::Stamp { .. })).count(), 15);
    assert_eq!(tick.frame.iter().filter(|op| **op == DrawOp::Fill).count(), 48);
    present(&mut driver);
}

#[test]
fn rendered_frame_is_presented_once_delivered() {
    let mut driver = FrameDriver::new(Kaleidoscope::new(64, 64));
    render(&mut driver);
    assert!(matches!(driver.step(Event::Rendered), Action::Present));
    assert_eq!(driver.phase(), Phase::Rendering);
    assert!(driver.frame_ready());
    assert_eq!(driver.presented(), None);
    assert!(matches!(driver.step(Event::Delivered), Action::Wait));
    assert_eq!(driver.phase(), Phase::Idle);
    assert!(!driver.frame_ready());
    assert_eq!(driver.presented(), Some(-1));
    assert_eq!(driver.angle(), -1);
}

#[test]
fn ticks_turn_the_pattern_step_by_step() {
    let mut driver = FrameDriver::new(Kaleidoscope::new(64, 64));
    for n in 1..=50i64 {
        let tick = render(&mut driver);
        assert_eq!(tick.rotation, -1);
        assert_eq!(driver.angle(), -n);
        if n > 1 {
            assert_eq!(tick.frame[0], DrawOp::UsePattern);
        }
        present(&mut driver);
        assert_eq!(driver.presented(), Some(-n));
    }
}

#[test]
fn failed_first_tick_presents_nothing() {
    let mut driver = FrameDriver::new(Kaleidoscope::new(64, 64));
    render(&mut driver);
    assert!(matches!(driver.step(Event::Failed(RenderError::PixelIo)), Action::Halt));
    assert_eq!(driver.presented(), None);
    assert_eq!(driver.phase(), Phase::Rendering);
}

#[test]
fn failed_tick_keeps_the_last_presented_frame() {
    for error in [RenderError::SurfaceCreation, RenderError::DrawCall, RenderError::PixelIo] {
        let mut driver = FrameDriver::new(Kaleidoscope::new(1024, 1024));
        render(&mut driver);
        present(&mut driver);
        render(&mut driver);
        assert!(matches!(driver.step(Event::Failed(error)), Action::Halt));
        assert_eq!(driver.presented(), Some(-1));
        assert_eq!(driver.angle(), -2);
        assert_eq!(driver.phase(), Phase::Rendering);
    }
}

#[test]
fn failed_delivery_keeps_the_last_presented_frame() {
    let mut driver = FrameDriver::new(Kaleidoscope::new(64, 64));
    render(&mut driver);
    present(&mut driver);
    render(&mut driver);
    assert!(matches!(driver.step(Event::Rendered), Action::Present));
    assert!(matches!(driver.step(Event::Failed(RenderError::PixelIo)), Action::Halt));
    assert_eq!(driver.presented(), Some(-1));
    assert_eq!(driver.phase(), Phase::Rendering);
    assert!(matches!(driver.step(Event::Tick), Action::Halt));
}

#[test]
fn failed_tick_ends_the_animation() {
    let mut driver = FrameDriver::new(Kaleidoscope::new(64, 64));
    render(&mut driver);
    assert!(matches!(driver.step(Event::Failed(RenderError::DrawCall)), Action::Halt));
    for _ in 0..3 {
        assert!(matches!(driver.step(Event::Tick), Action::Halt));
        assert_eq!(driver.angle(), -1);
        assert_eq!(driver.presented(), None);
    }
}

#[test]
fn events_out_of_turn_change_nothing() {
    let mut driver = FrameDriver::new(Kaleidoscope::new(64, 64));
    assert!(matches!(driver.step(Event::Rendered), Action::Halt));
    assert!(matches!(driver.step(Event::Delivered), Action::Halt));
    assert!(matches!(driver.step(Event::Failed(RenderError::PixelIo)), Action::Halt));
    assert_eq!((driver.phase(), driver.angle(), driver.presented()), (Phase::Idle, 0, None));
    render(&mut driver);
    assert!(matches!(driver.step(Event::Tick), Action::Halt));
    assert!(matches!(driver.step(Event::Delivered), Action::Halt));
    assert_eq!((driver.phase(), driver.angle(), driver.presented()), (Phase::Rendering, -1, None));
    assert!(matches!(driver.step(Event::Rendered), Action::Present));
    assert!(matches!(driver.step(Event::Rendered), Action::Halt));
    assert!(matches!(driver.step(Event::Delivered), Action::Wait));
}

/// Rotation in sixths of a turn, origin and count of open saves of a 2D
/// context after `ops`, for an edge of 150 pixels.
fn transform_after(ops: &[DrawOp]) -> (usize, f64, f64, usize) {
    let (d, h) = (150.0, 3.0f64.sqrt() * 75.0);
    let mut turns = 0usize;
    let mut at = (0.0f64, 0.0f64);
    let mut saved: Vec<(usize, (f64, f64))> = Vec::new();
    for op in ops {
        match *op {
            DrawOp::Save => saved.push((turns, at)),
            DrawOp::Restore => {
                if let Some(top) = saved.pop() {
                    (turns, at) = top;
                }
            }
            DrawOp::Translate { dx, dy } => {
                let (sin, cos) = (turns as f64 * std::f64::consts::PI / 3.0).sin_cos();
                let (tx, ty) = (dx as f64 * d / 2.0, dy as f64 * h);
                at = (at.0 + tx * cos - ty * sin, at.1 + tx * sin + ty * cos);
            }
            DrawOp::RotateSixth => turns = (turns + 1) % 6,
            _ => {}
        }
    }
    (turns, at.0, at.1, saved.len())
}

#[test]
fn broken_off_frame_unwinds_to_the_entry_state() {
    let mut kal = Kaleidoscope::new(256, 256);
    kal.get_frame();
    let ops = kal.get_frame();
    let mut deepest = 0;
    for done in 0..=ops.len() {
        let open = kaleidoscope::canvas::open_saves_after(&ops, done);
        deepest = deepest.max(open);
        let mut replayed = ops[..done].to_vec();
        for _ in 0..open {
            replayed.push(DrawOp::Restore);
        }
        let (turns, x, y, left_open) = transform_after(&replayed);
        assert_eq!((turns, left_open), (0, 0), "broken off after {done} operations");
        assert!(x.abs() < 1e-9 && y.abs() < 1e-9, "broken off after {done} operations");
    }
    assert_eq!(deepest, 3);
}

#[test]
fn frame_covers_the_block_with_hexagons() {
    let (d, h) = (150.0, 3.0f64.sqrt() * 75.0);
    let mut kal = Kaleidoscope::new(1024, 1024);
    let ops = kal.get_frame();
    let mut pivots: Vec<(f64, f64)> = Vec::new();
    for (n, op) in ops.iter().enumerate() {
        if *op == (DrawOp::LineTo { x: 0, y: 0 }) {
            let (_, x, y, _) = transform_after(&ops[..n]);
            if !pivots.iter().any(|p| (p.0 - x).abs() < 1e-6 && (p.1 - y).abs() < 1e-6) {
                pivots.push((x, y));
            }
        }
    }
    assert_eq!(pivots.len(), 8);
    assert!((pivots[0].0 - 75.0).abs() < 1e-6 && pivots[0].1.abs() < 1e-6);
    for py in 0..=259 {
        for px in 0..=450 {
            let covered = pivots.iter().any(|pivot| {
                let u = (px as f64 - pivot.0).abs() / (d / 4.0);
                let v = (py as f64 - pivot.1).abs() / (h / 2.0);
                v <= 2.0 + 1e-9 && u + v <= 4.0 + 1e-9
            });
            assert!(covered, "no hexagon holds ({px}, {py})");
        }
    }
}
