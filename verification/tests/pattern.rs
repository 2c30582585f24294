use kaleidoscope::canvas::DrawOp;
use kaleidoscope::geometry::TriangleUnit;
use kaleidoscope::pattern::{FillRect, InputCanvas};

#[test]
fn pattern_source_starts_unrotated() {
    let source = InputCanvas::new(152, 258);
    assert_eq!((source.width(), source.height(), source.angle()), (152, 258, 0));
}

#[test]
fn advance_adds_to_the_angle() {
    let mut source = InputCanvas::new(152, 258);
    assert!(source.advance(-1));
    assert_eq!(source.angle(), -1);
    assert!(source.advance(-1));
    assert!(source.advance(631));
    assert_eq!(source.angle(), 629);
    assert!(source.advance(0));
    assert_eq!(source.angle(), 629);
    assert_eq!((source.width(), source.height()), (152, 258));
}

#[test]
fn advance_stops_at_the_ends_of_the_range() {
    let mut source = InputCanvas::new(1, 1);
    assert!(source.advance(i64::MAX));
    assert!(!source.advance(1));
    assert_eq!(source.angle(), i64::MAX);
    assert!(source.advance(i64::MIN));
    assert_eq!(source.angle(), -1);
    assert!(source.advance(i64::MIN + 1));
    assert_eq!(source.angle(), i64::MIN);
    assert!(!source.advance(-1));
    assert_eq!(source.angle(), i64::MIN);
}

#[test]
fn draw_onto_fills_the_four_quadrants() {
    let source = InputCanvas::new(152, 258);
    let fills = source.draw_onto(&TriangleUnit::new(150).unwrap());
    assert_eq!(
        fills,
        vec![
            FillRect { x: -150, y: 0, width: 150, height: 150 },
            FillRect { x: 0, y: -150, width: 150, height: 150 },
            FillRect { x: -150, y: -150, width: 150, height: 150 },
            FillRect { x: 0, y: 0, width: 150, height: 150 },
        ]
    );
}

#[test]
fn draw_onto_with_the_largest_edge() {
    let source = InputCanvas::new(1, 1);
    let fills = source.draw_onto(&TriangleUnit::new(1_431_655_765).unwrap());
    assert_eq!(fills[2], FillRect { x: -1_431_655_765, y: -1_431_655_765, width: 1_431_655_765, height: 1_431_655_765 });
}

#[test]
fn quadrants_cover_the_square_at_every_angle() {
    let unit = TriangleUnit::new(150).unwrap();
    let mut source = InputCanvas::new(152, 258);
    for _ in 0..=630 {
        let fills = source.draw_onto(&unit);
        for py in (-300..=300).step_by(25) {
            for px in (-300..=300).step_by(25) {
                let (x, y) = (px as f64 / 2.0, py as f64 / 2.0);
                let covered = fills.iter().any(|r| {
                    r.x as f64 <= x
                        && x <= (r.x + r.width) as f64
                        && r.y as f64 <= y
                        && y <= (r.y + r.height) as f64
                });
                assert!(covered, "gap at ({x}, {y}) at angle {}", source.angle());
            }
        }
        assert!(source.advance(1));
    }
}

#[test]
fn quadrants_do_not_reach_beyond_the_square() {
    let fills = InputCanvas::new(152, 258).draw_onto(&TriangleUnit::new(150).unwrap());
    for r in fills {
        assert!(-150 <= r.x && r.x + r.width <= 150);
        assert!(-150 <= r.y && r.y + r.height <= 150);
    }
}

#[test]
fn pattern_frame_reads_the_whole_surface_and_writes_it_back() {
    assert_eq!(
        InputCanvas::new(152, 258).frame(),
        vec![
            DrawOp::Capture { left: 0, top: 0, width: 152, height: 258 },
            DrawOp::Stamp { px: 0, py: 0 },
        ]
    );
}
