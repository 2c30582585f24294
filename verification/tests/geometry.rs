use kaleidoscope::geometry::{isqrt, TriangleUnit, MAX_EDGE};

#[test]
fn isqrt_of_small_numbers() {
    assert_eq!(isqrt(0), 0);
    assert_eq!(isqrt(1), 1);
    assert_eq!(isqrt(2), 1);
    assert_eq!(isqrt(3), 1);
    assert_eq!(isqrt(4), 2);
    assert_eq!(isqrt(8), 2);
    assert_eq!(isqrt(9), 3);
    assert_eq!(isqrt(99), 9);
    assert_eq!(isqrt(100), 10);
}

#[test]
fn isqrt_of_large_numbers() {
    assert_eq!(isqrt(67_500), 259);
    assert_eq!(isqrt(u64::MAX), 4_294_967_295);
    assert_eq!(isqrt(4_294_967_295 * 4_294_967_295), 4_294_967_295);
    assert_eq!(isqrt(4_294_967_295 * 4_294_967_295 - 1), 4_294_967_294);
}

#[test]
fn isqrt_brackets_its_argument() {
    for n in 0u64..5_000 {
        let r = isqrt(n);
        assert!(r * r <= n, "root of {n}");
        assert!(n < (r + 1) * (r + 1), "root of {n}");
    }
}

#[test]
fn unit_rejects_zero_edge() {
    assert!(TriangleUnit::new(0).is_none());
}

#[test]
fn unit_rejects_edge_beyond_maximum() {
    assert!(TriangleUnit::new(MAX_EDGE + 1).is_none());
    assert!(TriangleUnit::new(u32::MAX).is_none());
}

#[test]
fn unit_accepts_edges_up_to_maximum() {
    assert_eq!(TriangleUnit::new(1).unwrap().edge(), 1);
    assert_eq!(TriangleUnit::new(MAX_EDGE).unwrap().edge(), MAX_EDGE);
}

#[test]
fn unit_of_edge_150() {
    let unit = TriangleUnit::new(150).unwrap();
    assert_eq!(unit.edge(), 150);
    assert_eq!(unit.block_width(), 450);
    assert_eq!(unit.block_height(), 259);
    assert_eq!(unit.height_floor(), 129);
}

#[test]
fn unit_of_small_edges() {
    let expected = [(1u32, 1u32, 0u32), (2, 3, 1), (3, 5, 2), (7, 12, 6), (100, 173, 86)];
    for (d, block_height, height_floor) in expected {
        let unit = TriangleUnit::new(d).unwrap();
        assert_eq!(unit.block_width(), 3 * d);
        assert_eq!(unit.block_height(), block_height);
        assert_eq!(unit.height_floor(), height_floor);
    }
}

#[test]
fn unit_of_largest_edge() {
    let unit = TriangleUnit::new(MAX_EDGE).unwrap();
    assert_eq!(unit.block_width(), u32::MAX);
    assert_eq!(unit.block_height(), 2_479_700_523);
    assert_eq!(unit.height_floor(), 1_239_850_261);
}

#[test]
fn heights_satisfy_four_h_squared_is_three_d_squared() {
    for d in 1u32..3_000 {
        let unit = TriangleUnit::new(d).unwrap();
        let three_d2 = 3 * (d as u64) * (d as u64);
        let two_h = unit.block_height() as u64;
        assert!(two_h * two_h <= three_d2 && three_d2 < (two_h + 1) * (two_h + 1));
        let h = unit.height_floor() as u64;
        assert!(4 * h * h <= three_d2 && three_d2 < 4 * (h + 1) * (h + 1));
    }
}

#[test]
fn heights_agree_with_floating_point() {
    let ratio = 3.0f64.sqrt() / 2.0;
    for d in 1u32..3_000 {
        let unit = TriangleUnit::new(d).unwrap();
        let h = ratio * d as f64;
        assert!((h - ratio * d as f64).abs() < 1e-9);
        assert_eq!(unit.block_height(), (h * 2.0).floor() as u32, "edge {d}");
        assert_eq!(unit.height_floor(), h as u32, "edge {d}");
    }
}
