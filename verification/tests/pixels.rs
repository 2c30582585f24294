use kaleidoscope::pixels::{xy_to_index, PixelBuffer, CLEAR, RGB};

fn numbered(width: u32, height: u32) -> PixelBuffer {
    let mut buffer = PixelBuffer::new(width, height).unwrap();
    for y in 0..height {
        for x in 0..width {
            assert!(buffer.set(x as u64, y as u64, 0x0100_00ff + y * 0x100 + x));
        }
    }
    buffer
}

#[test]
fn channel_to_u32_places_each_channel() {
    assert_eq!(RGB::R(0x12).to_u32(), 0x1200_0000);
    assert_eq!(RGB::G(0x34).to_u32(), 0x0034_0000);
    assert_eq!(RGB::B(0x56).to_u32(), 0x0000_5600);
    assert_eq!(RGB::A(0x78).to_u32(), 0x0000_0078);
    assert_eq!(RGB::R(255).to_u32(), 0xff00_0000);
    assert_eq!(RGB::R(0).to_u32(), 0);
}

#[test]
fn channel_to_u8_gives_the_value() {
    assert_eq!(RGB::R(1).to_u8(), 1);
    assert_eq!(RGB::G(2).to_u8(), 2);
    assert_eq!(RGB::B(3).to_u8(), 3);
    assert_eq!(RGB::A(255).to_u8(), 255);
}

#[test]
fn channels_add_up_to_a_sample() {
    let sample =
        RGB::R(0xde).to_u32() + RGB::G(0xad).to_u32() + RGB::B(0xbe).to_u32() + RGB::A(0xef).to_u32();
    assert_eq!(sample, 0xdead_beef);
}

#[test]
fn xy_to_index_is_row_major() {
    assert_eq!(xy_to_index(0, 0, 10), 0);
    assert_eq!(xy_to_index(3, 2, 10), 23);
    assert_eq!(xy_to_index(9, 0, 10), 9);
    assert_eq!(xy_to_index(0, 1, 10), 10);
    assert_eq!(xy_to_index(1023, 1023, 1024), 1024 * 1024 - 1);
    assert_eq!(xy_to_index(5, 7, 0), 5);
}

#[test]
fn new_buffer_is_transparent_black() {
    let buffer = PixelBuffer::new(4, 3).unwrap();
    assert_eq!(buffer.width(), 4);
    assert_eq!(buffer.height(), 3);
    for y in 0..3 {
        for x in 0..4 {
            assert_eq!(buffer.get(x, y), CLEAR);
        }
    }
}

#[test]
fn new_buffer_may_be_empty() {
    let buffer = PixelBuffer::new(0, 7).unwrap();
    assert_eq!((buffer.width(), buffer.height()), (0, 7));
    assert_eq!(buffer.get(0, 0), CLEAR);
}

#[test]
fn new_buffer_refuses_more_than_u32_max_samples() {
    assert!(PixelBuffer::new(65_536, 65_536).is_none());
    assert!(PixelBuffer::new(u32::MAX, 2).is_none());
    assert!(PixelBuffer::new(u32::MAX, u32::MAX).is_none());
}

#[test]
fn set_writes_one_sample() {
    let mut buffer = PixelBuffer::new(3, 2).unwrap();
    assert!(buffer.set(2, 1, 0xaabb_ccdd));
    for y in 0..2 {
        for x in 0..3 {
            let expected = if (x, y) == (2, 1) { 0xaabb_ccdd } else { CLEAR };
            assert_eq!(buffer.get(x, y), expected);
        }
    }
}

#[test]
fn set_outside_is_dropped() {
    let mut buffer = numbered(3, 2);
    assert!(!buffer.set(3, 0, 7));
    assert!(!buffer.set(0, 2, 7));
    assert!(!buffer.set(u64::MAX, u64::MAX, 7));
    for y in 0..2u32 {
        for x in 0..3u32 {
            assert_eq!(buffer.get(x as u64, y as u64), 0x0100_00ff + y * 0x100 + x);
        }
    }
}

#[test]
fn get_outside_is_transparent_black() {
    let buffer = numbered(3, 2);
    assert_eq!(buffer.get(3, 0), CLEAR);
    assert_eq!(buffer.get(0, 2), CLEAR);
    assert_eq!(buffer.get(1 << 32, 0), CLEAR);
    assert_eq!(buffer.get(u64::MAX, u64::MAX), CLEAR);
}

#[test]
fn capture_reads_a_rectangle() {
    let source = numbered(5, 4);
    let block = source.capture(1, 2, 3, 2).unwrap();
    assert_eq!((block.width(), block.height()), (3, 2));
    for y in 0..2 {
        for x in 0..3 {
            assert_eq!(block.get(x, y), source.get(1 + x, 2 + y));
        }
    }
}

#[test]
fn capture_beyond_the_edge_reads_transparent_black() {
    let source = numbered(2, 2);
    let block = source.capture(1, 1, 3, 3).unwrap();
    assert_eq!(block.get(0, 0), source.get(1, 1));
    for y in 0..3 {
        for x in 0..3 {
            if (x, y) != (0, 0) {
                assert_eq!(block.get(x, y), CLEAR);
            }
        }
    }
    let far = source.capture(u32::MAX, u32::MAX, 2, 2).unwrap();
    assert_eq!(far.get(0, 0), CLEAR);
    assert_eq!(far.get(1, 1), CLEAR);
}

#[test]
fn capture_refuses_empty_and_oversized_rectangles() {
    let source = numbered(2, 2);
    assert!(source.capture(0, 0, 0, 1).is_none());
    assert!(source.capture(0, 0, 1, 0).is_none());
    assert!(source.capture(0, 0, 65_536, 65_536).is_none());
}

#[test]
fn stamp_writes_the_block_and_nothing_else() {
    let mut target = PixelBuffer::new(6, 5).unwrap();
    let block = numbered(2, 3);
    target.stamp(&block, 3, 1);
    for y in 0..5u64 {
        for x in 0..6u64 {
            let inside = (3..5).contains(&x) && (1..4).contains(&y);
            let expected = if inside { block.get(x - 3, y - 1) } else { CLEAR };
            assert_eq!(target.get(x, y), expected, "at ({x}, {y})");
        }
    }
}

#[test]
fn stamp_is_clipped_at_the_edges() {
    let mut target = numbered(4, 4);
    let before = numbered(4, 4);
    let mut block = PixelBuffer::new(3, 3).unwrap();
    for y in 0..3 {
        for x in 0..3 {
            block.set(x, y, 0xffff_ffff);
        }
    }
    target.stamp(&block, 3, 2);
    assert_eq!((target.width(), target.height()), (4, 4));
    for y in 0..4u64 {
        for x in 0..4u64 {
            let expected = if x == 3 && y >= 2 { 0xffff_ffff } else { before.get(x, y) };
            assert_eq!(target.get(x, y), expected);
        }
    }
}

#[test]
fn stamp_outside_changes_nothing() {
    let mut target = numbered(4, 4);
    let before = numbered(4, 4);
    let block = numbered(2, 2);
    target.stamp(&block, 4, 0);
    target.stamp(&block, 0, 4);
    target.stamp(&block, u64::MAX, u64::MAX);
    for y in 0..4 {
        for x in 0..4 {
            assert_eq!(target.get(x, y), before.get(x, y));
        }
    }
}

#[test]
fn stamping_a_capture_where_it_was_read_is_lossless() {
    let placements = [(0u32, 0u32, 3u32, 2u32), (2, 1, 4, 4), (5, 5, 9, 9), (0, 0, 7, 6)];
    for (left, top, width, height) in placements {
        let mut surface = numbered(7, 6);
        let before = numbered(7, 6);
        let block = surface.capture(left, top, width, height).unwrap();
        surface.stamp(&block, left as u64, top as u64);
        for y in 0..6 {
            for x in 0..7 {
                assert_eq!(surface.get(x, y), before.get(x, y));
            }
        }
    }
}
