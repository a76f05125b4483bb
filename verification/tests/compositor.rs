use fba::compositor::composite;
use fba::frame::DecodedFrame;
use fba::geometry::{FramebufferInfo, Offset};

fn geom(width: i64, height: i64, channels: i64, alignment: i64) -> FramebufferInfo {
    FramebufferInfo { width, height, channels, alignment }
}

fn frame(
    width: u16,
    height: u16,
    left: u16,
    top: u16,
    transparent: Option<u8>,
    buffer: Vec<u8>,
) -> DecodedFrame {
    DecodedFrame { width, height, left, top, transparent, buffer, palette: None }
}

#[test]
fn full_cover_reversed_mapping() {
    // 2x2 canvas, 3 bytes per pixel, no padding; frame covers it exactly.
    let g = geom(2, 2, 3, 0);
    let f = frame(2, 2, 0, 0, None, vec![0, 1, 2, 3]);
    let palette: Vec<u8> = vec![
        10, 11, 12, // index 0
        20, 21, 22, // index 1
        30, 31, 32, // index 2
        40, 41, 42, // index 3
    ];
    let mut dest: Vec<u8> = vec![0; 12];
    let r = composite(&f, &palette, &mut dest, &g, &Offset { x: 0, y: 0 });
    assert!(r.is_ok());
    // Each destination pixel holds its palette triple in reversed order.
    assert_eq!(dest, vec![12, 11, 10, 22, 21, 20, 32, 31, 30, 42, 41, 40]);
}

#[test]
fn clipping_negative_offset_leaves_sentinel() {
    let g = geom(2, 2, 3, 0);
    let f = frame(2, 2, 0, 0, None, vec![0, 1, 2, 3]);
    let palette: Vec<u8> = vec![10, 11, 12, 20, 21, 22, 30, 31, 32, 40, 41, 42];
    let mut dest: Vec<u8> = vec![0xAA; 12];
    // Offset (-1, -1): only source pixel (1, 1), index 3, lands on the
    // canvas, at destination (0, 0).
    let r = composite(&f, &palette, &mut dest, &g, &Offset { x: -1, y: -1 });
    assert!(r.is_ok());
    let mut expected: Vec<u8> = vec![0xAA; 12];
    expected[0] = 42;
    expected[1] = 41;
    expected[2] = 40;
    assert_eq!(dest, expected);
}

#[test]
fn clipping_positive_offset_leaves_sentinel() {
    let g = geom(2, 2, 3, 0);
    let f = frame(2, 2, 0, 0, None, vec![0, 1, 2, 3]);
    let palette: Vec<u8> = vec![10, 11, 12, 20, 21, 22, 30, 31, 32, 40, 41, 42];
    let mut dest: Vec<u8> = vec![0xAA; 12];
    // Offset (1, 1): only source pixel (0, 0), index 0, stays on the
    // canvas, at destination (1, 1).
    let r = composite(&f, &palette, &mut dest, &g, &Offset { x: 1, y: 1 });
    assert!(r.is_ok());
    let mut expected: Vec<u8> = vec![0xAA; 12];
    expected[9] = 12;
    expected[10] = 11;
    expected[11] = 10;
    assert_eq!(dest, expected);
}

#[test]
fn fully_off_canvas_writes_nothing() {
    let g = geom(2, 2, 3, 0);
    let f = frame(2, 2, 0, 0, None, vec![0, 1, 2, 3]);
    let palette: Vec<u8> = vec![10, 11, 12, 20, 21, 22, 30, 31, 32, 40, 41, 42];
    let mut dest: Vec<u8> = vec![0xAA; 12];
    let r = composite(&f, &palette, &mut dest, &g, &Offset { x: -5, y: 0 });
    assert!(r.is_ok());
    assert_eq!(dest, vec![0xAA; 12]);
}

#[test]
fn transparent_pixels_preserve_previous_frame() {
    let g = geom(2, 2, 3, 0);
    let palette: Vec<u8> = vec![10, 11, 12, 20, 21, 22, 30, 31, 32, 40, 41, 42];
    let mut dest: Vec<u8> = vec![0; 12];
    let a = frame(2, 2, 0, 0, None, vec![0, 1, 2, 3]);
    composite(&a, &palette, &mut dest, &g, &Offset { x: 0, y: 0 }).unwrap();
    let after_a = dest.clone();
    // A same-shape frame made entirely of the transparent index changes
    // nothing.
    let b = frame(2, 2, 0, 0, Some(1), vec![1, 1, 1, 1]);
    composite(&b, &palette, &mut dest, &g, &Offset { x: 0, y: 0 }).unwrap();
    assert_eq!(dest, after_a);
}

#[test]
fn mixed_transparency_overwrites_only_opaque() {
    let g = geom(2, 1, 3, 0);
    let palette: Vec<u8> = vec![10, 11, 12, 20, 21, 22];
    let mut dest: Vec<u8> = vec![0x77; 6];
    // First pixel transparent, second opaque.
    let f = frame(2, 1, 0, 0, Some(0), vec![0, 1]);
    composite(&f, &palette, &mut dest, &g, &Offset { x: 0, y: 0 }).unwrap();
    assert_eq!(dest, vec![0x77, 0x77, 0x77, 22, 21, 20]);
}

#[test]
fn padding_bytes_untouched() {
    // Two extra alignment bytes per row.
    let g = geom(2, 2, 3, 2);
    let f = frame(2, 2, 0, 0, None, vec![0, 1, 2, 3]);
    let palette: Vec<u8> = vec![10, 11, 12, 20, 21, 22, 30, 31, 32, 40, 41, 42];
    let mut dest: Vec<u8> = vec![0x55; 16];
    composite(&f, &palette, &mut dest, &g, &Offset { x: 0, y: 0 }).unwrap();
    // Row stride is 8: positions 6, 7, 14, 15 are padding and keep the
    // sentinel.
    assert_eq!(
        dest,
        vec![12, 11, 10, 22, 21, 20, 0x55, 0x55, 32, 31, 30, 42, 41, 40, 0x55, 0x55]
    );
}

#[test]
fn extra_channels_untouched() {
    // Four bytes per pixel: the fourth byte of every pixel keeps the
    // sentinel, only the first three channels are written.
    let g = geom(2, 1, 4, 0);
    let f = frame(2, 1, 0, 0, None, vec![0, 1]);
    let palette: Vec<u8> = vec![10, 11, 12, 20, 21, 22];
    let mut dest: Vec<u8> = vec![0x99; 8];
    composite(&f, &palette, &mut dest, &g, &Offset { x: 0, y: 0 }).unwrap();
    assert_eq!(dest, vec![12, 11, 10, 0x99, 22, 21, 20, 0x99]);
}

#[test]
fn palette_bounds_violation_rejected_before_any_write() {
    let g = geom(2, 2, 3, 0);
    // Index 5 has no triple in a 6-byte palette.
    let f = frame(2, 2, 0, 0, None, vec![0, 5, 0, 0]);
    let palette: Vec<u8> = vec![10, 11, 12, 20, 21, 22];
    let mut dest: Vec<u8> = vec![0xAA; 12];
    let r = composite(&f, &palette, &mut dest, &g, &Offset { x: 0, y: 0 });
    let e = r.unwrap_err();
    assert_eq!(e.color_index, 5);
    assert_eq!(e.palette_len, 6);
    // No byte was written.
    assert_eq!(dest, vec![0xAA; 12]);
}

#[test]
fn transparent_out_of_range_index_is_not_an_error() {
    let g = geom(2, 1, 3, 0);
    // Every pixel carries the transparent index 9; the palette holds no
    // triple for it, but it is never read.
    let f = frame(2, 1, 0, 0, Some(9), vec![9, 9]);
    let palette: Vec<u8> = vec![10, 11, 12];
    let mut dest: Vec<u8> = vec![0xAA; 6];
    let r = composite(&f, &palette, &mut dest, &g, &Offset { x: 0, y: 0 });
    assert!(r.is_ok());
    assert_eq!(dest, vec![0xAA; 6]);
}

#[test]
fn placement_within_canvas_respects_left_top() {
    let g = geom(3, 3, 3, 0);
    // 1x1 frame placed at (2, 1) by its own left/top fields.
    let f = frame(1, 1, 2, 1, None, vec![0]);
    let palette: Vec<u8> = vec![10, 11, 12];
    let mut dest: Vec<u8> = vec![0; 27];
    composite(&f, &palette, &mut dest, &g, &Offset { x: 0, y: 0 }).unwrap();
    let mut expected: Vec<u8> = vec![0; 27];
    let o = (1 * 3 + 2) * 3;
    expected[o] = 12;
    expected[o + 1] = 11;
    expected[o + 2] = 10;
    assert_eq!(dest, expected);
}
