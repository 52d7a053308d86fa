//! Rectangle compositor behavior: resizing, block writes with defensive
//! clamping and truncation, and directional overlap-safe copies.

use vnc_viewer::framebuffer::{DecodeError, Framebuffer};
use vnc_viewer::pixel::{PixelFormat, Rgb};
use vnc_viewer::rect::Rect;

fn grey_format() -> PixelFormat {
    // One byte per pixel, every channel the same byte.
    PixelFormat {
        bits_per_pixel: 8,
        big_endian: false,
        red_max: 255,
        green_max: 255,
        blue_max: 255,
        red_shift: 0,
        green_shift: 0,
        blue_shift: 0,
    }
}

fn rect(left: u16, top: u16, width: u16, height: u16) -> Rect {
    Rect { left, top, width, height }
}

fn grey(v: u8) -> Rgb {
    Rgb { r: v, g: v, b: v }
}

#[test]
fn resize_allocates_black() {
    let mut fb = Framebuffer::new();
    assert_eq!(fb.len(), 0);
    fb.apply_resize(4, 3);
    assert_eq!(fb.width(), 4);
    assert_eq!(fb.height(), 3);
    assert_eq!(fb.len(), 12);
    for i in 0..12 {
        assert_eq!(fb.pixel(i), Rgb { r: 0, g: 0, b: 0 });
    }
}

#[test]
fn resize_discards_contents() {
    let mut fb = Framebuffer::new();
    fb.apply_resize(2, 2);
    fb.write_pixels(rect(0, 0, 2, 2), &vec![1, 2, 3, 4], grey_format()).unwrap();
    fb.apply_resize(2, 2);
    for i in 0..4 {
        assert_eq!(fb.pixel(i), grey(0));
    }
}

#[test]
fn write_pixels_row_major() {
    let mut fb = Framebuffer::new();
    fb.apply_resize(4, 3);
    fb.write_pixels(rect(1, 1, 2, 2), &vec![10, 20, 30, 40], grey_format()).unwrap();
    assert_eq!(fb.pixel(5), grey(10));
    assert_eq!(fb.pixel(6), grey(20));
    assert_eq!(fb.pixel(9), grey(30));
    assert_eq!(fb.pixel(10), grey(40));
    // Every other pixel stays black.
    for i in [0usize, 1, 2, 3, 4, 7, 8, 11] {
        assert_eq!(fb.pixel(i), grey(0));
    }
}

#[test]
fn write_pixels_boundary_rectangle() {
    // A rectangle whose right edge is exactly the buffer's right edge.
    let mut fb = Framebuffer::new();
    fb.apply_resize(4, 3);
    fb.write_pixels(rect(3, 2, 1, 1), &vec![99], grey_format()).unwrap();
    assert_eq!(fb.len(), 12);
    assert_eq!(fb.pixel(11), grey(99));
}

#[test]
fn write_pixels_outside_buffer_is_skipped() {
    // One pixel past the right edge of a 2x2 buffer: the target index is
    // outside the allocation, so nothing changes and nothing panics.
    let mut fb = Framebuffer::new();
    fb.apply_resize(2, 2);
    fb.write_pixels(rect(2, 1, 1, 1), &vec![7], grey_format()).unwrap();
    for i in 0..4 {
        assert_eq!(fb.pixel(i), grey(0));
    }
}

#[test]
fn write_pixels_truncated_payload() {
    // Bytes for three of four pixels: the fourth is dropped silently.
    let mut fb = Framebuffer::new();
    fb.apply_resize(2, 2);
    fb.write_pixels(rect(0, 0, 2, 2), &vec![1, 2, 3], grey_format()).unwrap();
    assert_eq!(fb.pixel(0), grey(1));
    assert_eq!(fb.pixel(1), grey(2));
    assert_eq!(fb.pixel(2), grey(3));
    assert_eq!(fb.pixel(3), grey(0));
}

#[test]
fn write_pixels_unsupported_width() {
    let mut fb = Framebuffer::new();
    fb.apply_resize(2, 1);
    let mut fmt = grey_format();
    fmt.bits_per_pixel = 24;
    let res = fb.write_pixels(rect(0, 0, 2, 1), &vec![1, 2, 3, 4, 5, 6], fmt);
    assert_eq!(res, Err(DecodeError::UnsupportedPixelFormat));
    // The whole block was skipped.
    assert_eq!(fb.pixel(0), grey(0));
    assert_eq!(fb.pixel(1), grey(0));
}

#[test]
fn sixteen_bit_five_six_five_red() {
    // Little-endian word 0xF800 in a 5-6-5 format decodes to pure red.
    let fmt = PixelFormat {
        bits_per_pixel: 16,
        big_endian: false,
        red_max: 31,
        green_max: 63,
        blue_max: 31,
        red_shift: 11,
        green_shift: 5,
        blue_shift: 0,
    };
    let mut fb = Framebuffer::new();
    fb.apply_resize(1, 1);
    fb.write_pixels(rect(0, 0, 1, 1), &vec![0x00, 0xF8], fmt).unwrap();
    assert_eq!(fb.pixel(0), Rgb { r: 255, g: 0, b: 0 });
}

#[test]
fn copy_overlapping_downward() {
    // A 100x100 buffer: rows 0..50 carry a marker, then the 50x50 block at
    // the origin is copied ten rows down. Row 10 must equal the original
    // row 0 exactly, though source and destination overlap by forty rows.
    let mut fb = Framebuffer::new();
    fb.apply_resize(100, 100);
    let mut marker = Vec::new();
    for y in 0..50u32 {
        for x in 0..50u32 {
            marker.push(((y * 50 + x) % 251) as u8);
        }
    }
    fb.write_pixels(rect(0, 0, 50, 50), &marker, grey_format()).unwrap();
    let row0: Vec<Rgb> = (0..50).map(|x| fb.pixel(x)).collect();
    fb.copy_region(rect(0, 0, 50, 50), rect(0, 10, 50, 50));
    for x in 0..50 {
        assert_eq!(fb.pixel(10 * 100 + x), row0[x]);
    }
    // Every destination row equals the original source row.
    for y in 0..50usize {
        for x in 0..50usize {
            let expected = grey((((y * 50 + x) as u32) % 251) as u8);
            assert_eq!(fb.pixel((y + 10) * 100 + x), expected);
        }
    }
}

#[test]
fn copy_overlapping_upward() {
    // The mirror case: destination above the source, one row of overlap.
    let mut fb = Framebuffer::new();
    fb.apply_resize(8, 4);
    let mut marker = Vec::new();
    for i in 0..16u8 {
        marker.push(100 + i);
    }
    fb.write_pixels(rect(0, 1, 8, 2), &marker, grey_format()).unwrap();
    let before: Vec<Rgb> = (0..32).map(|i| fb.pixel(i)).collect();
    fb.copy_region(rect(0, 1, 8, 2), rect(0, 0, 8, 2));
    for y in 0..2usize {
        for x in 0..8usize {
            assert_eq!(fb.pixel(y * 8 + x), before[(y + 1) * 8 + x]);
        }
    }
    // The rows below the destination keep their values.
    for i in 16..32 {
        assert_eq!(fb.pixel(i), before[i]);
    }
}

#[test]
fn copy_one_row_overlap_downward() {
    // src and dst overlap by exactly one row.
    let mut fb = Framebuffer::new();
    fb.apply_resize(4, 4);
    fb.write_pixels(rect(0, 0, 4, 2), &vec![1, 2, 3, 4, 5, 6, 7, 8], grey_format()).unwrap();
    fb.copy_region(rect(0, 0, 4, 2), rect(0, 1, 4, 2));
    // Row 1 = old row 0, row 2 = old row 1; row 0 untouched.
    for x in 0..4usize {
        assert_eq!(fb.pixel(x), grey(1 + x as u8));
        assert_eq!(fb.pixel(4 + x), grey(1 + x as u8));
        assert_eq!(fb.pixel(8 + x), grey(5 + x as u8));
    }
}

#[test]
fn copy_same_row_disjoint_columns() {
    // Source and destination on the same row with disjoint column ranges:
    // the destination receives the source's original values.
    let mut fb = Framebuffer::new();
    fb.apply_resize(8, 1);
    fb.write_pixels(rect(0, 0, 8, 1), &vec![1, 2, 3, 4, 5, 6, 7, 8], grey_format()).unwrap();
    fb.copy_region(rect(0, 0, 2, 1), rect(4, 0, 2, 1));
    let expect = [1u8, 2, 3, 4, 1, 2, 7, 8];
    for (i, v) in expect.iter().enumerate() {
        assert_eq!(fb.pixel(i), grey(*v));
    }
}

#[test]
fn copy_same_row_overlapping_columns() {
    // Source and destination share a row and a column: the traversal reads
    // columns left to right, so a cell written earlier in the row is read
    // back by a later cell. This fixes the behavior for the one case the
    // directional rule does not cover.
    let mut fb = Framebuffer::new();
    fb.apply_resize(4, 1);
    fb.write_pixels(rect(0, 0, 4, 1), &vec![1, 2, 3, 4], grey_format()).unwrap();
    fb.copy_region(rect(0, 0, 2, 1), rect(1, 0, 2, 1));
    // Cell x=0 writes old 1 at index 1; cell x=1 then reads index 1 — the
    // value just written — and puts it at index 2.
    let expect = [1u8, 1, 1, 4];
    for (i, v) in expect.iter().enumerate() {
        assert_eq!(fb.pixel(i), grey(*v));
    }
}

#[test]
fn copy_out_of_range_is_skipped() {
    let mut fb = Framebuffer::new();
    fb.apply_resize(2, 2);
    fb.write_pixels(rect(0, 0, 2, 2), &vec![1, 2, 3, 4], grey_format()).unwrap();
    // Source reaches outside the buffer: offending cells are skipped, no
    // panic, nothing read from beyond the allocation.
    fb.copy_region(rect(1, 1, 4, 4), rect(0, 0, 4, 4));
    // Cell (0,0) received the one in-range source cell (1,1).
    assert_eq!(fb.pixel(0), grey(4));
    assert_eq!(fb.pixel(1), grey(2));
    assert_eq!(fb.pixel(2), grey(3));
    assert_eq!(fb.pixel(3), grey(4));
}

#[test]
fn pixels_snapshot_matches() {
    let mut fb = Framebuffer::new();
    fb.apply_resize(2, 1);
    fb.write_pixels(rect(0, 0, 2, 1), &vec![9, 8], grey_format()).unwrap();
    let snap = fb.pixels();
    assert_eq!(snap.len(), 2);
    assert_eq!(snap[0], grey(9));
    assert_eq!(snap[1], grey(8));
}
