//! Behavior of the generic monochrome and tri-color framebuffers: plane
//! sizes, background fills, bit addressing under every rotation, overdraw,
//! out-of-bounds draws, and the encode/decode round trip.

use epd_framebuffer::color::{decode_mono, decode_tri, Color, DisplayColorRendering, TriColor};
use epd_framebuffer::epd5in83b_v2::{Display5in83, NUM_DISPLAY_BITS};
use epd_framebuffer::framebuffer::{MonoFrameBuffer, TriFrameBuffer};
use epd_framebuffer::graphics::DisplayRotation;

// plane storage: count x ceil(width * height / 8) bytes
#[test]
fn plane_lengths() {
    let tri = TriFrameBuffer::new(640, 240, DisplayColorRendering::Negative, TriColor::Black);
    assert_eq!(tri.buffer().len(), 2 * (640 * 240 / 8));
    assert_eq!(tri.chromatic_offset(), 640 * 240 / 8);
    assert_eq!(tri.bw_buffer().len(), 640 * 240 / 8);
    assert_eq!(tri.chromatic_buffer().len(), 640 * 240 / 8);

    let mono = MonoFrameBuffer::new(8, 3, Color::Black);
    assert_eq!(mono.buffer().len(), 3);

    // a width that is not a multiple of eight pads each row to a full byte
    let padded = MonoFrameBuffer::new(10, 2, Color::Black);
    assert_eq!(padded.buffer().len(), 4);
}

// a zero-sized raster holds no bytes and drops every draw
#[test]
fn zero_size_raster() {
    let mut fb = MonoFrameBuffer::new(0, 0, Color::White);
    assert_eq!(fb.buffer().len(), 0);
    fb.draw(0, 0, Color::Black);
    assert_eq!(fb.buffer().len(), 0);

    let mut fb = TriFrameBuffer::new(0, 4, DisplayColorRendering::Negative, TriColor::White);
    assert_eq!(fb.buffer().len(), 0);
    fb.draw(0, 0, TriColor::Black);
    assert_eq!(fb.buffer().len(), 0);
}

// the background fill writes each plane's encoding of the background color
#[test]
fn tri_background_fill() {
    let fb = TriFrameBuffer::new(16, 2, DisplayColorRendering::Negative, TriColor::White);
    assert_eq!(fb.buffer().len(), 8);
    for &byte in fb.bw_buffer() {
        assert_eq!(byte, 0xff);
    }
    for &byte in fb.chromatic_buffer() {
        assert_eq!(byte, 0x00);
    }

    // the positive polarity inverts the chromatic plane's background
    let fb = TriFrameBuffer::new(16, 2, DisplayColorRendering::Positive, TriColor::White);
    for &byte in fb.bw_buffer() {
        assert_eq!(byte, 0xff);
    }
    for &byte in fb.chromatic_buffer() {
        assert_eq!(byte, 0xff);
    }
}

// initializing with a background is bit-identical to drawing it everywhere
#[test]
fn background_equals_drawing_everywhere() {
    let fresh = MonoFrameBuffer::new(8, 2, Color::White);

    let mut swept = MonoFrameBuffer::new(8, 2, Color::Black);
    for y in 0i32..2i32 {
        for x in 0i32..8i32 {
            swept.draw(x, y, Color::White);
        }
    }
    assert_eq!(fresh.buffer(), swept.buffer());

    let fresh = TriFrameBuffer::new(8, 2, DisplayColorRendering::Negative, TriColor::Chromatic);
    let mut swept = TriFrameBuffer::new(8, 2, DisplayColorRendering::Negative, TriColor::White);
    for y in 0i32..2i32 {
        for x in 0i32..8i32 {
            swept.draw(x, y, TriColor::Chromatic);
        }
    }
    assert_eq!(fresh.buffer(), swept.buffer());
}

// out-of-bounds coordinates are dropped without touching any byte
#[test]
fn out_of_bounds_draw_is_noop() {
    let mut fb = TriFrameBuffer::new(8, 1, DisplayColorRendering::Negative, TriColor::White);
    let before: Vec<u8> = fb.buffer().to_vec();
    fb.draw(-1, 0, TriColor::Black);
    fb.draw(0, -1, TriColor::Black);
    fb.draw(8, 0, TriColor::Black);
    fb.draw(0, 1, TriColor::Black);
    assert_eq!(fb.buffer(), before.as_slice());

    // the rotated bounds swap width and height
    fb.set_rotation(DisplayRotation::Rotate90);
    fb.draw(1, 0, TriColor::Black);
    assert_eq!(fb.buffer(), before.as_slice());
}

// drawing a coordinate twice keeps only the last color's encoding
#[test]
fn last_write_wins() {
    let mut twice = TriFrameBuffer::new(8, 1, DisplayColorRendering::Negative, TriColor::Black);
    twice.draw(3, 0, TriColor::Chromatic);
    twice.draw(3, 0, TriColor::White);

    let mut once = TriFrameBuffer::new(8, 1, DisplayColorRendering::Negative, TriColor::Black);
    once.draw(3, 0, TriColor::White);

    assert_eq!(twice.buffer(), once.buffer());
    assert_eq!(twice.bw_buffer()[0], 0x10);
    assert_eq!(twice.chromatic_buffer()[0], 0x00);
}

// draw_many applies its entries in order, like repeated draw calls
#[test]
fn draw_many_matches_sequential_draws() {
    let mut many = TriFrameBuffer::new(8, 1, DisplayColorRendering::Negative, TriColor::Black);
    let pixels: Vec<(i32, i32, TriColor)> = vec![
        (0, 0, TriColor::White),
        (7, 0, TriColor::Chromatic),
        (0, 0, TriColor::Chromatic),
    ];
    many.draw_many(&pixels);

    let mut single = TriFrameBuffer::new(8, 1, DisplayColorRendering::Negative, TriColor::Black);
    for &(x, y, c) in pixels.iter() {
        single.draw(x, y, c);
    }
    assert_eq!(many.buffer(), single.buffer());
    // (0,0) ends chromatic, (7,0) is chromatic: bw stays clear, chromatic holds both bits
    assert_eq!(many.bw_buffer()[0], 0x00);
    assert_eq!(many.chromatic_buffer()[0], 0x81);
}

// a horizontal line at 0 degrees packs into one byte; the same line after a
// quarter turn becomes a vertical run at the far edge with as many set bits
#[test]
fn rotation_quarter_turn_preserves_bits() {
    let mut flat = MonoFrameBuffer::new(8, 8, Color::Black);
    for x in 0i32..8i32 {
        flat.draw(x, 0, Color::White);
    }
    assert_eq!(flat.buffer()[0], 0xff);
    for &byte in flat.buffer().iter().skip(1) {
        assert_eq!(byte, 0x00);
    }

    let mut turned = MonoFrameBuffer::new(8, 8, Color::Black);
    turned.set_rotation(DisplayRotation::Rotate90);
    for x in 0i32..8i32 {
        turned.draw(x, 0, Color::White);
    }
    for &byte in turned.buffer() {
        assert_eq!(byte, 0x01);
    }

    let flat_bits: u32 = flat.buffer().iter().map(|b| b.count_ones()).sum();
    let turned_bits: u32 = turned.buffer().iter().map(|b| b.count_ones()).sum();
    assert_eq!(flat_bits, turned_bits);
}

// each rotation addresses the raster from its own corner
#[test]
fn rotation_corners() {
    let mut fb = MonoFrameBuffer::new(16, 2, Color::Black);
    fb.draw(0, 0, Color::White);
    assert_eq!(fb.buffer().to_vec(), vec![0x80, 0x00, 0x00, 0x00]);

    let mut fb = MonoFrameBuffer::new(16, 2, Color::Black);
    fb.set_rotation(DisplayRotation::Rotate180);
    fb.draw(0, 0, Color::White);
    assert_eq!(fb.buffer().to_vec(), vec![0x00, 0x00, 0x00, 0x01]);

    let mut fb = MonoFrameBuffer::new(16, 2, Color::Black);
    fb.set_rotation(DisplayRotation::Rotate270);
    fb.draw(0, 0, Color::White);
    assert_eq!(fb.buffer().to_vec(), vec![0x00, 0x00, 0x80, 0x00]);

    let mut fb = MonoFrameBuffer::new(16, 2, Color::Black);
    fb.set_rotation(DisplayRotation::Rotate90);
    fb.draw(0, 0, Color::White);
    assert_eq!(fb.buffer().to_vec(), vec![0x00, 0x01, 0x00, 0x00]);
}

// a row-padded width still addresses by whole rows of bytes
#[test]
fn padded_row_addressing() {
    let mut fb = MonoFrameBuffer::new(10, 2, Color::Black);
    fb.draw(9, 1, Color::White);
    assert_eq!(fb.buffer().to_vec(), vec![0x00, 0x00, 0x00, 0x40]);
}

// changing the rotation only affects subsequent draws
#[test]
fn set_rotation_keeps_drawn_pixels() {
    let mut fb = MonoFrameBuffer::new(8, 8, Color::Black);
    fb.draw(0, 0, Color::White);
    fb.set_rotation(DisplayRotation::Rotate180);
    assert_eq!(fb.buffer()[0], 0x80);
    fb.draw(0, 0, Color::White);
    assert_eq!(fb.buffer()[0], 0x80);
    assert_eq!(fb.buffer()[7], 0x01);
    assert_eq!(fb.rotation(), DisplayRotation::Rotate180);
}

// monochrome model, 8x1, white background: drawing black at the origin
// clears exactly the most significant bit of the single plane byte
#[test]
fn mono_8x1_black_on_white() {
    let mut fb = MonoFrameBuffer::new(8, 1, Color::White);
    assert_eq!(fb.buffer().to_vec(), vec![0xff]);
    fb.draw(0, 0, Color::Black);
    assert_eq!(fb.buffer().to_vec(), vec![0b0111_1111]);
}

// every color's plane bits decode back to the color, under both polarities
#[test]
fn encode_decode_round_trip() {
    for &rendering in &[DisplayColorRendering::Negative, DisplayColorRendering::Positive] {
        for &color in &[TriColor::Black, TriColor::White, TriColor::Chromatic] {
            let mut fb = TriFrameBuffer::new(8, 1, rendering, TriColor::Black);
            fb.draw(0, 0, color);
            let bw = fb.bw_buffer()[0] & 0x80 != 0;
            let chromatic = fb.chromatic_buffer()[0] & 0x80 != 0;
            assert_eq!(decode_tri(bw, chromatic, rendering), Some(color));
        }
    }
    for &color in &[Color::Black, Color::White] {
        let mut fb = MonoFrameBuffer::new(8, 1, color);
        fb.draw(0, 0, color);
        assert_eq!(decode_mono(fb.buffer()[0] & 0x80 != 0), color);
    }
    assert_eq!(decode_mono(Color::White.get_bit_value() == 1), Color::White);
    assert_eq!(decode_mono(Color::Black.get_bit_value() == 1), Color::Black);
}

// the panel adapter exposes its planes at the documented offsets
#[test]
fn display_planes() {
    let mut display = Display5in83::default();
    assert_eq!(display.chromatic_offset(), NUM_DISPLAY_BITS as usize);
    assert_eq!(display.bw_buffer().len(), NUM_DISPLAY_BITS as usize);
    assert_eq!(display.chromatic_buffer().len(), NUM_DISPLAY_BITS as usize);
    display.draw(0, 0, TriColor::Chromatic);
    assert_eq!(display.bw_buffer()[0], 0x00);
    assert_eq!(display.chromatic_buffer()[0], 0x80);
    assert_eq!(display.buffer()[NUM_DISPLAY_BITS as usize], 0x80);
    assert_eq!(display.rotation(), DisplayRotation::Rotate0);
}

// the raw buffer can be patched in place between draws
#[test]
fn mutable_buffer_access() {
    let mut display = Display5in83::default();
    let buffer = display.get_mut_buffer();
    buffer[1] = 0x55;
    assert_eq!(display.buffer()[1], 0x55);
    display.draw(0, 0, TriColor::White);
    assert_eq!(display.buffer()[0], 0x80);
    assert_eq!(display.buffer()[1], 0x55);
}
