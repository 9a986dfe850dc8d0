//! Buffer layout and rotation behavior of the 5.83 inch panel's framebuffer.

use epd_framebuffer::color::{Color, TriColor};
use epd_framebuffer::epd5in83b_v2::{Display5in83, DEFAULT_BACKGROUND_COLOR};
use epd_framebuffer::graphics::DisplayRotation;

// test buffer length
#[test]
fn graphics_size() {
    let display = Display5in83::default();
    assert_eq!(display.buffer().len(), 38400);
}

// test default background color on all bytes
#[test]
fn graphics_default() {
    let display = Display5in83::default();
    for &byte in display.buffer() {
        assert_eq!(byte, DEFAULT_BACKGROUND_COLOR.get_byte_value());
    }
}

#[test]
fn graphics_rotation_0() {
    let mut display = Display5in83::default();
    // horizontal line from (0,0) to (7,0), one pixel wide
    for x in 0i32..8i32 {
        display.draw(x, 0, TriColor::Black);
    }

    let buffer = display.buffer();

    assert_eq!(buffer[0], Color::Black.get_byte_value());

    for &byte in buffer.iter().skip(1) {
        assert_eq!(byte, DEFAULT_BACKGROUND_COLOR.get_byte_value());
    }
}

#[test]
fn graphics_rotation_90() {
    let mut display = Display5in83::default();
    display.set_rotation(DisplayRotation::Rotate90);
    // vertical line from (0,632) to (0,639), one pixel wide
    for y in 632i32..640i32 {
        display.draw(0, y, TriColor::Black);
    }

    let buffer = display.buffer();

    assert_eq!(buffer[0], Color::Black.get_byte_value());

    for &byte in buffer.iter().skip(1) {
        assert_eq!(byte, DEFAULT_BACKGROUND_COLOR.get_byte_value());
    }
}

#[test]
fn graphics_rotation_180() {
    let mut display = Display5in83::default();
    display.set_rotation(DisplayRotation::Rotate180);
    // horizontal line from (632,383) to (639,383), one pixel wide
    for x in 632i32..640i32 {
        display.draw(x, 383, TriColor::Black);
    }

    let buffer = display.buffer();

    assert_eq!(buffer[0], Color::Black.get_byte_value());

    for &byte in buffer.iter().skip(1) {
        assert_eq!(byte, DEFAULT_BACKGROUND_COLOR.get_byte_value());
    }
}

#[test]
fn graphics_rotation_270() {
    let mut display = Display5in83::default();
    display.set_rotation(DisplayRotation::Rotate270);
    // vertical line from (383,0) to (383,7), one pixel wide
    for y in 0i32..8i32 {
        display.draw(383, y, TriColor::Black);
    }

    let buffer = display.buffer();

    assert_eq!(buffer[0], Color::Black.get_byte_value());

    for &byte in buffer.iter().skip(1) {
        assert_eq!(byte, DEFAULT_BACKGROUND_COLOR.get_byte_value());
    }
}
