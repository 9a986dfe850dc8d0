//! Rotation of logical coordinates and byte/bit addressing inside a plane.
//!
//! A plane stores a `width` x `height` physical raster row-major, eight pixels
//! per byte, most significant bit leftmost. A logical coordinate is first
//! checked against the rotated bounds, then mapped to the physical raster,
//! then to a byte index and a single-bit mask.

use vstd::arithmetic::div_mod::lemma_fundamental_div_mod;
use vstd::arithmetic::mul::lemma_mul_inequality;
use vstd::prelude::*;

verus! {

/// Quarter-turn rotation applied to logical coordinates before addressing.
#[derive(Clone, Copy, PartialEq, Eq, Debug, Structural)]
pub enum DisplayRotation {
    /// No rotation.
    Rotate0,
    /// Rotate by 90 degrees clockwise.
    Rotate90,
    /// Rotate by 180 degrees clockwise.
    Rotate180,
    /// Rotate by 270 degrees clockwise.
    Rotate270,
}

impl Default for DisplayRotation {
    /// A fresh framebuffer starts unrotated.
    fn default() -> (r: Self)
        ensures
            r == DisplayRotation::Rotate0,
    {
        DisplayRotation::Rotate0
    }
}

/// Number of bytes in one packed row of a plane: eight pixels per byte, the
/// last byte of a row padded when the width is not a multiple of eight.
pub open spec fn spec_line_bytes(width: u32) -> int {
    (width + 7) / 8
}

/// Number of bytes in one bit-packed plane.
pub open spec fn spec_plane_len(width: u32, height: u32) -> int {
    spec_line_bytes(width) * height
}

/// Whether a logical coordinate lies on the rotated display: the logical
/// bounds are `width` x `height` when unrotated or upside down, and swap for
/// the quarter turns.
pub open spec fn spec_in_bounds(
    x: int,
    y: int,
    width: u32,
    height: u32,
    rotation: DisplayRotation,
) -> bool {
    match rotation {
        DisplayRotation::Rotate0 | DisplayRotation::Rotate180 => 0 <= x < width && 0 <= y
            < height,
        DisplayRotation::Rotate90 | DisplayRotation::Rotate270 => 0 <= x < height && 0 <= y
            < width,
    }
}

/// Physical column addressed by an in-bounds logical coordinate.
pub open spec fn spec_rotate_x(
    x: int,
    y: int,
    width: u32,
    height: u32,
    rotation: DisplayRotation,
) -> int {
    match rotation {
        DisplayRotation::Rotate0 => x,
        DisplayRotation::Rotate90 => width - 1 - y,
        DisplayRotation::Rotate180 => width - 1 - x,
        DisplayRotation::Rotate270 => y,
    }
}

/// Physical row addressed by an in-bounds logical coordinate.
pub open spec fn spec_rotate_y(
    x: int,
    y: int,
    width: u32,
    height: u32,
    rotation: DisplayRotation,
) -> int {
    match rotation {
        DisplayRotation::Rotate0 => y,
        DisplayRotation::Rotate90 => x,
        DisplayRotation::Rotate180 => height - 1 - y,
        DisplayRotation::Rotate270 => height - 1 - x,
    }
}

/// An in-bounds logical coordinate always lands inside the physical raster.
pub proof fn lemma_rotate_in_raster(
    x: int,
    y: int,
    width: u32,
    height: u32,
    rotation: DisplayRotation,
)
    requires
        spec_in_bounds(x, y, width, height, rotation),
    ensures
        0 <= spec_rotate_x(x, y, width, height, rotation) < width,
        0 <= spec_rotate_y(x, y, width, height, rotation) < height,
{
}

/// Byte index of a physical coordinate inside its plane.
pub open spec fn spec_byte_index(px: int, py: int, width: u32) -> int {
    py * spec_line_bytes(width) + px / 8
}

/// Single-bit mask of a physical coordinate inside its byte: the most
/// significant bit is the leftmost pixel of the byte.
pub open spec fn spec_bit_mask(px: int) -> u8 {
    0x80u8 >> ((px % 8) as u8)
}

/// A physical coordinate inside the raster is addressed inside the plane.
pub proof fn lemma_byte_index_in_plane(px: int, py: int, width: u32, height: u32)
    requires
        0 <= px < width,
        0 <= py < height,
    ensures
        0 <= spec_byte_index(px, py, width) < spec_plane_len(width, height),
        py * spec_line_bytes(width) <= spec_byte_index(px, py, width),
{
    let lb = spec_line_bytes(width);
    lemma_fundamental_div_mod(width + 7, 8);
    assert(0 <= lb && width <= 8 * lb);
    lemma_fundamental_div_mod(px, 8);
    assert(0 <= px / 8 && px / 8 < lb);
    lemma_mul_inequality(0, py, lb);
    lemma_mul_inequality(py, height - 1, lb);
    assert((height - 1) * lb + lb == height * lb) by (nonlinear_arith);
    assert(height * lb == lb * height) by (nonlinear_arith);
    assert(height * lb == spec_plane_len(width, height));
}

/// Two distinct physical coordinates of the raster never share both byte index
/// and bit mask: the addressing is injective.
pub proof fn lemma_address_injective(px1: int, py1: int, px2: int, py2: int, width: u32)
    requires
        0 <= px1 < width,
        0 <= px2 < width,
        0 <= py1,
        0 <= py2,
        spec_byte_index(px1, py1, width) == spec_byte_index(px2, py2, width),
        spec_bit_mask(px1) == spec_bit_mask(px2),
    ensures
        px1 == px2,
        py1 == py2,
{
    let lb = spec_line_bytes(width);
    lemma_fundamental_div_mod(width + 7, 8);
    assert(0 <= lb && width <= 8 * lb);
    lemma_fundamental_div_mod(px1, 8);
    lemma_fundamental_div_mod(px2, 8);
    assert(0 <= px1 / 8 && px1 / 8 < lb);
    assert(0 <= px2 / 8 && px2 / 8 < lb);
    let m1 = (px1 % 8) as u8;
    let m2 = (px2 % 8) as u8;
    assert(m1 < 8 && m2 < 8);
    assert((0x80u8 >> m1) == (0x80u8 >> m2) && m1 < 8 && m2 < 8 ==> m1 == m2) by (bit_vector);
    if py1 < py2 {
        lemma_mul_inequality(py1 + 1, py2, lb);
        assert((py1 + 1) * lb == py1 * lb + lb) by (nonlinear_arith);
        assert(false);
    }
    if py2 < py1 {
        lemma_mul_inequality(py2 + 1, py1, lb);
        assert((py2 + 1) * lb == py2 * lb + lb) by (nonlinear_arith);
        assert(false);
    }
}

/// Maps an in-bounds logical coordinate to the physical coordinate used for
/// addressing.
pub fn find_rotation(x: u32, y: u32, width: u32, height: u32, rotation: DisplayRotation) -> (r: (
    u32,
    u32,
))
    requires
        spec_in_bounds(x as int, y as int, width, height, rotation),
    ensures
        r.0 == spec_rotate_x(x as int, y as int, width, height, rotation),
        r.1 == spec_rotate_y(x as int, y as int, width, height, rotation),
{
    match rotation {
        DisplayRotation::Rotate0 => (x, y),
        DisplayRotation::Rotate90 => (width - 1 - y, x),
        DisplayRotation::Rotate180 => (width - 1 - x, height - 1 - y),
        DisplayRotation::Rotate270 => (y, height - 1 - x),
    }
}

/// Whether a logical coordinate lies on the rotated display.
pub fn outside_display(x: i32, y: i32, width: u32, height: u32, rotation: DisplayRotation) -> (r:
    bool)
    ensures
        r == !spec_in_bounds(x as int, y as int, width, height, rotation),
{
    if x < 0 || y < 0 {
        return true;
    }
    let xu = x as u32;
    let yu = y as u32;
    match rotation {
        DisplayRotation::Rotate0 | DisplayRotation::Rotate180 => xu >= width || yu >= height,
        DisplayRotation::Rotate90 | DisplayRotation::Rotate270 => xu >= height || yu >= width,
    }
}

/// Maps an in-bounds logical coordinate to the byte index and single-bit mask
/// addressing it inside a plane.
pub fn find_position(x: u32, y: u32, width: u32, height: u32, rotation: DisplayRotation) -> (r: (
    usize,
    u8,
))
    requires
        spec_in_bounds(x as int, y as int, width, height, rotation),
        spec_plane_len(width, height) <= usize::MAX,
    ensures
        r.0 == spec_byte_index(
            spec_rotate_x(x as int, y as int, width, height, rotation),
            spec_rotate_y(x as int, y as int, width, height, rotation),
            width,
        ),
        r.1 == spec_bit_mask(spec_rotate_x(x as int, y as int, width, height, rotation)),
        r.0 < spec_plane_len(width, height),
{
    let (nx, ny) = find_rotation(x, y, width, height, rotation);
    proof {
        lemma_rotate_in_raster(x as int, y as int, width, height, rotation);
        lemma_byte_index_in_plane(nx as int, ny as int, width, height);
        lemma_fundamental_div_mod(width as int + 7, 8);
    }
    let line_bytes_64: u64 = (width as u64 + 7) / 8;
    assert(line_bytes_64 == spec_line_bytes(width));
    assert(line_bytes_64 <= 0x2000_0000u64);
    let line_bytes: usize = line_bytes_64 as usize;
    proof {
        lemma_mul_inequality(ny as int, height as int, line_bytes as int);
        assert(ny as int * line_bytes as int <= spec_plane_len(width, height));
    }
    let index: usize = ny as usize * line_bytes + (nx / 8) as usize;
    let mask: u8 = 0x80u8 >> (nx % 8) as u8;
    proof {
        assert((nx % 8) as u8 == (nx as int % 8) as u8);
    }
    (index, mask)
}

} // verus!
