//! In-memory framebuffers: one bit-packed plane for monochrome panels, a
//! black/white plane followed by a chromatic plane for tri-color panels.
//!
//! Drawing maps a logical coordinate through the current rotation, addresses a
//! byte and bit inside each plane, and sets or clears that bit according to
//! the color's encoding. Out-of-bounds coordinates are silently dropped, so
//! drawing never fails. The byte-exact effect of every operation is given by
//! the spec functions in this module.

use crate::color::{spec_byte_fill, Color, DisplayColorRendering, TriColor};
use crate::graphics::{
    find_position, lemma_byte_index_in_plane, lemma_rotate_in_raster, outside_display,
    spec_bit_mask, spec_byte_index, spec_in_bounds, spec_line_bytes, spec_plane_len,
    spec_rotate_x, spec_rotate_y, DisplayRotation,
};
use vstd::arithmetic::mul::lemma_mul_upper_bound;
use vstd::prelude::*;

verus! {

/// A plane byte after one bit operation: the bits under `mask` are set or
/// cleared, all others keep their value.
pub open spec fn spec_apply_bit(b: u8, mask: u8, value: bool) -> u8 {
    if value {
        b | mask
    } else {
        b & !mask
    }
}

/// The plane bit a buffer holds for a physical coordinate, in the plane that
/// starts at byte `offset`.
pub open spec fn spec_pixel_bit(buf: Seq<u8>, offset: int, px: int, py: int, width: u32) -> bool {
    buf[offset + spec_byte_index(px, py, width)] & spec_bit_mask(px) != 0
}

/// The bytes of a freshly initialized tri-color buffer: the black/white plane
/// uniformly carries the background's black/white bit, the chromatic plane
/// behind it uniformly carries the background's chromatic bit.
pub open spec fn spec_tri_background(
    width: u32,
    height: u32,
    rendering: DisplayColorRendering,
    background: TriColor,
) -> Seq<u8> {
    let pl = spec_plane_len(width, height);
    Seq::new(
        (2 * pl) as nat,
        |i: int|
            if i < pl {
                spec_byte_fill(background.spec_bw_bit())
            } else {
                spec_byte_fill(background.spec_chromatic_bit(rendering))
            },
    )
}

/// The bytes of a freshly initialized monochrome buffer.
pub open spec fn spec_mono_background(width: u32, height: u32, background: Color) -> Seq<u8> {
    Seq::new(spec_plane_len(width, height) as nat, |i: int| spec_byte_fill(background.spec_bit()))
}

/// The bytes of a tri-color buffer after drawing one pixel: unchanged when the
/// coordinate is out of bounds, else exactly one bit in each plane takes the
/// color's encoding and every other bit keeps its value.
pub open spec fn spec_draw_tri(
    buf: Seq<u8>,
    width: u32,
    height: u32,
    rendering: DisplayColorRendering,
    rotation: DisplayRotation,
    x: int,
    y: int,
    color: TriColor,
) -> Seq<u8> {
    if !spec_in_bounds(x, y, width, height, rotation) {
        buf
    } else {
        let px = spec_rotate_x(x, y, width, height, rotation);
        let py = spec_rotate_y(x, y, width, height, rotation);
        let idx = spec_byte_index(px, py, width);
        let mask = spec_bit_mask(px);
        let off = spec_plane_len(width, height);
        buf.update(idx, spec_apply_bit(buf[idx], mask, color.spec_bw_bit())).update(
            idx + off,
            spec_apply_bit(buf[idx + off], mask, color.spec_chromatic_bit(rendering)),
        )
    }
}

/// The bytes of a tri-color buffer after drawing a sequence of pixels in
/// order: the last element is drawn after all the others, so later writes to
/// the same coordinate override earlier ones.
pub open spec fn spec_draw_tri_seq(
    buf: Seq<u8>,
    width: u32,
    height: u32,
    rendering: DisplayColorRendering,
    rotation: DisplayRotation,
    pixels: Seq<(i32, i32, TriColor)>,
) -> Seq<u8>
    decreases pixels.len(),
{
    if pixels.len() == 0 {
        buf
    } else {
        let p = pixels.last();
        spec_draw_tri(
            spec_draw_tri_seq(buf, width, height, rendering, rotation, pixels.drop_last()),
            width,
            height,
            rendering,
            rotation,
            p.0 as int,
            p.1 as int,
            p.2,
        )
    }
}

/// The bytes of a monochrome buffer after drawing one pixel.
pub open spec fn spec_draw_mono(
    buf: Seq<u8>,
    width: u32,
    height: u32,
    rotation: DisplayRotation,
    x: int,
    y: int,
    color: Color,
) -> Seq<u8> {
    if !spec_in_bounds(x, y, width, height, rotation) {
        buf
    } else {
        let px = spec_rotate_x(x, y, width, height, rotation);
        let py = spec_rotate_y(x, y, width, height, rotation);
        let idx = spec_byte_index(px, py, width);
        buf.update(idx, spec_apply_bit(buf[idx], spec_bit_mask(px), color.spec_bit()))
    }
}

/// The bytes of a monochrome buffer after drawing a sequence of pixels in
/// order.
pub open spec fn spec_draw_mono_seq(
    buf: Seq<u8>,
    width: u32,
    height: u32,
    rotation: DisplayRotation,
    pixels: Seq<(i32, i32, Color)>,
) -> Seq<u8>
    decreases pixels.len(),
{
    if pixels.len() == 0 {
        buf
    } else {
        let p = pixels.last();
        spec_draw_mono(
            spec_draw_mono_seq(buf, width, height, rotation, pixels.drop_last()),
            width,
            height,
            rotation,
            p.0 as int,
            p.1 as int,
            p.2,
        )
    }
}

/// Computes one plane's byte count, proving it fits the machine.
fn plane_len_bytes(width: u32, height: u32) -> (r: u64)
    ensures
        r == spec_plane_len(width, height),
{
    let line_bytes: u64 = (width as u64 + 7) / 8;
    assert(line_bytes == spec_line_bytes(width));
    assert(line_bytes <= 0x2000_0000u64);
    proof {
        lemma_mul_upper_bound(line_bytes as int, 0x2000_0000, height as int, 0xffff_ffff);
    }
    line_bytes * height as u64
}

/// Framebuffer of a tri-color panel: a black/white plane followed by a
/// chromatic plane in one contiguous allocation.
pub struct TriFrameBuffer {
    width: u32,
    height: u32,
    rendering: DisplayColorRendering,
    rotation: DisplayRotation,
    buffer: Vec<u8>,
}

impl View for TriFrameBuffer {
    type V = Seq<u8>;

    closed spec fn view(&self) -> Seq<u8> {
        self.buffer@
    }
}

impl TriFrameBuffer {
    /// Physical raster width, fixed at construction.
    pub closed spec fn spec_width(&self) -> u32 {
        self.width
    }

    /// Physical raster height, fixed at construction.
    pub closed spec fn spec_height(&self) -> u32 {
        self.height
    }

    /// Chromatic plane polarity, fixed at construction.
    pub closed spec fn spec_rendering(&self) -> DisplayColorRendering {
        self.rendering
    }

    /// Rotation applied to subsequent draws.
    pub closed spec fn spec_rotation(&self) -> DisplayRotation {
        self.rotation
    }

    /// The buffer holds exactly its two fixed-size planes.
    pub open spec fn wf(&self) -> bool {
        self@.len() == 2 * spec_plane_len(self.spec_width(), self.spec_height())
    }

    /// Byte offset of the chromatic plane inside the buffer, which is also the
    /// length of each plane.
    pub open spec fn spec_chromatic_offset(&self) -> int {
        spec_plane_len(self.spec_width(), self.spec_height())
    }

    /// Allocates both planes and fills every pixel with the background color:
    /// the initial bytes are exactly those that drawing `background` at every
    /// coordinate would leave behind.
    pub fn new(
        width: u32,
        height: u32,
        rendering: DisplayColorRendering,
        background: TriColor,
    ) -> (r: Self)
        requires
            2 * spec_plane_len(width, height) <= usize::MAX,
        ensures
            r.wf(),
            r.spec_width() == width,
            r.spec_height() == height,
            r.spec_rendering() == rendering,
            r.spec_rotation() == DisplayRotation::Rotate0,
            r@ == spec_tri_background(width, height, rendering, background),
    {
        let plane: usize = plane_len_bytes(width, height) as usize;
        let total: usize = 2 * plane;
        let bw_byte: u8 = background.get_byte_value();
        let chr_set: bool = match rendering {
            DisplayColorRendering::Negative => matches!(background, TriColor::Chromatic),
            DisplayColorRendering::Positive => !matches!(background, TriColor::Chromatic),
        };
        let chr_byte: u8 = if chr_set {
            0xff
        } else {
            0x00
        };
        assert(chr_byte == spec_byte_fill(background.spec_chromatic_bit(rendering)));
        let mut buffer: Vec<u8> = Vec::new();
        let mut i: usize = 0;
        while i < total
            invariant
                i <= total,
                total == 2 * spec_plane_len(width, height),
                plane == spec_plane_len(width, height),
                buffer@.len() == i,
                bw_byte == spec_byte_fill(background.spec_bw_bit()),
                chr_byte == spec_byte_fill(background.spec_chromatic_bit(rendering)),
                forall|j: int|
                    0 <= j < i ==> buffer@[j] == (if j < plane {
                        bw_byte
                    } else {
                        chr_byte
                    }),
            decreases total - i,
        {
            if i < plane {
                buffer.push(bw_byte);
            } else {
                buffer.push(chr_byte);
            }
            i += 1;
        }
        assert(buffer@ =~= spec_tri_background(width, height, rendering, background));
        TriFrameBuffer {
            width,
            height,
            rendering,
            rotation: DisplayRotation::Rotate0,
            buffer,
        }
    }

    /// Raster width in pixels.
    pub fn width(&self) -> (r: u32)
        ensures
            r == self.spec_width(),
    {
        self.width
    }

    /// Raster height in pixels.
    pub fn height(&self) -> (r: u32)
        ensures
            r == self.spec_height(),
    {
        self.height
    }

    /// Current rotation.
    pub fn rotation(&self) -> (r: DisplayRotation)
        ensures
            r == self.spec_rotation(),
    {
        self.rotation
    }

    /// Changes the rotation of subsequent draws; pixels already drawn keep
    /// their bytes.
    pub fn set_rotation(&mut self, rotation: DisplayRotation)
        ensures
            final(self)@ == old(self)@,
            final(self).spec_width() == old(self).spec_width(),
            final(self).spec_height() == old(self).spec_height(),
            final(self).spec_rendering() == old(self).spec_rendering(),
            final(self).spec_rotation() == rotation,
    {
        self.rotation = rotation;
    }

    /// Byte offset of the chromatic plane inside the buffer.
    pub fn chromatic_offset(&self) -> (r: usize)
        requires
            self.wf(),
        ensures
            r == self.spec_chromatic_offset(),
    {
        self.buffer.len() / 2
    }

    /// Both planes as one byte slice, the black/white plane first.
    pub fn buffer(&self) -> (r: &[u8])
        ensures
            r@ == self@,
    {
        self.buffer.as_slice()
    }

    /// The black/white plane's bytes.
    pub fn bw_buffer(&self) -> (r: &[u8])
        requires
            self.wf(),
        ensures
            r@ == self@.subrange(0, self.spec_chromatic_offset()),
    {
        let offset = self.chromatic_offset();
        vstd::slice::slice_subrange(self.buffer.as_slice(), 0, offset)
    }

    /// The chromatic plane's bytes.
    pub fn chromatic_buffer(&self) -> (r: &[u8])
        requires
            self.wf(),
        ensures
            r@ == self@.subrange(self.spec_chromatic_offset(), self@.len() as int),
    {
        let offset = self.chromatic_offset();
        let len = self.buffer.len();
        vstd::slice::slice_subrange(self.buffer.as_slice(), offset, len)
    }

    /// Both planes as one mutable byte slice, for a transport that patches
    /// bytes in place. The buffer stays well formed exactly when the caller
    /// leaves its length alone.
    pub fn get_mut_buffer(&mut self) -> (r: &mut Vec<u8>)
        ensures
            (*r)@ == old(self)@,
            final(self)@ == (*final(r))@,
            final(self).spec_width() == old(self).spec_width(),
            final(self).spec_height() == old(self).spec_height(),
            final(self).spec_rendering() == old(self).spec_rendering(),
            final(self).spec_rotation() == old(self).spec_rotation(),
    {
        &mut self.buffer
    }

    /// Draws one pixel: a no-op outside the rotated bounds, otherwise writes
    /// the color's bit into each plane at the addressed byte and leaves every
    /// other bit of the buffer unchanged.
    pub fn draw(&mut self, x: i32, y: i32, color: TriColor)
        requires
            old(self).wf(),
        ensures
            final(self).wf(),
            final(self).spec_width() == old(self).spec_width(),
            final(self).spec_height() == old(self).spec_height(),
            final(self).spec_rendering() == old(self).spec_rendering(),
            final(self).spec_rotation() == old(self).spec_rotation(),
            final(self)@ == spec_draw_tri(
                old(self)@,
                old(self).spec_width(),
                old(self).spec_height(),
                old(self).spec_rendering(),
                old(self).spec_rotation(),
                x as int,
                y as int,
                color,
            ),
            !spec_in_bounds(
                x as int,
                y as int,
                old(self).spec_width(),
                old(self).spec_height(),
                old(self).spec_rotation(),
            ) ==> final(self)@ == old(self)@,
    {
        if outside_display(x, y, self.width, self.height, self.rotation) {
            return ;
        }
        let xu = x as u32;
        let yu = y as u32;
        let offset = self.chromatic_offset();
        let buffer_len = self.buffer.len();
        assert(offset + offset == buffer_len);
        let ghost px = spec_rotate_x(x as int, y as int, self.width, self.height, self.rotation);
        let ghost py = spec_rotate_y(x as int, y as int, self.width, self.height, self.rotation);
        proof {
            lemma_rotate_in_raster(x as int, y as int, self.width, self.height, self.rotation);
            lemma_byte_index_in_plane(px, py, self.width, self.height);
        }
        let (index, mask) = find_position(xu, yu, self.width, self.height, self.rotation);
        let bw_set = matches!(color, TriColor::White);
        let chr_set = match self.rendering {
            DisplayColorRendering::Negative => matches!(color, TriColor::Chromatic),
            DisplayColorRendering::Positive => !matches!(color, TriColor::Chromatic),
        };
        let b = self.buffer[index];
        let nb: u8 = if bw_set {
            b | mask
        } else {
            b & !mask
        };
        self.buffer[index] = nb;
        let b2 = self.buffer[index + offset];
        let nb2: u8 = if chr_set {
            b2 | mask
        } else {
            b2 & !mask
        };
        self.buffer[index + offset] = nb2;
        assert(final(self)@ =~= spec_draw_tri(
            old(self)@,
            old(self).spec_width(),
            old(self).spec_height(),
            old(self).spec_rendering(),
            old(self).spec_rotation(),
            x as int,
            y as int,
            color,
        ));
    }

    /// Draws a sequence of pixels in order, each exactly as [`Self::draw`]
    /// would: later entries for the same coordinate override earlier ones.
    pub fn draw_many(&mut self, pixels: &Vec<(i32, i32, TriColor)>)
        requires
            old(self).wf(),
        ensures
            final(self).wf(),
            final(self).spec_width() == old(self).spec_width(),
            final(self).spec_height() == old(self).spec_height(),
            final(self).spec_rendering() == old(self).spec_rendering(),
            final(self).spec_rotation() == old(self).spec_rotation(),
            final(self)@ == spec_draw_tri_seq(
                old(self)@,
                old(self).spec_width(),
                old(self).spec_height(),
                old(self).spec_rendering(),
                old(self).spec_rotation(),
                pixels@,
            ),
    {
        let mut i: usize = 0;
        while i < pixels.len()
            invariant
                i <= pixels@.len(),
                self.wf(),
                self.spec_width() == old(self).spec_width(),
                self.spec_height() == old(self).spec_height(),
                self.spec_rendering() == old(self).spec_rendering(),
                self.spec_rotation() == old(self).spec_rotation(),
                self@ == spec_draw_tri_seq(
                    old(self)@,
                    old(self).spec_width(),
                    old(self).spec_height(),
                    old(self).spec_rendering(),
                    old(self).spec_rotation(),
                    pixels@.take(i as int),
                ),
            decreases pixels@.len() - i,
        {
            let p = pixels[i];
            self.draw(p.0, p.1, p.2);
            proof {
                assert(pixels@.take(i + 1).drop_last() =~= pixels@.take(i as int));
                assert(pixels@.take(i + 1).last() == pixels@[i as int]);
            }
            i += 1;
        }
        proof {
            assert(pixels@.take(pixels@.len() as int) =~= pixels@);
        }
    }
}

/// Framebuffer of a monochrome panel: a single bit-packed plane.
pub struct MonoFrameBuffer {
    width: u32,
    height: u32,
    rotation: DisplayRotation,
    buffer: Vec<u8>,
}

impl View for MonoFrameBuffer {
    type V = Seq<u8>;

    closed spec fn view(&self) -> Seq<u8> {
        self.buffer@
    }
}

impl MonoFrameBuffer {
    /// Physical raster width, fixed at construction.
    pub closed spec fn spec_width(&self) -> u32 {
        self.width
    }

    /// Physical raster height, fixed at construction.
    pub closed spec fn spec_height(&self) -> u32 {
        self.height
    }

    /// Rotation applied to subsequent draws.
    pub closed spec fn spec_rotation(&self) -> DisplayRotation {
        self.rotation
    }

    /// The buffer holds exactly its fixed-size plane.
    pub open spec fn wf(&self) -> bool {
        self@.len() == spec_plane_len(self.spec_width(), self.spec_height())
    }

    /// Allocates the plane and fills every pixel with the background color:
    /// the initial bytes are exactly those that drawing `background` at every
    /// coordinate would leave behind.
    pub fn new(width: u32, height: u32, background: Color) -> (r: Self)
        requires
            spec_plane_len(width, height) <= usize::MAX,
        ensures
            r.wf(),
            r.spec_width() == width,
            r.spec_height() == height,
            r.spec_rotation() == DisplayRotation::Rotate0,
            r@ == spec_mono_background(width, height, background),
    {
        let plane: usize = plane_len_bytes(width, height) as usize;
        let byte: u8 = background.get_byte_value();
        let mut buffer: Vec<u8> = Vec::new();
        let mut i: usize = 0;
        while i < plane
            invariant
                i <= plane,
                plane == spec_plane_len(width, height),
                buffer@.len() == i,
                byte == spec_byte_fill(background.spec_bit()),
                forall|j: int| 0 <= j < i ==> buffer@[j] == byte,
            decreases plane - i,
        {
            buffer.push(byte);
            i += 1;
        }
        assert(buffer@ =~= spec_mono_background(width, height, background));
        MonoFrameBuffer { width, height, rotation: DisplayRotation::Rotate0, buffer }
    }

    /// Raster width in pixels.
    pub fn width(&self) -> (r: u32)
        ensures
            r == self.spec_width(),
    {
        self.width
    }

    /// Raster height in pixels.
    pub fn height(&self) -> (r: u32)
        ensures
            r == self.spec_height(),
    {
        self.height
    }

    /// Current rotation.
    pub fn rotation(&self) -> (r: DisplayRotation)
        ensures
            r == self.spec_rotation(),
    {
        self.rotation
    }

    /// Changes the rotation of subsequent draws; pixels already drawn keep
    /// their bytes.
    pub fn set_rotation(&mut self, rotation: DisplayRotation)
        ensures
            final(self)@ == old(self)@,
            final(self).spec_width() == old(self).spec_width(),
            final(self).spec_height() == old(self).spec_height(),
            final(self).spec_rotation() == rotation,
    {
        self.rotation = rotation;
    }

    /// The plane's bytes.
    pub fn buffer(&self) -> (r: &[u8])
        ensures
            r@ == self@,
    {
        self.buffer.as_slice()
    }

    /// Draws one pixel: a no-op outside the rotated bounds, otherwise writes
    /// the color's bit at the addressed byte and leaves every other bit of the
    /// buffer unchanged.
    pub fn draw(&mut self, x: i32, y: i32, color: Color)
        requires
            old(self).wf(),
        ensures
            final(self).wf(),
            final(self).spec_width() == old(self).spec_width(),
            final(self).spec_height() == old(self).spec_height(),
            final(self).spec_rotation() == old(self).spec_rotation(),
            final(self)@ == spec_draw_mono(
                old(self)@,
                old(self).spec_width(),
                old(self).spec_height(),
                old(self).spec_rotation(),
                x as int,
                y as int,
                color,
            ),
            !spec_in_bounds(
                x as int,
                y as int,
                old(self).spec_width(),
                old(self).spec_height(),
                old(self).spec_rotation(),
            ) ==> final(self)@ == old(self)@,
    {
        if outside_display(x, y, self.width, self.height, self.rotation) {
            return ;
        }
        let xu = x as u32;
        let yu = y as u32;
        let buffer_len = self.buffer.len();
        assert(spec_plane_len(self.spec_width(), self.spec_height()) == buffer_len);
        proof {
            lemma_rotate_in_raster(x as int, y as int, self.width, self.height, self.rotation);
        }
        let (index, mask) = find_position(xu, yu, self.width, self.height, self.rotation);
        let set_bit = matches!(color, Color::White);
        let b = self.buffer[index];
        let nb: u8 = if set_bit {
            b | mask
        } else {
            b & !mask
        };
        self.buffer[index] = nb;
        assert(final(self)@ =~= spec_draw_mono(
            old(self)@,
            old(self).spec_width(),
            old(self).spec_height(),
            old(self).spec_rotation(),
            x as int,
            y as int,
            color,
        ));
    }

    /// Draws a sequence of pixels in order, each exactly as [`Self::draw`]
    /// would: later entries for the same coordinate override earlier ones.
    pub fn draw_many(&mut self, pixels: &Vec<(i32, i32, Color)>)
        requires
            old(self).wf(),
        ensures
            final(self).wf(),
            final(self).spec_width() == old(self).spec_width(),
            final(self).spec_height() == old(self).spec_height(),
            final(self).spec_rotation() == old(self).spec_rotation(),
            final(self)@ == spec_draw_mono_seq(
                old(self)@,
                old(self).spec_width(),
                old(self).spec_height(),
                old(self).spec_rotation(),
                pixels@,
            ),
    {
        let mut i: usize = 0;
        while i < pixels.len()
            invariant
                i <= pixels@.len(),
                self.wf(),
                self.spec_width() == old(self).spec_width(),
                self.spec_height() == old(self).spec_height(),
                self.spec_rotation() == old(self).spec_rotation(),
                self@ == spec_draw_mono_seq(
                    old(self)@,
                    old(self).spec_width(),
                    old(self).spec_height(),
                    old(self).spec_rotation(),
                    pixels@.take(i as int),
                ),
            decreases pixels@.len() - i,
        {
            let p = pixels[i];
            self.draw(p.0, p.1, p.2);
            proof {
                assert(pixels@.take(i + 1).drop_last() =~= pixels@.take(i as int));
                assert(pixels@.take(i + 1).last() == pixels@[i as int]);
            }
            i += 1;
        }
        proof {
            assert(pixels@.take(pixels@.len() as int) =~= pixels@);
        }
    }
}

} // verus!
