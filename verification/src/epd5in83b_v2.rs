//! The 5.83 inch black/white/chromatic panel: model constants and its
//! full-size framebuffer.

use crate::color::{DisplayColorRendering, TriColor};
use crate::framebuffer::{spec_draw_tri, spec_draw_tri_seq, spec_tri_background, TriFrameBuffer};
use crate::graphics::{spec_in_bounds, spec_plane_len, DisplayRotation};
use vstd::prelude::*;

verus! {

/// Width of the display raster in pixels.
pub const WIDTH: u32 = 640;

/// Height of the display raster in pixels.
pub const HEIGHT: u32 = 240;

/// Bytes of one bit-packed display plane.
pub const NUM_DISPLAY_BITS: u32 = WIDTH * HEIGHT / 8;

/// Color every pixel of a fresh buffer starts with.
pub const DEFAULT_BACKGROUND_COLOR: TriColor = TriColor::Black;

/// This model marks chromatic pixels with a set chromatic plane bit.
pub const RENDERING: DisplayColorRendering = DisplayColorRendering::Negative;

/// Full-size buffer for the 5.83 inch panel: a black/white plane and a
/// chromatic plane of [`NUM_DISPLAY_BITS`] bytes each.
pub struct Display5in83 {
    fb: TriFrameBuffer,
}

impl View for Display5in83 {
    type V = Seq<u8>;

    closed spec fn view(&self) -> Seq<u8> {
        self.fb@
    }
}

impl Display5in83 {
    /// Rotation applied to subsequent draws.
    pub closed spec fn spec_rotation(&self) -> DisplayRotation {
        self.fb.spec_rotation()
    }

    /// The planes are full-size and the model's constants are in force.
    pub closed spec fn inv(&self) -> bool {
        &&& self.fb.wf()
        &&& self.fb.spec_width() == WIDTH
        &&& self.fb.spec_height() == HEIGHT
        &&& self.fb.spec_rendering() == RENDERING
    }

    /// A well-formed buffer holds both full-size planes.
    pub proof fn lemma_inv_len(&self)
        requires
            self.inv(),
        ensures
            self@.len() == 2 * NUM_DISPLAY_BITS,
            NUM_DISPLAY_BITS == spec_plane_len(WIDTH, HEIGHT),
    {
    }

    /// Draws one pixel: a no-op outside the rotated bounds, otherwise writes
    /// the color's encoding into both planes and leaves every other bit
    /// unchanged.
    pub fn draw(&mut self, x: i32, y: i32, color: TriColor)
        requires
            old(self).inv(),
        ensures
            final(self).inv(),
            final(self).spec_rotation() == old(self).spec_rotation(),
            final(self)@ == spec_draw_tri(
                old(self)@,
                WIDTH,
                HEIGHT,
                RENDERING,
                old(self).spec_rotation(),
                x as int,
                y as int,
                color,
            ),
            !spec_in_bounds(x as int, y as int, WIDTH, HEIGHT, old(self).spec_rotation())
                ==> final(self)@ == old(self)@,
    {
        self.fb.draw(x, y, color);
    }

    /// Draws a sequence of pixels in order: later entries for the same
    /// coordinate override earlier ones.
    pub fn draw_many(&mut self, pixels: &Vec<(i32, i32, TriColor)>)
        requires
            old(self).inv(),
        ensures
            final(self).inv(),
            final(self).spec_rotation() == old(self).spec_rotation(),
            final(self)@ == spec_draw_tri_seq(
                old(self)@,
                WIDTH,
                HEIGHT,
                RENDERING,
                old(self).spec_rotation(),
                pixels@,
            ),
    {
        self.fb.draw_many(pixels);
    }

    /// Both planes as one byte slice, the black/white plane first.
    pub fn buffer(&self) -> (r: &[u8])
        ensures
            r@ == self@,
    {
        self.fb.buffer()
    }

    /// Both planes as one mutable byte slice. The buffer stays well formed
    /// exactly when the caller leaves its length alone.
    pub fn get_mut_buffer(&mut self) -> (r: &mut Vec<u8>)
        ensures
            (*r)@ == old(self)@,
            final(self)@ == (*final(r))@,
            final(self).spec_rotation() == old(self).spec_rotation(),
            old(self).inv() && (*final(r))@.len() == (*r)@.len() ==> final(self).inv(),
    {
        self.fb.get_mut_buffer()
    }

    /// Changes the rotation of subsequent draws; pixels already drawn keep
    /// their bytes.
    pub fn set_rotation(&mut self, rotation: DisplayRotation)
        ensures
            final(self)@ == old(self)@,
            final(self).inv() == old(self).inv(),
            final(self).spec_rotation() == rotation,
    {
        self.fb.set_rotation(rotation);
    }

    /// Current rotation.
    pub fn rotation(&self) -> (r: DisplayRotation)
        ensures
            r == self.spec_rotation(),
    {
        self.fb.rotation()
    }

    /// Byte offset of the chromatic plane inside the buffer.
    pub fn chromatic_offset(&self) -> (r: usize)
        requires
            self.inv(),
        ensures
            r == NUM_DISPLAY_BITS,
    {
        self.fb.chromatic_offset()
    }

    /// The black/white plane's bytes.
    pub fn bw_buffer(&self) -> (r: &[u8])
        requires
            self.inv(),
        ensures
            r@ == self@.subrange(0, NUM_DISPLAY_BITS as int),
    {
        self.fb.bw_buffer()
    }

    /// The chromatic plane's bytes.
    pub fn chromatic_buffer(&self) -> (r: &[u8])
        requires
            self.inv(),
        ensures
            r@ == self@.subrange(NUM_DISPLAY_BITS as int, 2 * NUM_DISPLAY_BITS as int),
    {
        proof {
            self.lemma_inv_len();
        }
        self.fb.chromatic_buffer()
    }
}

impl Default for Display5in83 {
    /// A fresh, unrotated buffer with every pixel set to the model's
    /// background color: bit-identical to drawing that color at every
    /// coordinate.
    fn default() -> (r: Self)
        ensures
            r.inv(),
            r.spec_rotation() == DisplayRotation::Rotate0,
            r@ == spec_tri_background(WIDTH, HEIGHT, RENDERING, DEFAULT_BACKGROUND_COLOR),
    {
        Display5in83 { fb: TriFrameBuffer::new(WIDTH, HEIGHT, RENDERING, DEFAULT_BACKGROUND_COLOR) }
    }
}

} // verus!
