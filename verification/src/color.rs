//! Logical colors and their per-plane bit encodings.
//!
//! Display hardware stores one bit per pixel and plane. Each logical color of
//! a model's palette maps to a fixed bit value in every plane; the mapping is
//! total over the palette and fixed per model. Monochrome panels have a single
//! black/white plane; tri-color panels add a chromatic plane whose polarity
//! differs between model families (see [`DisplayColorRendering`]).

use vstd::prelude::*;

verus! {

/// A fully set or fully cleared plane byte, the building block of background
/// fills: eight pixels that all carry the same plane bit.
pub open spec fn spec_byte_fill(bit: bool) -> u8 {
    if bit {
        0xffu8
    } else {
        0x00u8
    }
}

/// Palette of a monochrome panel.
#[derive(Clone, Copy, PartialEq, Eq, Debug, Structural)]
pub enum Color {
    /// A dark pixel.
    Black,
    /// A light pixel.
    White,
}

impl Color {
    /// The bit this color writes into the single black/white plane:
    /// white is set, black is cleared.
    pub open spec fn spec_bit(self) -> bool {
        self == Color::White
    }

    /// The plane bit of this color as an integer.
    pub fn get_bit_value(self) -> (r: u8)
        ensures
            r == (if self.spec_bit() { 1u8 } else { 0u8 }),
    {
        match self {
            Color::White => 1,
            Color::Black => 0,
        }
    }

    /// A plane byte holding eight pixels of this color.
    pub fn get_byte_value(self) -> (r: u8)
        ensures
            r == spec_byte_fill(self.spec_bit()),
    {
        match self {
            Color::White => 0xff,
            Color::Black => 0x00,
        }
    }
}

/// The color a monochrome plane bit decodes back to.
pub open spec fn spec_decode_mono(bit: bool) -> Color {
    if bit {
        Color::White
    } else {
        Color::Black
    }
}

/// Reads a monochrome plane bit back as a color.
pub fn decode_mono(bit: bool) -> (r: Color)
    ensures
        r == spec_decode_mono(bit),
{
    if bit {
        Color::White
    } else {
        Color::Black
    }
}

/// Every color of the monochrome palette survives an encode/decode round trip,
/// so no two distinct colors share a plane bit.
pub proof fn lemma_mono_round_trip(c: Color)
    ensures
        spec_decode_mono(c.spec_bit()) == c,
{
}

/// Polarity of the chromatic plane, fixed per display model.
///
/// Both conventions exist in shipped panels: under `Negative` the chromatic
/// plane bit is set exactly for chromatic pixels, under `Positive` it is the
/// inverse. The black/white plane is encoded the same way in both.
#[derive(Clone, Copy, PartialEq, Eq, Debug, Structural)]
pub enum DisplayColorRendering {
    /// Chromatic plane bit cleared marks a chromatic pixel.
    Positive,
    /// Chromatic plane bit set marks a chromatic pixel.
    Negative,
}

/// Palette of a panel with a black/white plane and a chromatic plane.
#[derive(Clone, Copy, PartialEq, Eq, Debug, Structural)]
pub enum TriColor {
    /// A dark pixel.
    Black,
    /// A light pixel.
    White,
    /// A pixel of the panel's third color (red or yellow).
    Chromatic,
}

impl TriColor {
    /// The bit this color writes into the black/white plane:
    /// only white is set.
    pub open spec fn spec_bw_bit(self) -> bool {
        self == TriColor::White
    }

    /// The bit this color writes into the chromatic plane, under the model's
    /// polarity.
    pub open spec fn spec_chromatic_bit(self, rendering: DisplayColorRendering) -> bool {
        match rendering {
            DisplayColorRendering::Negative => self == TriColor::Chromatic,
            DisplayColorRendering::Positive => self != TriColor::Chromatic,
        }
    }

    /// The black/white plane bit of this color as an integer.
    pub fn get_bit_value(self) -> (r: u8)
        ensures
            r == (if self.spec_bw_bit() { 1u8 } else { 0u8 }),
    {
        match self {
            TriColor::White => 1,
            TriColor::Black => 0,
            TriColor::Chromatic => 0,
        }
    }

    /// A black/white plane byte holding eight pixels of this color.
    pub fn get_byte_value(self) -> (r: u8)
        ensures
            r == spec_byte_fill(self.spec_bw_bit()),
    {
        match self {
            TriColor::White => 0xff,
            TriColor::Black => 0x00,
            TriColor::Chromatic => 0x00,
        }
    }
}

/// The color a pair of plane bits decodes back to, or `None` for the one bit
/// pattern that no color of the palette produces.
pub open spec fn spec_decode_tri(
    bw: bool,
    chromatic: bool,
    rendering: DisplayColorRendering,
) -> Option<TriColor> {
    let marks_chromatic = (rendering == DisplayColorRendering::Negative) == chromatic;
    if marks_chromatic {
        if bw {
            None
        } else {
            Some(TriColor::Chromatic)
        }
    } else {
        if bw {
            Some(TriColor::White)
        } else {
            Some(TriColor::Black)
        }
    }
}

/// Reads a pair of plane bits back as a color.
pub fn decode_tri(bw: bool, chromatic: bool, rendering: DisplayColorRendering) -> (r: Option<
    TriColor,
>)
    ensures
        r == spec_decode_tri(bw, chromatic, rendering),
{
    let marks_chromatic = matches!(rendering, DisplayColorRendering::Negative) == chromatic;
    if marks_chromatic {
        if bw {
            None
        } else {
            Some(TriColor::Chromatic)
        }
    } else {
        if bw {
            Some(TriColor::White)
        } else {
            Some(TriColor::Black)
        }
    }
}

/// Every color of the tri-color palette survives an encode/decode round trip
/// under either polarity.
pub proof fn lemma_tri_round_trip(c: TriColor, rendering: DisplayColorRendering)
    ensures
        spec_decode_tri(c.spec_bw_bit(), c.spec_chromatic_bit(rendering), rendering) == Some(c),
{
}

/// No two distinct colors of the tri-color palette produce the same pair of
/// plane bits under a fixed polarity.
pub proof fn lemma_tri_encoding_injective(
    c1: TriColor,
    c2: TriColor,
    rendering: DisplayColorRendering,
)
    requires
        c1.spec_bw_bit() == c2.spec_bw_bit(),
        c1.spec_chromatic_bit(rendering) == c2.spec_chromatic_bit(rendering),
    ensures
        c1 == c2,
{
}

} // verus!
