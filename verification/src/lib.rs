//! Off-screen framebuffers for bi-level and multi-plane electronic-paper
//! displays.
//!
//! A framebuffer owns one or more bit-packed byte planes. Drawing a pixel maps
//! a logical coordinate through the current rotation to a physical coordinate,
//! addresses a byte and a bit inside each plane, and sets or clears that bit
//! according to the color's per-plane encoding. The raw plane bytes can then be
//! handed verbatim to a display transport.

pub mod color;
pub mod epd5in83b_v2;
pub mod framebuffer;
pub mod graphics;
pub mod laws;
