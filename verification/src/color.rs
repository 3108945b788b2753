//! Colours before and after quantisation to bytes.

use vstd::prelude::*;
use crate::scalar::Scalar;

verus! {

/// Alpha value of every pixel the renderer emits.
pub const OPAQUE: u8 = 255;

/// A colour whose channels are scaled to the byte range: 0 is dark and 255
/// is full intensity.  Channels may lie outside that range or be NaN until
/// they are quantised.
#[derive(Clone, Copy, Debug)]
pub struct Color {
    pub r: Scalar,
    pub g: Scalar,
    pub b: Scalar,
}

impl Color {
    /// Black: every channel is positive zero.
    pub open spec fn black_spec() -> Color {
        Color { r: Scalar { bits: 0 }, g: Scalar { bits: 0 }, b: Scalar { bits: 0 } }
    }

    /// The colour of a ray that hits nothing, and of a surface that faces
    /// away from the light.
    pub fn black() -> (c: Color)
        ensures
            c == Color::black_spec(),
    {
        Color { r: Scalar { bits: 0 }, g: Scalar { bits: 0 }, b: Scalar { bits: 0 } }
    }

    /// The four bytes of a pixel of this colour: red, green, blue, each
    /// truncated and clamped to a byte, then the opaque alpha.
    pub open spec fn bytes(self) -> Seq<u8> {
        seq![
            self.r.byte_value() as u8,
            self.g.byte_value() as u8,
            self.b.byte_value() as u8,
            OPAQUE,
        ]
    }

    /// Quantises the colour to its four pixel bytes.
    pub fn to_rgba(self) -> (px: [u8; 4])
        ensures
            px@ == self.bytes(),
    {
        let px: [u8; 4] = [self.r.to_byte(), self.g.to_byte(), self.b.to_byte(), OPAQUE];
        assert(px@ =~= self.bytes());
        px
    }
}

/// The bytes of a pixel: those of its colour where the ray hit a surface,
/// opaque black where it did not.
pub open spec fn pixel_bytes(shaded: Option<Color>) -> Seq<u8> {
    match shaded {
        Some(c) => c.bytes(),
        None => seq![0u8, 0u8, 0u8, OPAQUE],
    }
}

/// Quantises one pixel; a miss becomes the black background.
pub fn pack_pixel(shaded: Option<Color>) -> (px: [u8; 4])
    ensures
        px@ == pixel_bytes(shaded),
{
    match shaded {
        Some(c) => c.to_rgba(),
        None => {
            let px: [u8; 4] = [0, 0, 0, OPAQUE];
            assert(px@ =~= pixel_bytes(shaded));
            px
        },
    }
}

} // verus!
