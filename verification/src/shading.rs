//! The part of point-light shading that is a decision: a surface that faces
//! away from the light is black.

use vstd::prelude::*;
use crate::color::Color;
use crate::scalar::Scalar;

verus! {

/// The surface faces away from the light, or is edge-on to it: the cosine of
/// the angle between its normal and the direction of the light is at most
/// zero.  False of a NaN.
pub open spec fn faces_away(lambertian: Scalar) -> bool {
    lambertian.at_most(Scalar { bits: 0 })
}

/// Whether a surface with this cosine is unlit.
pub fn is_unlit(lambertian: Scalar) -> (r: bool)
    ensures
        r == faces_away(lambertian),
{
    lambertian.le(Scalar::from_bits(0))
}

/// The greater of zero and `angle`: the cosine that the specular highlight
/// is raised from.  A NaN gives zero.
pub open spec fn clamped_angle(angle: Scalar) -> Scalar {
    if angle.is_positive() {
        angle
    } else {
        Scalar { bits: 0 }
    }
}

/// Clamps the cosine between the half vector and the normal at zero.
pub fn specular_angle(angle: Scalar) -> (clamped: Scalar)
    ensures
        clamped == clamped_angle(angle),
{
    if angle.positive() {
        angle
    } else {
        Scalar::from_bits(0)
    }
}

/// Shades a hit.  `lambertian` is the cosine between the surface normal and
/// the direction of the light; `lit` computes the colour of a lit surface.
/// An unlit surface is black, and `lit` is not called for it: there is no
/// ambient light.
pub fn shade<F: FnOnce() -> Color>(lambertian: Scalar, lit: F) -> (c: Color)
    requires
        !faces_away(lambertian) ==> call_requires(lit, ()),
    ensures
        faces_away(lambertian) ==> c == Color::black_spec(),
        !faces_away(lambertian) ==> call_ensures(lit, (), c),
{
    if is_unlit(lambertian) {
        Color::black()
    } else {
        lit()
    }
}

} // verus!
