//! The parameters of one render.

use vstd::prelude::*;
use crate::scalar::Scalar;
use crate::tracer::TraceLimits;

verus! {

/// A point or direction in world space.
#[derive(Clone, Copy, Debug)]
pub struct Vec3 {
    pub x: Scalar,
    pub y: Scalar,
    pub z: Scalar,
}

/// What a render is made from.  The value is not changed by rendering.
#[derive(Clone, Copy, Debug)]
pub struct ImageParameters {
    pub image_width: u32,
    pub image_height: u32,
    pub camera_position: Vec3,
    pub camera_direction: Vec3,
    pub max_steps: i32,
    pub min_distance: Scalar,
}

impl ImageParameters {
    /// The image has pixels, the ray has a step budget, and the hit
    /// threshold is greater than zero.
    pub open spec fn valid(&self) -> bool {
        &&& self.image_width > 0
        &&& self.image_height > 0
        &&& self.max_steps > 0
        &&& self.min_distance.is_positive()
    }

    /// Number of pixels of the image.
    pub open spec fn pixel_count(&self) -> int {
        self.image_width * self.image_height
    }

    /// Number of bytes of the rendered image, four to a pixel.
    pub open spec fn buffer_size(&self) -> int {
        4 * self.pixel_count()
    }

    /// Whether the parameters are valid.
    pub fn is_valid(&self) -> (ok: bool)
        ensures
            ok == self.valid(),
    {
        self.image_width > 0 && self.image_height > 0 && self.max_steps > 0
            && self.min_distance.positive()
    }

    /// The bounds of a march through a scene that ends at `max_distance`.
    pub fn trace_limits(&self, max_distance: Scalar) -> (limits: TraceLimits)
        ensures
            limits == (TraceLimits {
                max_steps: self.max_steps,
                min_distance: self.min_distance,
                max_distance,
            }),
    {
        TraceLimits { max_steps: self.max_steps, min_distance: self.min_distance, max_distance }
    }

    /// The length of the rendered buffer, or `None` where no buffer of this
    /// machine can be that long.
    pub fn buffer_len(&self) -> (len: Option<usize>)
        ensures
            match len {
                Some(n) => n == self.buffer_size(),
                None => self.buffer_size() > usize::MAX,
            },
    {
        let w: u128 = self.image_width as u128;
        let h: u128 = self.image_height as u128;
        assert(w * h <= 0xffff_ffff * 0xffff_ffff) by (nonlinear_arith)
            requires
                0 <= w <= 0xffff_ffff,
                0 <= h <= 0xffff_ffff,
        ;
        let bytes: u128 = 4 * (w * h);
        if bytes <= usize::MAX as u128 {
            Some(bytes as usize)
        } else {
            None
        }
    }
}

} // verus!
