//! The primitive that the shader widget draws.

use vstd::prelude::*;

verus! {

/// One frame's worth of drawing.  It carries no data: the pipelines hold
/// everything a frame needs.
#[derive(Debug)]
pub struct ShaderPrimitive {}

impl ShaderPrimitive {
    pub fn new() -> (p: ShaderPrimitive)
        ensures
            p == (ShaderPrimitive {}),
    {
        ShaderPrimitive {}
    }
}

} // verus!
