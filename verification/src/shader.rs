//! The pieces of the GPU realisation of the renderer that need no GPU.

pub mod pipeline;
pub mod primitive;
pub mod program;
