//! The program behind the shader widget.

use vstd::prelude::*;
use crate::shader::primitive::ShaderPrimitive;

verus! {

/// State the widget keeps between events.
#[derive(Clone, Copy, Debug, PartialEq, Eq, Structural)]
pub enum State {
    Idle,
}

impl Default for State {
    fn default() -> (s: State)
        ensures
            s == State::Idle,
    {
        State::Idle
    }
}

/// The program: it draws the same primitive whatever the state.
pub struct ShaderProgram {}

impl ShaderProgram {
    pub fn new() -> (p: ShaderProgram)
        ensures
            p == (ShaderProgram {}),
    {
        ShaderProgram {}
    }

    /// The primitive to draw in `state`.
    pub fn draw(&self, state: &State) -> (p: ShaderPrimitive)
        ensures
            p == (ShaderPrimitive {}),
    {
        ShaderPrimitive::new()
    }
}

} // verus!
