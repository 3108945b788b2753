//! The application model: what the window shows.

use vstd::prelude::*;
use crate::shader::program::ShaderProgram;

verus! {

/// The application: one shader widget that fills the window.
pub struct App {
    pub program: ShaderProgram,
}

/// The title of the window.
pub open spec fn title_spec() -> Seq<char> {
    "Fractal Renderer"@
}

impl App {
    pub fn new() -> (app: App)
        ensures
            app == (App { program: ShaderProgram {} }),
    {
        App { program: ShaderProgram::new() }
    }

    /// The title of the window.
    pub fn title(&self) -> (t: String)
        ensures
            t@ == title_spec(),
    {
        "Fractal Renderer".to_owned()
    }
}

} // verus!
