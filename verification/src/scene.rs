//! The scene panel of the host interface: what it can be told and what it
//! asks of the host in return.

use vstd::prelude::*;

verus! {

/// What the panel can be told.
#[derive(Debug, Clone)]
pub enum Message {
    /// Render the image anew.
    Render,
    /// The text of the width field changed.
    ChangeWidth(String),
    /// The text of the height field changed.
    ChangeHeight(String),
}

/// What the panel asks of the host after a message.
pub enum Action {
    /// Render the image anew.
    Render,
    /// The size of the image changed.
    ChangeImage,
    /// Nothing is asked.
    Nothing,
}

/// The panel.  It holds no state of its own.
pub struct Scene {}

impl Scene {
    pub fn new() -> (s: Scene)
        ensures
            s == (Scene {}),
    {
        Scene {}
    }
}

} // verus!
