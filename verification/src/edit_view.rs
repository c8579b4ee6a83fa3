//! The drawing surface for the edited text. The widget behaviour — events,
//! layout, painting — belongs to the windowing layer; the library only
//! defines the handle it keeps.

use vstd::prelude::*;

verus! {

/// The text-drawing pane.
pub struct EditView {}

impl EditView {
    /// A fresh pane.
    pub fn new() -> (r: EditView)
        ensures
            r == (EditView {  }),
    {
        EditView {  }
    }
}

} // verus!
