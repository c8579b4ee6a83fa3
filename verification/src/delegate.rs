//! The application delegate's decisions. The delegate's command plumbing
//! belongs to the windowing layer; the decision of what a save does — the
//! part worth getting right — lives here.

use vstd::prelude::*;

verus! {

/// The application delegate.
#[derive(Debug, Default)]
pub struct Delegate;

/// What a save command must do.
#[derive(Debug, PartialEq, Eq)]
pub enum SaveAction {
    /// No file is open: nothing to write, the command is simply done.
    NoFile,
    /// The text never changed: writing would be pointless.
    Unchanged,
    /// Write the current text to this path.
    Write(String),
}

impl Delegate {
    /// Decides a save: nothing without an open file, nothing when the text
    /// is unchanged, otherwise a write of the open file's path — exactly
    /// one of the three, decided by the state alone.
    pub fn save_file(
        current_file: &Option<String>,
        input_text: &String,
        origin_text: &String,
    ) -> (r: SaveAction)
        ensures
            current_file is None ==> r is NoFile,
            (current_file is Some && input_text@ == origin_text@) ==> r is Unchanged,
            (current_file is Some && input_text@ != origin_text@) ==> (
            r matches SaveAction::Write(path) && path@ == current_file->0@),
    {
        match current_file {
            None => SaveAction::NoFile,
            Some(path) => {
                if input_text.eq(origin_text) {
                    SaveAction::Unchanged
                } else {
                    SaveAction::Write(path.clone())
                }
            },
        }
    }
}

} // verus!
