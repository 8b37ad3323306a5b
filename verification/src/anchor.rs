//! Which of the windows is shown.
use vstd::prelude::*;

verus! {

/// The mark of the window that is shown.
#[derive(Copy, Clone, Debug, Eq, PartialEq, Structural)]
pub enum Anchor {
    /// The model with its plots and the table of measured points.
    Main,
    /// The Cornu spiral explained.
    Doc,
    /// The presets of the window.
    Setting,
}

impl Default for Anchor {
    fn default() -> (r: Self)
        ensures
            r == Anchor::Main,
    {
        Anchor::Main
    }
}

} // verus!
