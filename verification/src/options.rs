//! The options panel.  It offers nothing to change yet, so every key is
//! answered with nothing to do; the drawing lives with the surrounding
//! program.

use vstd::prelude::*;

use crate::keys::KeyEvent;
use crate::window::Operation;

verus! {

/// The (so far empty) options panel.
pub struct OptionsPanel {}

impl OptionsPanel {
    /// A fresh options panel.
    pub fn new() -> (r: OptionsPanel) {
        OptionsPanel {  }
    }

    /// The panel has nothing to change, so no key does anything.
    pub fn handleKeyEvent(&mut self, key: &KeyEvent) -> (r: Operation)
        ensures
            r is Nothing,
    {
        let _ = key;
        Operation::Nothing
    }
}

impl Default for OptionsPanel {
    /// A fresh options panel.
    fn default() -> (r: OptionsPanel) {
        OptionsPanel::new()
    }
}

} // verus!
