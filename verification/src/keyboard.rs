//! Keyboard layout reporting.
//!
//! The windowing layer resolves a key press to a logical key and exposes no layout identity of its
//! own, so the layout is reported as a single unnamed one.

use vstd::prelude::*;

verus! {

/// The one layout this backend can describe.
pub struct ZguiKeyboardLayout;

impl ZguiKeyboardLayout {
    /// The layout's identifier.
    pub fn id(&self) -> (id: &'static str)
        ensures
            id@ == "winit"@,
    {
        "winit"
    }

    /// The layout's name, as shown to a person.
    pub fn name(&self) -> (name: &'static str)
        ensures
            name@ == "System"@,
    {
        "System"
    }
}

} // verus!
