//! What the panels and screens of the interface report back to the app.

use vstd::prelude::*;

verus! {

/// Which tone-curve channel is being edited.
#[derive(Clone, Copy, PartialEq, Eq, Debug, Structural)]
pub enum CurveChannel {
    Master,
    Red,
    Green,
    Blue,
}

impl Default for CurveChannel {
    fn default() -> (c: CurveChannel)
        ensures
            c == CurveChannel::Master,
    {
        CurveChannel::Master
    }
}

/// What the adjustment panel did this frame.
#[derive(Clone, Copy, PartialEq, Eq, Debug, Structural)]
pub struct AdjustOutput {
    pub changed: bool,
    /// The user toggled the white-balance eyedropper.
    pub eyedropper_toggled: bool,
}

/// What the welcome screen asks for.
#[derive(Clone, PartialEq, Eq, Debug)]
pub enum WelcomeAction {
    OpenFolder,
    OpenFile,
    /// Reopen one of the recent folders (its path).
    OpenRecent(String),
}

/// A finished filmstrip thumbnail: RGBA pixels of a photo.
pub struct Thumb {
    pub path: String,
    pub width: usize,
    pub height: usize,
    pub rgba: Vec<u8>,
}

/// Longest edge of a filmstrip thumbnail, in pixels.
pub const THUMB_EDGE: u32 = 192;

} // verus!
