//! Bookkeeping of the mask panel: which mask and which of its shapes are
//! selected, how new masks are named, and the actions the panel reports.

use vstd::prelude::*;
use crate::text::{decimal, decimal_string};

verus! {

/// What the mask panel did this frame.
#[derive(Clone, Copy, PartialEq, Eq, Debug, Structural)]
pub enum MaskAction {
    /// Nothing happened.
    Nothing,
    /// The edit changed.
    Changed,
    /// Only the view changed (the coverage overlay), not the edit itself:
    /// re-render, but don't touch the sidecar or the undo history.
    ViewChanged,
    /// The user asked to sample a target color for the range mask.
    PickColor,
    Done,
}

/// The kinds of shape a mask is built from.
#[derive(Clone, Copy, PartialEq, Eq, Debug, Structural)]
pub enum MaskShape {
    /// A linear gradient.
    Linear,
    /// A radial gradient.
    Radial,
    /// Freehand brush dabs.
    Brush,
}

impl MaskShape {
    /// The name shown for a shape of this kind.
    pub fn kind_name(&self) -> (r: &'static str)
        ensures
            r@ == (match *self {
                MaskShape::Linear => "Linear"@,
                MaskShape::Radial => "Radial"@,
                MaskShape::Brush => "Brush"@,
            }),
    {
        match self {
            MaskShape::Linear => "Linear",
            MaskShape::Radial => "Radial",
            MaskShape::Brush => "Brush",
        }
    }
}

/// A shape selection held inside a mask of `len` shapes: at most the last
/// shape (0 when there are none).
pub fn clamp_selection(selected: usize, len: usize) -> (r: usize)
    ensures
        r == (if len == 0 { 0 } else if selected < len { selected } else { (len - 1) as usize }),
        len > 0 ==> r < len,
{
    let last = if len == 0 {
        0
    } else {
        len - 1
    };
    if selected < last {
        selected
    } else {
        last
    }
}

/// The name a new mask gets: its kind and its number, "Radial 3".
pub fn mask_name(kind: &str, n: usize) -> (r: String)
    ensures
        r@ == kind@ + " "@ + decimal(n as nat),
{
    let mut s = String::from_str(kind);
    s.append(" ");
    let d = decimal_string(n);
    s.append(d.as_str());
    s
}

} // verus!
