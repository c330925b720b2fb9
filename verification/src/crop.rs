//! The crop tool's aspect-ratio locks and the actions its panel reports.

use vstd::prelude::*;

verus! {

/// Aspect-ratio lock of the crop frame.
#[derive(Clone, Copy, PartialEq, Eq, Debug, Structural)]
pub enum AspectLock {
    Free,
    Original,
    Square,
    R3x2,
    R2x3,
    R4x3,
    R3x4,
    R16x9,
    R9x16,
}

impl Default for AspectLock {
    fn default() -> (a: AspectLock)
        ensures
            a == AspectLock::Free,
    {
        AspectLock::Free
    }
}

/// The width:height terms of a lock, given the oriented uncropped
/// dimensions (the `Original` lock counts a zero height as one); `None`
/// for the free crop.
pub open spec fn ratio_of(a: AspectLock, dims: (usize, usize)) -> Option<(usize, usize)> {
    match a {
        AspectLock::Free => Option::None,
        AspectLock::Original => Some((dims.0, if dims.1 > 0 { dims.1 } else { 1usize })),
        AspectLock::Square => Some((1usize, 1usize)),
        AspectLock::R3x2 => Some((3usize, 2usize)),
        AspectLock::R2x3 => Some((2usize, 3usize)),
        AspectLock::R4x3 => Some((4usize, 3usize)),
        AspectLock::R3x4 => Some((3usize, 4usize)),
        AspectLock::R16x9 => Some((16usize, 9usize)),
        AspectLock::R9x16 => Some((9usize, 16usize)),
    }
}

impl AspectLock {
    pub const ALL: [AspectLock; 9] = [
        AspectLock::Free,
        AspectLock::Original,
        AspectLock::Square,
        AspectLock::R3x2,
        AspectLock::R2x3,
        AspectLock::R4x3,
        AspectLock::R3x4,
        AspectLock::R16x9,
        AspectLock::R9x16,
    ];

    /// The name shown in the aspect menu.
    pub fn label(&self) -> (r: &'static str)
        ensures
            r@ == (match *self {
                AspectLock::Free => "Free"@,
                AspectLock::Original => "Original"@,
                AspectLock::Square => "1 : 1"@,
                AspectLock::R3x2 => "3 : 2"@,
                AspectLock::R2x3 => "2 : 3"@,
                AspectLock::R4x3 => "4 : 3"@,
                AspectLock::R3x4 => "3 : 4"@,
                AspectLock::R16x9 => "16 : 9"@,
                AspectLock::R9x16 => "9 : 16"@,
            }),
    {
        match self {
            AspectLock::Free => "Free",
            AspectLock::Original => "Original",
            AspectLock::Square => "1 : 1",
            AspectLock::R3x2 => "3 : 2",
            AspectLock::R2x3 => "2 : 3",
            AspectLock::R4x3 => "4 : 3",
            AspectLock::R3x4 => "3 : 4",
            AspectLock::R16x9 => "16 : 9",
            AspectLock::R9x16 => "9 : 16",
        }
    }

    /// The width:height ratio in pixels as a pair of terms (width, height),
    /// given the oriented uncropped dimensions; `None` for a free crop. The
    /// height term is never zero.
    pub fn ratio_terms(&self, dims: (usize, usize)) -> (r: Option<(usize, usize)>)
        ensures
            r == ratio_of(*self, dims),
            r matches Some(t) ==> t.1 > 0,
    {
        match self {
            AspectLock::Free => None,
            AspectLock::Original => Some((dims.0, if dims.1 > 0 { dims.1 } else { 1 })),
            AspectLock::Square => Some((1, 1)),
            AspectLock::R3x2 => Some((3, 2)),
            AspectLock::R2x3 => Some((2, 3)),
            AspectLock::R4x3 => Some((4, 3)),
            AspectLock::R3x4 => Some((3, 4)),
            AspectLock::R16x9 => Some((16, 9)),
            AspectLock::R9x16 => Some((9, 16)),
        }
    }
}

/// What the crop panel did this frame.
#[derive(Clone, Copy, PartialEq, Eq, Debug, Structural)]
pub enum CropAction {
    /// Nothing happened.
    Nothing,
    /// Geometry changed: the preview must re-render.
    Changed,
    /// The user is done cropping; leave crop mode.
    Done,
}

} // verus!
