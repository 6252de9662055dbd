//! The aspect ratios offered by the image crop tool.
use vstd::prelude::*;

verus! {

/// A crop aspect ratio.
#[derive(Clone, Copy, Debug, PartialEq, Eq, Structural)]
pub enum AspectRatio {
    Free,
    Square,
    Landscape,
    Portrait,
    FourThree,
    ThreeFour,
    ThreeTwo,
    TwoThree,
}

/// The label shown for a ratio: its width and height, or `Free`.
pub open spec fn ratio_label(a: AspectRatio) -> Seq<char> {
    match a {
        AspectRatio::Free => "Free"@,
        AspectRatio::Square => "1:1"@,
        AspectRatio::Landscape => "16:9"@,
        AspectRatio::Portrait => "9:16"@,
        AspectRatio::FourThree => "4:3"@,
        AspectRatio::ThreeFour => "3:4"@,
        AspectRatio::ThreeTwo => "3:2"@,
        AspectRatio::TwoThree => "2:3"@,
    }
}

impl AspectRatio {
    /// The label shown for this ratio.
    pub fn label(&self) -> (r: &'static str)
        ensures
            r@ == ratio_label(*self),
    {
        match self {
            AspectRatio::Free => "Free",
            AspectRatio::Square => "1:1",
            AspectRatio::Landscape => "16:9",
            AspectRatio::Portrait => "9:16",
            AspectRatio::FourThree => "4:3",
            AspectRatio::ThreeFour => "3:4",
            AspectRatio::ThreeTwo => "3:2",
            AspectRatio::TwoThree => "2:3",
        }
    }
}

} // verus!
