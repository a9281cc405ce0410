//! Snap vocabulary: what kind of feature the cursor snapped to, and along
//! which axis an alignment snap holds.

use vstd::prelude::*;

verus! {

/// What the cursor snapped to.
#[derive(Clone, Copy, Debug, PartialEq, Eq, Structural)]
pub enum SnapKind {
    Grid,
    Endpoint,
    Midpoint,
    Center,
    Horizontal,
    Vertical,
    Intersection,
}

impl SnapKind {
    /// The short name shown next to the cursor.
    pub fn label(self) -> (s: &'static str)
        ensures
            self == SnapKind::Grid ==> s@ == "Grid"@,
            self == SnapKind::Endpoint ==> s@ == "Endpoint"@,
            self == SnapKind::Midpoint ==> s@ == "Midpoint"@,
            self == SnapKind::Center ==> s@ == "Center"@,
            self == SnapKind::Horizontal ==> s@ == "H Align"@,
            self == SnapKind::Vertical ==> s@ == "V Align"@,
            self == SnapKind::Intersection ==> s@ == "H/V Align"@,
    {
        match self {
            SnapKind::Grid => "Grid",
            SnapKind::Endpoint => "Endpoint",
            SnapKind::Midpoint => "Midpoint",
            SnapKind::Center => "Center",
            SnapKind::Horizontal => "H Align",
            SnapKind::Vertical => "V Align",
            SnapKind::Intersection => "H/V Align",
        }
    }
}

/// The axis along which an alignment snap holds.
#[derive(Clone, Copy, Debug, PartialEq, Eq, Structural)]
pub enum SnapAxis {
    Horizontal,
    Vertical,
}

} // verus!
