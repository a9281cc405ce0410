//! The click phases of the drawing tools and the hint each phase shows.
//! The points a tool has collected are coordinates and stay with the tool
//! in the application; which phase it is in, and what it says, is here.

use vstd::prelude::*;

verus! {

/// Where the dimension tool is in measuring a distance.
#[derive(Clone, Copy, Debug, PartialEq, Eq, Structural)]
pub enum DimensionPhase {
    /// Nothing picked yet.
    Idle,
    /// The first point is picked; the measurement follows the cursor.
    Anchored,
    /// Both points are picked and the measurement is shown.
    Locked,
}

impl DimensionPhase {
    /// The phase after a click. From idle the click anchors a measurement;
    /// while anchored, a click on the anchor itself keeps it anchored and
    /// any other point locks it; a locked measurement gives way to a new
    /// one anchored at the click.
    pub fn after_click(self, on_anchor: bool) -> (p: DimensionPhase)
        ensures
            self == DimensionPhase::Idle ==> p == DimensionPhase::Anchored,
            self == DimensionPhase::Anchored && on_anchor ==> p == DimensionPhase::Anchored,
            self == DimensionPhase::Anchored && !on_anchor ==> p == DimensionPhase::Locked,
            self == DimensionPhase::Locked ==> p == DimensionPhase::Anchored,
    {
        match self {
            DimensionPhase::Idle => DimensionPhase::Anchored,
            DimensionPhase::Anchored => if on_anchor {
                DimensionPhase::Anchored
            } else {
                DimensionPhase::Locked
            },
            DimensionPhase::Locked => DimensionPhase::Anchored,
        }
    }

    /// The hint shown in this phase.
    pub fn step_hint(self) -> (s: &'static str)
        ensures
            self == DimensionPhase::Idle ==> s@
                == "Click first point to start measuring. Shortcut: D. Esc clears."@,
            self == DimensionPhase::Anchored ==> s@
                == "Click second point to lock measurement. Esc clears."@,
            self == DimensionPhase::Locked ==> s@
                == "Measurement locked. Click anywhere to start a new one. Esc clears."@,
    {
        match self {
            DimensionPhase::Idle => "Click first point to start measuring. Shortcut: D. Esc clears.",
            DimensionPhase::Anchored => "Click second point to lock measurement. Esc clears.",
            DimensionPhase::Locked => "Measurement locked. Click anywhere to start a new one. Esc clears.",
        }
    }
}

/// The line tool's hint: before and after its first point.
pub fn line_step_hint(started: bool) -> (s: &'static str)
    ensures
        !started ==> s@ == "Click first point. Shortcut: L. Right-click or Esc clears."@,
        started ==> s@ == "Type length, Tab, angle, Enter — or click next point. Shift locks axis."@,
{
    if started {
        "Type length, Tab, angle, Enter — or click next point. Shift locks axis."
    } else {
        "Click first point. Shortcut: L. Right-click or Esc clears."
    }
}

/// The rectangle tool's hint: before and after its first corner.
pub fn rectangle_step_hint(started: bool) -> (s: &'static str)
    ensures
        !started ==> s@ == "Click first corner. Shortcut: R. Right-click or Esc cancels."@,
        started ==> s@ == "Type W, Tab, H, Enter — or click opposite corner. Shift locks square."@,
{
    if started {
        "Type W, Tab, H, Enter — or click opposite corner. Shift locks square."
    } else {
        "Click first corner. Shortcut: R. Right-click or Esc cancels."
    }
}

/// The circle tool's hint: before and after its center.
pub fn circle_step_hint(started: bool) -> (s: &'static str)
    ensures
        !started ==> s@ == "Click center point. Shortcut: C. Right-click or Esc cancels."@,
        started ==> s@ == "Type radius and press Enter — or click rim. Right-click or Esc cancels."@,
{
    if started {
        "Type radius and press Enter — or click rim. Right-click or Esc cancels."
    } else {
        "Click center point. Shortcut: C. Right-click or Esc cancels."
    }
}

} // verus!
