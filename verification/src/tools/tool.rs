//! The shared vocabulary of interactive tools: which tool is active, its
//! name, hint and keyboard shortcut, and the modifier keys held down.

use vstd::prelude::*;

verus! {

/// The interactive tool the viewport currently drives.
#[derive(Clone, Copy, Debug, PartialEq, Eq, Structural)]
pub enum ActiveToolKind {
    Select,
    Pan,
    Line,
    Rectangle,
    Circle,
    Dimension,
    Extrude,
}

impl ActiveToolKind {
    /// The tool's name as shown in the toolbar.
    pub fn label(self) -> (s: &'static str)
        ensures
            self == ActiveToolKind::Select ==> s@ == "Select"@,
            self == ActiveToolKind::Pan ==> s@ == "Pan"@,
            self == ActiveToolKind::Line ==> s@ == "Line"@,
            self == ActiveToolKind::Rectangle ==> s@ == "Rectangle"@,
            self == ActiveToolKind::Circle ==> s@ == "Circle"@,
            self == ActiveToolKind::Dimension ==> s@ == "Dimension"@,
            self == ActiveToolKind::Extrude ==> s@ == "Extrude"@,
    {
        match self {
            ActiveToolKind::Select => "Select",
            ActiveToolKind::Pan => "Pan",
            ActiveToolKind::Line => "Line",
            ActiveToolKind::Rectangle => "Rectangle",
            ActiveToolKind::Circle => "Circle",
            ActiveToolKind::Dimension => "Dimension",
            ActiveToolKind::Extrude => "Extrude",
        }
    }

    /// The one-line usage hint shown while the tool is idle.
    pub fn hint(self) -> (s: &'static str)
        ensures
            self == ActiveToolKind::Select ==> s@
                == "Click to select. Ctrl/Shift-click toggles. Del deletes selection."@,
            self == ActiveToolKind::Pan ==> s@ == "Drag to pan the viewport."@,
            self == ActiveToolKind::Line ==> s@ == "Click two points. Esc to cancel."@,
            self == ActiveToolKind::Rectangle ==> s@ == "Click two opposite corners. Esc to cancel."@,
            self == ActiveToolKind::Circle ==> s@ == "Click the center, then a point on the rim."@,
            self == ActiveToolKind::Dimension ==> s@ == "Pick two points to dimension."@,
            self == ActiveToolKind::Extrude ==> s@ == "Pick a closed profile to extrude."@,
    {
        match self {
            ActiveToolKind::Select => "Click to select. Ctrl/Shift-click toggles. Del deletes selection.",
            ActiveToolKind::Pan => "Drag to pan the viewport.",
            ActiveToolKind::Line => "Click two points. Esc to cancel.",
            ActiveToolKind::Rectangle => "Click two opposite corners. Esc to cancel.",
            ActiveToolKind::Circle => "Click the center, then a point on the rim.",
            ActiveToolKind::Dimension => "Pick two points to dimension.",
            ActiveToolKind::Extrude => "Pick a closed profile to extrude.",
        }
    }

    /// The keyboard shortcut that activates the tool, if it has one.
    pub fn shortcut(self) -> (s: Option<&'static str>)
        ensures
            self == ActiveToolKind::Select ==> (s matches Some(k) && k@ == "V"@),
            self == ActiveToolKind::Line ==> (s matches Some(k) && k@ == "L"@),
            self == ActiveToolKind::Rectangle ==> (s matches Some(k) && k@ == "R"@),
            self == ActiveToolKind::Circle ==> (s matches Some(k) && k@ == "C"@),
            self == ActiveToolKind::Dimension ==> (s matches Some(k) && k@ == "D"@),
            self == ActiveToolKind::Pan || self == ActiveToolKind::Extrude ==> s is None,
    {
        match self {
            ActiveToolKind::Select => Some("V"),
            ActiveToolKind::Line => Some("L"),
            ActiveToolKind::Rectangle => Some("R"),
            ActiveToolKind::Circle => Some("C"),
            ActiveToolKind::Dimension => Some("D"),
            ActiveToolKind::Pan | ActiveToolKind::Extrude => None,
        }
    }
}

impl ActiveToolKind {
    /// Tools that place points (lines, rectangles, circles, dimensions)
    /// snap the cursor; the others work with its raw position.
    pub fn uses_snap(self) -> (r: bool)
        ensures
            r == (self == ActiveToolKind::Line || self == ActiveToolKind::Rectangle || self
                == ActiveToolKind::Circle || self == ActiveToolKind::Dimension),
    {
        match self {
            ActiveToolKind::Line
            | ActiveToolKind::Rectangle
            | ActiveToolKind::Circle
            | ActiveToolKind::Dimension => true,
            _ => false,
        }
    }
}

/// Modifier keys held while clicking.
#[derive(Clone, Copy, Debug, PartialEq, Eq, Structural)]
pub struct Modifiers {
    pub shift: bool,
    pub ctrl: bool,
    pub alt: bool,
}

impl Default for Modifiers {
    fn default() -> (m: Self)
        ensures
            !m.shift && !m.ctrl && !m.alt,
    {
        Modifiers { shift: false, ctrl: false, alt: false }
    }
}

} // verus!
