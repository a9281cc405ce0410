//! Command vocabulary: how a batch of picked items edits the current
//! selection, and which kind of change each application command makes.

use vstd::prelude::*;

verus! {

/// How a list of picked items combines with the current selection.
#[derive(Clone, Copy, Debug, PartialEq, Eq, Structural)]
pub enum SelectionEditMode {
    /// The selection becomes exactly the picked items.
    Replace,
    /// The picked items join the selection.
    Add,
    /// The picked items leave the selection.
    Remove,
    /// Each picked item flips between selected and unselected.
    Toggle,
}

/// The kind of an application command, without its payload. Tools and UI
/// produce commands; a central dispatcher applies them, and what the kind
/// alone decides is stated here.
#[derive(Clone, Copy, Debug, PartialEq, Eq, Structural)]
pub enum CommandKind {
    CreateSketch,
    SetActiveSketch,
    DeleteSketch,
    AddLine,
    AddRectangle,
    AddCircle,
    AddArc,
    ApplyLineFillet,
    AddDistanceDimension,
    AddConstraint,
    RemoveConstraint,
    SetLineLength,
    SetRectangleWidth,
    SetRectangleHeight,
    SetCircleRadius,
    SetArcRadius,
    SetArcSweepDegrees,
    SetPointX,
    SetPointY,
    DeleteEntity,
    SelectSingle,
    SelectEntities,
    SelectVertices,
    SelectBody,
    SelectBodies,
    ToggleSelection,
    ClearSelection,
    DeleteSelection,
    ExtrudeProfile,
    RevolveProfile,
    NoOp,
}

impl CommandKind {
    /// Commands that only move the view or the selection leave the
    /// document clean; every other command marks it as changed.
    pub open spec fn spec_mutates_document(self) -> bool {
        !(self == CommandKind::SetActiveSketch || self == CommandKind::SelectSingle || self
            == CommandKind::SelectBody || self == CommandKind::SelectBodies || self
            == CommandKind::SelectEntities || self == CommandKind::SelectVertices || self
            == CommandKind::ToggleSelection || self == CommandKind::ClearSelection || self
            == CommandKind::NoOp)
    }

    pub fn mutates_document(self) -> (r: bool)
        ensures
            r == self.spec_mutates_document(),
    {
        match self {
            CommandKind::SetActiveSketch
            | CommandKind::SelectSingle
            | CommandKind::SelectBody
            | CommandKind::SelectBodies
            | CommandKind::SelectEntities
            | CommandKind::SelectVertices
            | CommandKind::ToggleSelection
            | CommandKind::ClearSelection
            | CommandKind::NoOp => false,
            _ => true,
        }
    }

    /// Commands that change a sketch's entity geometry or its constraint
    /// set make the dispatcher solve that sketch again afterwards; selection
    /// and feature-producing commands do not.
    pub open spec fn spec_resolves_sketch(self) -> bool {
        self == CommandKind::AddLine || self == CommandKind::AddRectangle || self
            == CommandKind::AddCircle || self == CommandKind::AddArc || self
            == CommandKind::ApplyLineFillet || self == CommandKind::AddConstraint || self
            == CommandKind::RemoveConstraint || self == CommandKind::SetLineLength || self
            == CommandKind::SetRectangleWidth || self == CommandKind::SetRectangleHeight || self
            == CommandKind::SetCircleRadius || self == CommandKind::SetArcRadius || self
            == CommandKind::SetArcSweepDegrees || self == CommandKind::SetPointX || self
            == CommandKind::SetPointY || self == CommandKind::DeleteEntity
    }

    pub fn resolves_sketch(self) -> (r: bool)
        ensures
            r == self.spec_resolves_sketch(),
    {
        match self {
            CommandKind::AddLine
            | CommandKind::AddRectangle
            | CommandKind::AddCircle
            | CommandKind::AddArc
            | CommandKind::ApplyLineFillet
            | CommandKind::AddConstraint
            | CommandKind::RemoveConstraint
            | CommandKind::SetLineLength
            | CommandKind::SetRectangleWidth
            | CommandKind::SetRectangleHeight
            | CommandKind::SetCircleRadius
            | CommandKind::SetArcRadius
            | CommandKind::SetArcSweepDegrees
            | CommandKind::SetPointX
            | CommandKind::SetPointY
            | CommandKind::DeleteEntity => true,
            _ => false,
        }
    }
}

/// A command that re-solves a sketch always changes the document.
pub proof fn lemma_resolving_commands_mutate(kind: CommandKind)
    ensures
        kind.spec_resolves_sketch() ==> kind.spec_mutates_document(),
{
}

/// Whether a batch of commands leaves the document changed: true as soon
/// as one of them mutates it.
pub fn batch_mutates_document(kinds: &[CommandKind]) -> (r: bool)
    ensures
        r == exists|i: int| 0 <= i < kinds@.len() && (#[trigger] kinds@[i]).spec_mutates_document(),
{
    let mut i: usize = 0;
    while i < kinds.len()
        invariant
            i <= kinds@.len(),
            forall|k: int| 0 <= k < i ==> !(#[trigger] kinds@[k]).spec_mutates_document(),
        decreases kinds@.len() - i,
    {
        if kinds[i].mutates_document() {
            return true;
        }
        i = i + 1;
    }
    false
}

} // verus!
