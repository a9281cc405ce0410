//! Select tool: click an entity to toggle it in the selection, Shift-click
//! to add, and Shift+Alt-click to subtract. Empty plain clicks clear the
//! selection.

use vstd::prelude::*;

use crate::command::SelectionEditMode;
use crate::ids::{SketchEntityId, SketchId, ToolId};
use crate::tools::tool::Modifiers;

verus! {

/// A selection change requested by a tool.
#[derive(Clone, Debug, PartialEq, Eq)]
pub enum SelectionCommand {
    /// Edit the selection with the given entities of one sketch.
    SelectEntities { sketch: SketchId, entities: Vec<SketchEntityId>, mode: SelectionEditMode },
    /// Flip one entity in or out of the selection.
    ToggleSelection { sketch: SketchId, entity: SketchEntityId },
    /// Empty the selection.
    ClearSelection,
}

/// The select tool.
#[derive(Clone, Copy, Debug, Default)]
pub struct SelectTool;

impl SelectTool {
    /// The select tool's identifier, "select".
    pub fn id(&self) -> (id: ToolId)
        ensures
            id.0@ == "select"@,
    {
        ToolId::new("select")
    }
}

/// What a click of the select tool asks for, given the entity under the
/// cursor (if any) and the held modifiers: Shift+Alt removes the entity,
/// Shift adds it, a plain click toggles it; a plain click on nothing
/// clears the selection and a modified click on nothing does nothing.
pub fn select_commands(target: Option<(SketchId, SketchEntityId)>, modifiers: Modifiers) -> (cmds: Vec<
    SelectionCommand,
>)
    ensures
        match target {
            Some((sketch, entity)) => cmds@.len() == 1 && if modifiers.shift && modifiers.alt {
                cmds@[0] matches SelectionCommand::SelectEntities { sketch: s, entities, mode }
                    && s == sketch && entities@ == seq![entity] && mode == SelectionEditMode::Remove
            } else if modifiers.shift {
                cmds@[0] matches SelectionCommand::SelectEntities { sketch: s, entities, mode }
                    && s == sketch && entities@ == seq![entity] && mode == SelectionEditMode::Add
            } else {
                cmds@[0] == (SelectionCommand::ToggleSelection { sketch, entity })
            },
            None => if !modifiers.shift && !modifiers.alt {
                cmds@.len() == 1 && cmds@[0] == SelectionCommand::ClearSelection
            } else {
                cmds@.len() == 0
            },
        },
{
    match target {
        Some((sketch, entity)) => {
            if modifiers.shift && modifiers.alt {
                vec![SelectionCommand::SelectEntities { sketch, entities: vec![entity], mode: SelectionEditMode::Remove }]
            } else if modifiers.shift {
                vec![SelectionCommand::SelectEntities { sketch, entities: vec![entity], mode: SelectionEditMode::Add }]
            } else {
                vec![SelectionCommand::ToggleSelection { sketch, entity }]
            }
        },
        None => {
            if !modifiers.shift && !modifiers.alt {
                vec![SelectionCommand::ClearSelection]
            } else {
                Vec::new()
            }
        },
    }
}

} // verus!
