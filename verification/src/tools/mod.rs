//! Interactive editing tools: the parts of their state and decisions that
//! do not compute with coordinates.

pub mod dynamic_input;
pub mod phases;
pub mod preselection;
pub mod select_tool;
pub mod snapping;
pub mod tool;
