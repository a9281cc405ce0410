//! Notifications emitted after state transitions. Observers (UI, render
//! cache) react to them; they never mutate state directly.

use vstd::prelude::*;

use crate::ids::{BodyId, SketchId};

verus! {

/// Something that changed in the application state.
#[derive(Clone, Copy, Debug, PartialEq, Eq, Structural)]
pub enum AppEvent {
    SelectionChanged,
    DocumentDirtyChanged(bool),
    FeatureRebuilt(SketchId),
    MeshInvalidated(BodyId),
}

} // verus!
