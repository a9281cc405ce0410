//! Typed identifier handles for domain entities. Each handle carries the
//! 64-bit packed form of a slot-map key (index and version), so equal handles
//! name the same slot of the same generation.

use vstd::prelude::*;

verus! {

/// Identifies a sketch within a project.
#[derive(Clone, Copy, Debug, PartialEq, Eq, Hash, Structural)]
pub struct SketchId(pub u64);

/// Identifies an entity (point, line, circle, ...) within a sketch.
#[derive(Clone, Copy, Debug, PartialEq, Eq, Hash, Structural)]
pub struct SketchEntityId(pub u64);

/// Identifies a constraint within a sketch.
#[derive(Clone, Copy, Debug, PartialEq, Eq, Hash, Structural)]
pub struct ConstraintId(pub u64);

/// Identifies a persistent dimension within a sketch.
#[derive(Clone, Copy, Debug, PartialEq, Eq, Hash, Structural)]
pub struct SketchDimensionId(pub u64);

/// Identifies a workplane within a project.
#[derive(Clone, Copy, Debug, PartialEq, Eq, Hash, Structural)]
pub struct WorkplaneId(pub u64);

/// Identifies a solid body within a project.
#[derive(Clone, Copy, Debug, PartialEq, Eq, Hash, Structural)]
pub struct BodyId(pub u64);

/// Identifies a feature (extrude, revolve) within a project.
#[derive(Clone, Copy, Debug, PartialEq, Eq, Hash, Structural)]
pub struct FeatureId(pub u64);

/// Names an interactive tool.
#[derive(Clone, Copy, Debug, PartialEq, Eq, Hash)]
pub struct ToolId(pub &'static str);

impl ToolId {
    pub fn new(name: &'static str) -> (id: Self)
        ensures
            id.0@ == name@,
    {
        ToolId(name)
    }
}

} // verus!
