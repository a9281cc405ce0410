//! Constraint data types: relationships between sketch entities, expressed
//! purely by identifier. The solver and geometry that interpret them live
//! elsewhere.

use vstd::prelude::*;

use crate::ids::SketchEntityId;

verus! {

/// Names a well-defined point on a sketch entity.
#[derive(Clone, Copy, Debug, PartialEq, Eq, Hash, Structural)]
pub enum EntityPoint {
    /// Position of a standalone point entity.
    Point(SketchEntityId),
    /// Start of a line (point `a`) or start of an arc's sweep.
    Start(SketchEntityId),
    /// End of a line (point `b`) or end of an arc's sweep.
    End(SketchEntityId),
    /// Center of a circle or arc.
    Center(SketchEntityId),
    /// Rectangle corner_a.
    CornerA(SketchEntityId),
    /// Rectangle corner at (corner_b.x, corner_a.y).
    CornerB(SketchEntityId),
    /// Rectangle corner_b.
    CornerC(SketchEntityId),
    /// Rectangle corner at (corner_a.x, corner_b.y).
    CornerD(SketchEntityId),
}

impl EntityPoint {
    /// The entity on which this point lies.
    pub open spec fn spec_entity(self) -> SketchEntityId {
        match self {
            EntityPoint::Point(id) => id,
            EntityPoint::Start(id) => id,
            EntityPoint::End(id) => id,
            EntityPoint::Center(id) => id,
            EntityPoint::CornerA(id) => id,
            EntityPoint::CornerB(id) => id,
            EntityPoint::CornerC(id) => id,
            EntityPoint::CornerD(id) => id,
        }
    }

    #[verifier::when_used_as_spec(spec_entity)]
    pub fn entity(self) -> (id: SketchEntityId)
        ensures
            id == self.spec_entity(),
    {
        match self {
            EntityPoint::Point(id)
            | EntityPoint::Start(id)
            | EntityPoint::End(id)
            | EntityPoint::Center(id)
            | EntityPoint::CornerA(id)
            | EntityPoint::CornerB(id)
            | EntityPoint::CornerC(id)
            | EntityPoint::CornerD(id) => id,
        }
    }
}

/// The fixed location of a `FixPoint` constraint, held as the IEEE-754 bit
/// patterns of its two coordinates. The library carries it unchanged and
/// never computes with it; the solver reads it back as two `f64` values.
#[derive(Clone, Copy, Debug, PartialEq, Eq, Hash, Structural)]
pub struct FixedTarget {
    pub x_bits: u64,
    pub y_bits: u64,
}

/// A geometric relationship between sketch entities. Recorded at insert
/// time (via inference) or by explicit user action.
#[derive(Clone, Copy, Debug, PartialEq, Eq, Hash, Structural)]
pub enum Constraint {
    /// Two named entity points share a location.
    Coincident { a: EntityPoint, b: EntityPoint },
    /// A named entity point stays at a fixed location.
    FixPoint { point: EntityPoint, target: FixedTarget },
    /// A named entity point lies on the body of another entity.
    PointOnEntity { point: EntityPoint, entity: SketchEntityId },
    /// A line is horizontal (its two endpoints share y).
    Horizontal { entity: SketchEntityId },
    /// A line is vertical (its two endpoints share x).
    Vertical { entity: SketchEntityId },
    /// Two lines share direction.
    Parallel { a: SketchEntityId, b: SketchEntityId },
    /// Two lines meet at a right angle.
    Perpendicular { a: SketchEntityId, b: SketchEntityId },
    /// A line is tangent to a circle or arc.
    Tangent { line: SketchEntityId, curve: SketchEntityId },
    /// Two lines have the same length.
    EqualLength { a: SketchEntityId, b: SketchEntityId },
    /// Two circles or arcs have the same radius.
    EqualRadius { a: SketchEntityId, b: SketchEntityId },
}

impl Constraint {
    /// Every entity this constraint references, in field order.
    pub open spec fn spec_referenced_entities(self) -> Seq<SketchEntityId> {
        match self {
            Constraint::Coincident { a, b } => seq![a.spec_entity(), b.spec_entity()],
            Constraint::FixPoint { point, .. } => seq![point.spec_entity()],
            Constraint::PointOnEntity { point, entity } => seq![point.spec_entity(), entity],
            Constraint::Horizontal { entity } => seq![entity],
            Constraint::Vertical { entity } => seq![entity],
            Constraint::Parallel { a, b } => seq![a, b],
            Constraint::Perpendicular { a, b } => seq![a, b],
            Constraint::Tangent { line, curve } => seq![line, curve],
            Constraint::EqualLength { a, b } => seq![a, b],
            Constraint::EqualRadius { a, b } => seq![a, b],
        }
    }

    /// Whether this constraint mentions `entity`.
    pub open spec fn references(self, entity: SketchEntityId) -> bool {
        self.spec_referenced_entities().contains(entity)
    }

    /// Every entity this constraint references. Used to cascade-delete
    /// constraints when an entity is removed from the sketch.
    pub fn referenced_entities(&self) -> (ids: Vec<SketchEntityId>)
        ensures
            ids@ == self.spec_referenced_entities(),
    {
        match self {
            Constraint::Coincident { a, b } => vec![a.entity(), b.entity()],
            Constraint::FixPoint { point, .. } => vec![point.entity()],
            Constraint::PointOnEntity { point, entity } => vec![point.entity(), *entity],
            Constraint::Horizontal { entity } | Constraint::Vertical { entity } => vec![*entity],
            Constraint::Parallel { a, b }
            | Constraint::Perpendicular { a, b }
            | Constraint::EqualLength { a, b }
            | Constraint::EqualRadius { a, b } => vec![*a, *b],
            Constraint::Tangent { line, curve } => vec![*line, *curve],
        }
    }

    /// Whether this constraint mentions `entity`.
    pub fn mentions(&self, entity: SketchEntityId) -> (r: bool)
        ensures
            r == self.references(entity),
    {
        let ids = self.referenced_entities();
        let mut i: usize = 0;
        while i < ids.len()
            invariant
                ids@ == self.spec_referenced_entities(),
                i <= ids@.len(),
                forall|k: int| 0 <= k < i ==> ids@[k] != entity,
            decreases ids@.len() - i,
        {
            if ids[i] == entity {
                return true;
            }
            i = i + 1;
        }
        false
    }
}

} // verus!
