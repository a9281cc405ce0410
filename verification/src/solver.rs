//! The integer side of the sketch constraint solver: how entities' free
//! variables are laid out in the unknown vector, which constraints can be
//! evaluated against that layout, and how per-constraint outcomes add up to
//! the solve status shown to the user. The Levenberg-Marquardt iteration
//! itself computes with floating-point coordinates and lives in the
//! application crate; it hands its results to the functions here.

use std::collections::HashMap;

use vstd::prelude::*;

use crate::constraint::{Constraint, EntityPoint};
use crate::ids::SketchEntityId;

verus! {

/// Outcome of a solve.
#[derive(Clone, Copy, Debug, PartialEq, Eq, Structural)]
pub enum SolveStatus {
    /// Constraints are satisfied but the sketch still appears to have free DOFs.
    Underdefined,
    /// Constraints are satisfied and the sketch appears fully constrained.
    Solved,
    /// One or more constraints remain unsatisfied.
    Conflicting,
    /// One or more constraints could not be evaluated.
    Failed,
}

/// Why a single constraint is reported after a solve.
#[derive(Clone, Copy, Debug, PartialEq, Eq, Structural)]
pub enum ConstraintDiagnosticKind {
    Unsatisfied,
    Failed,
}

/// The shape of a sketch entity as far as the solver's unknowns go.
#[derive(Clone, Copy, Debug, PartialEq, Eq, Structural)]
pub enum EntityKind {
    Point,
    Line,
    Rectangle,
    Circle,
    Arc,
}

/// Number of scalar unknowns an entity of `kind` contributes: a point's x
/// and y; a line's two endpoints; a rectangle's two corners; a circle's
/// center and radius; an arc's center, radius, start angle and sweep.
pub open spec fn dofs(kind: EntityKind) -> nat {
    match kind {
        EntityKind::Point => 2,
        EntityKind::Line => 4,
        EntityKind::Rectangle => 4,
        EntityKind::Circle => 3,
        EntityKind::Arc => 5,
    }
}

impl EntityKind {
    pub fn dof_count(self) -> (n: usize)
        ensures
            n == dofs(self),
    {
        match self {
            EntityKind::Point => 2,
            EntityKind::Line => 4,
            EntityKind::Rectangle => 4,
            EntityKind::Circle => 3,
            EntityKind::Arc => 5,
        }
    }
}

/// Total unknowns of the entities listed, in order.
pub open spec fn total_dofs(entities: Seq<(SketchEntityId, EntityKind)>) -> nat
    decreases entities.len(),
{
    if entities.len() == 0 {
        0
    } else {
        total_dofs(entities.drop_last()) + dofs(entities.last().1)
    }
}

/// No entity is listed twice.
pub open spec fn distinct_ids(entities: Seq<(SketchEntityId, EntityKind)>) -> bool {
    forall|i: int, j: int|
        0 <= i < j < entities.len() ==> #[trigger] entities[i].0 != #[trigger] entities[j].0
}

/// A prefix never carries more unknowns than the whole list.
pub proof fn lemma_total_dofs_prefix(entities: Seq<(SketchEntityId, EntityKind)>, i: int)
    requires
        0 <= i <= entities.len(),
    ensures
        total_dofs(entities.take(i)) <= total_dofs(entities),
    decreases entities.len(),
{
    if i < entities.len() {
        assert(entities.drop_last().take(i) =~= entities.take(i));
        lemma_total_dofs_prefix(entities.drop_last(), i);
    } else {
        assert(entities.take(i) =~= entities);
    }
}

/// What a DOF layout means: where each entity's unknowns start and its
/// kind, keyed by the entity handle's packed form, and the total count.
pub ghost struct DofLayoutView {
    pub ranges: Map<u64, (usize, EntityKind)>,
    pub total_dofs: nat,
}

/// Where each entity's unknowns sit in the solver's unknown vector.
#[derive(Debug)]
pub struct DofLayout {
    ranges: HashMap<u64, (usize, EntityKind)>,
    total_dofs: usize,
}

impl View for DofLayout {
    type V = DofLayoutView;

    closed spec fn view(&self) -> DofLayoutView {
        DofLayoutView { ranges: self.ranges@, total_dofs: self.total_dofs as nat }
    }
}

impl Clone for DofLayout {
    fn clone(&self) -> (c: Self)
        ensures
            c@ == self@,
    {
        proof {
            use_type_invariant(self);
        }
        DofLayout { ranges: self.ranges.clone(), total_dofs: self.total_dofs }
    }
}

/// `point` names a point that an entity of `kind` has: a point entity's
/// position; the start or end of a line or arc; the center of a circle or
/// arc; any of a rectangle's four corners.
pub open spec fn point_on_kind(point: EntityPoint, kind: EntityKind) -> bool {
    match point {
        EntityPoint::Point(_) => kind == EntityKind::Point,
        EntityPoint::Start(_) => kind == EntityKind::Line || kind == EntityKind::Arc,
        EntityPoint::End(_) => kind == EntityKind::Line || kind == EntityKind::Arc,
        EntityPoint::Center(_) => kind == EntityKind::Circle || kind == EntityKind::Arc,
        EntityPoint::CornerA(_) => kind == EntityKind::Rectangle,
        EntityPoint::CornerB(_) => kind == EntityKind::Rectangle,
        EntityPoint::CornerC(_) => kind == EntityKind::Rectangle,
        EntityPoint::CornerD(_) => kind == EntityKind::Rectangle,
    }
}

/// The layout holds the entity `point` lies on, and that entity has it.
pub open spec fn locates_point(ranges: Map<u64, (usize, EntityKind)>, point: EntityPoint) -> bool {
    &&& ranges.contains_key(point.spec_entity().0)
    &&& point_on_kind(point, ranges[point.spec_entity().0].1)
}

/// The layout holds `id` as a line.
pub open spec fn locates_line(ranges: Map<u64, (usize, EntityKind)>, id: SketchEntityId) -> bool {
    ranges.contains_key(id.0) && ranges[id.0].1 == EntityKind::Line
}

/// The layout holds `id` as a circle or an arc.
pub open spec fn locates_curve(ranges: Map<u64, (usize, EntityKind)>, id: SketchEntityId) -> bool {
    ranges.contains_key(id.0) && (ranges[id.0].1 == EntityKind::Circle || ranges[id.0].1
        == EntityKind::Arc)
}

/// The solver can form residuals for `c` against the layout: every point
/// it names exists, and every entity it names has the shape it needs.
pub open spec fn evaluable(ranges: Map<u64, (usize, EntityKind)>, c: Constraint) -> bool {
    match c {
        Constraint::Coincident { a, b } => locates_point(ranges, a) && locates_point(ranges, b),
        Constraint::FixPoint { point, .. } => locates_point(ranges, point),
        Constraint::PointOnEntity { point, entity } => locates_point(ranges, point) && (
        locates_line(ranges, entity) || locates_curve(ranges, entity)),
        Constraint::Horizontal { entity } => locates_line(ranges, entity),
        Constraint::Vertical { entity } => locates_line(ranges, entity),
        Constraint::Parallel { a, b } => locates_line(ranges, a) && locates_line(ranges, b),
        Constraint::Perpendicular { a, b } => locates_line(ranges, a) && locates_line(ranges, b),
        Constraint::Tangent { line, curve } => locates_line(ranges, line) && locates_curve(
            ranges,
            curve,
        ),
        Constraint::EqualLength { a, b } => locates_line(ranges, a) && locates_line(ranges, b),
        Constraint::EqualRadius { a, b } => locates_curve(ranges, a) && locates_curve(ranges, b),
    }
}

/// Whether `point` is one of the points an entity of `kind` has.
pub fn point_fits(point: EntityPoint, kind: EntityKind) -> (r: bool)
    ensures
        r == point_on_kind(point, kind),
{
    match point {
        EntityPoint::Point(_) => kind == EntityKind::Point,
        EntityPoint::Start(_) | EntityPoint::End(_) => kind == EntityKind::Line || kind
            == EntityKind::Arc,
        EntityPoint::Center(_) => kind == EntityKind::Circle || kind == EntityKind::Arc,
        EntityPoint::CornerA(_)
        | EntityPoint::CornerB(_)
        | EntityPoint::CornerC(_)
        | EntityPoint::CornerD(_) => kind == EntityKind::Rectangle,
    }
}

impl DofLayout {
    /// Every entity's unknowns lie inside the unknown vector.
    #[verifier::type_invariant]
    spec fn inv(self) -> bool {
        forall|k: u64| #[trigger] self.ranges@.contains_key(k) ==> self.ranges@[k].0 + dofs(
            self.ranges@[k].1,
        ) <= self.total_dofs
    }

    /// Lays the entities' unknowns out back to back in the order given:
    /// each entity starts where the previous one's unknowns end.
    pub fn build(entities: &[(SketchEntityId, EntityKind)]) -> (layout: DofLayout)
        requires
            distinct_ids(entities@),
            total_dofs(entities@) <= usize::MAX,
        ensures
            layout@.total_dofs == total_dofs(entities@),
            forall|k: u64|
                layout@.ranges.contains_key(k) <==> exists|i: int|
                    0 <= i < entities@.len() && #[trigger] entities@[i].0 .0 == k,
            forall|i: int|
                0 <= i < entities@.len() ==> #[trigger] layout@.ranges[entities@[i].0 .0] == (
                total_dofs(entities@.take(i)) as usize,
                entities@[i].1,
            ),
    {
        let mut ranges: HashMap<u64, (usize, EntityKind)> = HashMap::new();
        let mut offset: usize = 0;
        let mut i: usize = 0;
        while i < entities.len()
            invariant
                i <= entities@.len(),
                distinct_ids(entities@),
                total_dofs(entities@) <= usize::MAX,
                offset == total_dofs(entities@.take(i as int)),
                forall|k: u64|
                    ranges@.contains_key(k) <==> exists|j: int|
                        0 <= j < i && #[trigger] entities@[j].0 .0 == k,
                forall|j: int|
                    0 <= j < i ==> #[trigger] ranges@[entities@[j].0 .0] == (
                    total_dofs(entities@.take(j)) as usize,
                    entities@[j].1,
                ),
            decreases entities@.len() - i,
        {
            let (id, kind) = entities[i];
            let ghost before = ranges@;
            proof {
                assert(entities@.take(i + 1).drop_last() =~= entities@.take(i as int));
                lemma_total_dofs_prefix(entities@, i + 1);
            }
            ranges.insert(id.0, (offset, kind));
            offset = offset + kind.dof_count();
            proof {
                assert forall|k: u64|
                    ranges@.contains_key(k) <==> exists|j: int|
                        0 <= j < i + 1 && #[trigger] entities@[j].0 .0 == k by {
                    if k == id.0 {
                        assert(entities@[i as int].0 .0 == k);
                    } else if before.contains_key(k) {
                        let j = choose|j: int| 0 <= j < i && #[trigger] entities@[j].0 .0 == k;
                        assert(entities@[j].0 .0 == k);
                    }
                }
                assert forall|j: int| 0 <= j < i + 1 implies #[trigger] ranges@[entities@[j].0 .0]
                    == (total_dofs(entities@.take(j)) as usize, entities@[j].1) by {
                    if j < i {
                        assert(entities@[j].0 != entities@[i as int].0);
                        assert(entities@[j].0 .0 != id.0);
                    }
                }
            }
            i = i + 1;
        }
        proof {
            assert(entities@.take(entities@.len() as int) =~= entities@);
            assert forall|k: u64| #[trigger] ranges@.contains_key(k) implies ranges@[k].0 + dofs(
                ranges@[k].1,
            ) <= offset by {
                let j = choose|j: int| 0 <= j < entities@.len() && #[trigger] entities@[j].0 .0 == k;
                assert(entities@.take(j + 1).drop_last() =~= entities@.take(j));
                assert(entities@.take(j + 1).last() == entities@[j]);
                lemma_total_dofs_prefix(entities@, j + 1);
                lemma_total_dofs_prefix(entities@, j);
            }
        }
        DofLayout { ranges, total_dofs: offset }
    }

    /// Number of unknowns in the layout.
    pub fn total_dofs(&self) -> (n: usize)
        ensures
            n == self@.total_dofs,
    {
        self.total_dofs
    }

    /// Where `id`'s unknowns start and its kind, if the layout holds it;
    /// they end within the unknown vector.
    pub fn range(&self, id: SketchEntityId) -> (r: Option<(usize, EntityKind)>)
        ensures
            r == (if self@.ranges.contains_key(id.0) {
                Some(self@.ranges[id.0])
            } else {
                None
            }),
            r matches Some((off, kind)) ==> off + dofs(kind) <= self@.total_dofs,
    {
        proof {
            use_type_invariant(self);
        }
        match self.ranges.get(&id.0) {
            Some(range) => Some(*range),
            None => None,
        }
    }

    /// Whether the layout holds the entity `point` lies on and that entity
    /// has such a point.
    pub fn locates_point(&self, point: EntityPoint) -> (r: bool)
        ensures
            r == locates_point(self@.ranges, point),
    {
        match self.range(point.entity()) {
            Some((_, kind)) => point_fits(point, kind),
            None => false,
        }
    }

    /// Whether the layout holds `id` as a line.
    pub fn locates_line(&self, id: SketchEntityId) -> (r: bool)
        ensures
            r == locates_line(self@.ranges, id),
    {
        match self.range(id) {
            Some((_, kind)) => kind == EntityKind::Line,
            None => false,
        }
    }

    /// Whether the layout holds `id` as a circle or an arc.
    pub fn locates_curve(&self, id: SketchEntityId) -> (r: bool)
        ensures
            r == locates_curve(self@.ranges, id),
    {
        match self.range(id) {
            Some((_, kind)) => kind == EntityKind::Circle || kind == EntityKind::Arc,
            None => false,
        }
    }

    /// Whether the solver can form residuals for `c`; a constraint that it
    /// cannot is reported as failed.
    pub fn evaluable(&self, c: &Constraint) -> (r: bool)
        ensures
            r == evaluable(self@.ranges, *c),
    {
        match *c {
            Constraint::Coincident { a, b } => self.locates_point(a) && self.locates_point(b),
            Constraint::FixPoint { point, .. } => self.locates_point(point),
            Constraint::PointOnEntity { point, entity } => self.locates_point(point) && (
            self.locates_line(entity) || self.locates_curve(entity)),
            Constraint::Horizontal { entity } => self.locates_line(entity),
            Constraint::Vertical { entity } => self.locates_line(entity),
            Constraint::Parallel { a, b } => self.locates_line(a) && self.locates_line(b),
            Constraint::Perpendicular { a, b } => self.locates_line(a) && self.locates_line(b),
            Constraint::Tangent { line, curve } => self.locates_line(line) && self.locates_curve(
                curve,
            ),
            Constraint::EqualLength { a, b } => self.locates_line(a) && self.locates_line(b),
            Constraint::EqualRadius { a, b } => self.locates_curve(a) && self.locates_curve(b),
        }
    }
}

/// The points of an entity that constraint inference matches against new
/// geometry: a line's two ends; an arc's two ends and center; a circle's
/// center; none for points and rectangles.
pub open spec fn spec_inference_handles(id: SketchEntityId, kind: EntityKind) -> Seq<EntityPoint> {
    match kind {
        EntityKind::Line => seq![EntityPoint::Start(id), EntityPoint::End(id)],
        EntityKind::Arc => seq![EntityPoint::Start(id), EntityPoint::End(id), EntityPoint::Center(id)],
        EntityKind::Circle => seq![EntityPoint::Center(id)],
        EntityKind::Point => Seq::empty(),
        EntityKind::Rectangle => Seq::empty(),
    }
}

pub fn inference_handles(id: SketchEntityId, kind: EntityKind) -> (r: Vec<EntityPoint>)
    ensures
        r@ == spec_inference_handles(id, kind),
{
    match kind {
        EntityKind::Line => vec![EntityPoint::Start(id), EntityPoint::End(id)],
        EntityKind::Arc => vec![EntityPoint::Start(id), EntityPoint::End(id), EntityPoint::Center(id)],
        EntityKind::Circle => vec![EntityPoint::Center(id)],
        EntityKind::Point | EntityKind::Rectangle => Vec::new(),
    }
}

/// Every point inference matches against lies on the entity it names and
/// is a point that entity's kind has, so the solver can evaluate a
/// coincidence built from it.
pub proof fn lemma_inference_handles_fit(id: SketchEntityId, kind: EntityKind)
    ensures
        forall|i: int|
            0 <= i < spec_inference_handles(id, kind).len() ==> #[trigger] spec_inference_handles(
                id,
                kind,
            )[i].spec_entity() == id && point_on_kind(spec_inference_handles(id, kind)[i], kind),
{
}

/// Where a point's x and y sit among its entity's unknowns, for points the
/// unknowns hold directly: a point's position; a line's start (x, y of the
/// first end) and end; the center of a circle or arc; a rectangle's
/// corners, corner B taking the second corner's x and the first corner's
/// y, corner D the other way round. An arc's start and end are computed
/// from its angles and have no slots.
pub open spec fn point_offsets(point: EntityPoint, kind: EntityKind) -> Option<(nat, nat)> {
    match point {
        EntityPoint::Point(_) => if kind == EntityKind::Point { Some((0nat, 1nat)) } else { None },
        EntityPoint::Start(_) => if kind == EntityKind::Line { Some((0nat, 1nat)) } else { None },
        EntityPoint::End(_) => if kind == EntityKind::Line { Some((2nat, 3nat)) } else { None },
        EntityPoint::Center(_) => if kind == EntityKind::Circle || kind == EntityKind::Arc {
            Some((0nat, 1nat))
        } else {
            None
        },
        EntityPoint::CornerA(_) => if kind == EntityKind::Rectangle { Some((0nat, 1nat)) } else { None },
        EntityPoint::CornerB(_) => if kind == EntityKind::Rectangle { Some((2nat, 1nat)) } else { None },
        EntityPoint::CornerC(_) => if kind == EntityKind::Rectangle { Some((2nat, 3nat)) } else { None },
        EntityPoint::CornerD(_) => if kind == EntityKind::Rectangle { Some((0nat, 3nat)) } else { None },
    }
}

impl DofLayout {
    /// The positions in the unknown vector of the x and y of `point`, when
    /// the layout holds its entity and the entity stores that point
    /// directly; both lie inside the vector.
    pub fn point_slots(&self, point: EntityPoint) -> (r: Option<(usize, usize)>)
        ensures
            match r {
                Some((ix, iy)) => {
                    &&& self@.ranges.contains_key(point.spec_entity().0)
                    &&& point_offsets(point, self@.ranges[point.spec_entity().0].1) matches Some((dx, dy))
                    &&& ix == self@.ranges[point.spec_entity().0].0 + dx
                    &&& iy == self@.ranges[point.spec_entity().0].0 + dy
                    &&& ix < self@.total_dofs && iy < self@.total_dofs
                },
                None => !self@.ranges.contains_key(point.spec_entity().0) || point_offsets(
                    point,
                    self@.ranges[point.spec_entity().0].1,
                ) is None,
            },
    {
        let (off, kind) = match self.range(point.entity()) {
            Some(r) => r,
            None => return None,
        };
        let (dx, dy): (usize, usize) = match point {
            EntityPoint::Point(_) => if kind == EntityKind::Point { (0, 1) } else { return None },
            EntityPoint::Start(_) => if kind == EntityKind::Line { (0, 1) } else { return None },
            EntityPoint::End(_) => if kind == EntityKind::Line { (2, 3) } else { return None },
            EntityPoint::Center(_) => if kind == EntityKind::Circle || kind == EntityKind::Arc {
                (0, 1)
            } else {
                return None
            },
            EntityPoint::CornerA(_) => if kind == EntityKind::Rectangle { (0, 1) } else { return None },
            EntityPoint::CornerB(_) => if kind == EntityKind::Rectangle { (2, 1) } else { return None },
            EntityPoint::CornerC(_) => if kind == EntityKind::Rectangle { (2, 3) } else { return None },
            EntityPoint::CornerD(_) => if kind == EntityKind::Rectangle { (0, 3) } else { return None },
        };
        Some((off + dx, off + dy))
    }

    /// Where the four unknowns of line `id` (both endpoints) start, when the
    /// layout holds it as a line; they lie inside the vector.
    pub fn line_slots(&self, id: SketchEntityId) -> (r: Option<usize>)
        ensures
            r is Some <==> locates_line(self@.ranges, id),
            r matches Some(off) ==> off == self@.ranges[id.0].0 && off + 4 <= self@.total_dofs,
    {
        match self.range(id) {
            Some((off, kind)) => if kind == EntityKind::Line { Some(off) } else { None },
            None => None,
        }
    }

    /// Where the center and radius of circle or arc `id` start, when the
    /// layout holds it as one; they lie inside the vector.
    pub fn curve_slots(&self, id: SketchEntityId) -> (r: Option<usize>)
        ensures
            r is Some <==> locates_curve(self@.ranges, id),
            r matches Some(off) ==> off == self@.ranges[id.0].0 && off + 3 <= self@.total_dofs,
    {
        match self.range(id) {
            Some((off, kind)) => if kind == EntityKind::Circle || kind == EntityKind::Arc {
                Some(off)
            } else {
                None
            },
            None => None,
        }
    }
}

/// How many residuals a constraint contributes: two for a coincidence or a
/// fixed point (x and y), one for every other kind, none when it cannot
/// be evaluated.
pub open spec fn residuals_of(ranges: Map<u64, (usize, EntityKind)>, c: Constraint) -> nat {
    if !evaluable(ranges, c) {
        0
    } else {
        match c {
            Constraint::Coincident { .. } => 2,
            Constraint::FixPoint { .. } => 2,
            _ => 1,
        }
    }
}

/// The residuals of a list of constraints, in total.
pub open spec fn total_residuals(ranges: Map<u64, (usize, EntityKind)>, cs: Seq<Constraint>) -> nat
    decreases cs.len(),
{
    if cs.len() == 0 {
        0
    } else {
        total_residuals(ranges, cs.drop_last()) + residuals_of(ranges, cs.last())
    }
}

impl DofLayout {
    /// The number of residuals `c` contributes to the residual vector.
    pub fn residual_count(&self, c: &Constraint) -> (n: usize)
        ensures
            n == residuals_of(self@.ranges, *c),
    {
        if !self.evaluable(c) {
            return 0;
        }
        match c {
            Constraint::Coincident { .. } | Constraint::FixPoint { .. } => 2,
            _ => 1,
        }
    }

    /// The length of the residual vector of `constraints`: the solver
    /// measures free unknowns only when it is not empty.
    pub fn residual_total(&self, constraints: &[Constraint]) -> (n: usize)
        requires
            constraints@.len() <= usize::MAX / 2,
        ensures
            n == total_residuals(self@.ranges, constraints@),
            n <= 2 * constraints@.len(),
    {
        let mut n: usize = 0;
        let mut i: usize = 0;
        while i < constraints.len()
            invariant
                constraints@.len() <= usize::MAX / 2,
                i <= constraints@.len(),
                n == total_residuals(self@.ranges, constraints@.take(i as int)),
                n <= 2 * i,
            decreases constraints@.len() - i,
        {
            proof {
                assert(constraints@.take(i + 1).drop_last() =~= constraints@.take(i as int));
            }
            n = n + self.residual_count(&constraints[i]);
            i = i + 1;
        }
        proof {
            assert(constraints@.take(constraints@.len() as int) =~= constraints@);
        }
        n
    }
}

/// How one constraint is reported: failed when it cannot be evaluated,
/// unsatisfied when its residual norm exceeds the satisfaction tolerance,
/// and not at all otherwise.
pub open spec fn spec_diagnostic_kind(evaluable: bool, exceeds_tolerance: bool) -> Option<
    ConstraintDiagnosticKind,
> {
    if !evaluable {
        Some(ConstraintDiagnosticKind::Failed)
    } else if exceeds_tolerance {
        Some(ConstraintDiagnosticKind::Unsatisfied)
    } else {
        None
    }
}

pub fn diagnostic_kind(evaluable: bool, exceeds_tolerance: bool) -> (r: Option<
    ConstraintDiagnosticKind,
>)
    ensures
        r == spec_diagnostic_kind(evaluable, exceeds_tolerance),
{
    if !evaluable {
        Some(ConstraintDiagnosticKind::Failed)
    } else if exceeds_tolerance {
        Some(ConstraintDiagnosticKind::Unsatisfied)
    } else {
        None
    }
}

/// How many of the reported kinds are `kind`.
pub open spec fn count_kind(kinds: Seq<Option<ConstraintDiagnosticKind>>, kind: ConstraintDiagnosticKind) -> nat
    decreases kinds.len(),
{
    if kinds.len() == 0 {
        0
    } else {
        count_kind(kinds.drop_last(), kind) + if kinds.last() == Some(kind) {
            1nat
        } else {
            0nat
        }
    }
}

/// Failed and unsatisfied reports together never outnumber the constraints.
pub proof fn lemma_counts_bounded(kinds: Seq<Option<ConstraintDiagnosticKind>>)
    ensures
        count_kind(kinds, ConstraintDiagnosticKind::Failed) + count_kind(
            kinds,
            ConstraintDiagnosticKind::Unsatisfied,
        ) <= kinds.len(),
    decreases kinds.len(),
{
    if kinds.len() > 0 {
        lemma_counts_bounded(kinds.drop_last());
    }
}

/// A count is zero exactly when no report has that kind.
pub proof fn lemma_count_zero(kinds: Seq<Option<ConstraintDiagnosticKind>>, kind: ConstraintDiagnosticKind)
    ensures
        count_kind(kinds, kind) == 0 <==> forall|i: int|
            0 <= i < kinds.len() ==> #[trigger] kinds[i] != Some(kind),
    decreases kinds.len(),
{
    if kinds.len() > 0 {
        lemma_count_zero(kinds.drop_last(), kind);
        if count_kind(kinds, kind) == 0 {
            assert forall|i: int| 0 <= i < kinds.len() implies #[trigger] kinds[i] != Some(kind) by {
                if i < kinds.len() - 1 {
                    assert(kinds.drop_last()[i] == kinds[i]);
                }
            }
        } else if forall|i: int| 0 <= i < kinds.len() ==> #[trigger] kinds[i] != Some(kind) {
            assert forall|i: int| 0 <= i < kinds.drop_last().len() implies #[trigger] kinds.drop_last()[i]
                != Some(kind) by {
                assert(kinds.drop_last()[i] == kinds[i]);
            }
            assert(kinds[kinds.len() - 1] != Some(kind));
        }
    }
}

pub fn count_diagnostics(kinds: &[Option<ConstraintDiagnosticKind>], kind: ConstraintDiagnosticKind) -> (n: usize)
    ensures
        n == count_kind(kinds@, kind),
{
    let mut n: usize = 0;
    let mut i: usize = 0;
    while i < kinds.len()
        invariant
            i <= kinds@.len(),
            n == count_kind(kinds@.take(i as int), kind),
            n <= i,
        decreases kinds@.len() - i,
    {
        proof {
            assert(kinds@.take(i + 1).drop_last() =~= kinds@.take(i as int));
        }
        if kinds[i] == Some(kind) {
            n = n + 1;
        }
        i = i + 1;
    }
    proof {
        assert(kinds@.take(kinds@.len() as int) =~= kinds@);
    }
    n
}

/// Free unknowns left after a solve: all of them when some constraint
/// failed or there are no residuals, otherwise the unknowns minus the rank
/// of the residual Jacobian, never below zero.
pub open spec fn spec_free_dofs(total_dofs: nat, failed_count: nat, residual_count: nat, rank: nat) -> nat {
    if failed_count > 0 || residual_count == 0 {
        total_dofs
    } else if rank >= total_dofs {
        0
    } else {
        (total_dofs - rank) as nat
    }
}

/// `rank` is read only when no constraint failed and residuals exist.
pub fn estimated_free_dofs(total_dofs: usize, failed_count: usize, residual_count: usize, rank: usize) -> (n: usize)
    ensures
        n == spec_free_dofs(total_dofs as nat, failed_count as nat, residual_count as nat, rank as nat),
{
    if failed_count > 0 || residual_count == 0 {
        total_dofs
    } else {
        total_dofs.saturating_sub(rank)
    }
}

/// The status of a solve with constraints: failed if any constraint could
/// not be evaluated, else conflicting if any stays unsatisfied, else
/// underdefined while free unknowns remain, else solved.
pub open spec fn spec_solve_status(failed_count: nat, unsatisfied_count: nat, free_dofs: nat) -> SolveStatus {
    if failed_count > 0 {
        SolveStatus::Failed
    } else if unsatisfied_count > 0 {
        SolveStatus::Conflicting
    } else if free_dofs > 0 {
        SolveStatus::Underdefined
    } else {
        SolveStatus::Solved
    }
}

pub fn solve_status(failed_count: usize, unsatisfied_count: usize, free_dofs: usize) -> (s: SolveStatus)
    ensures
        s == spec_solve_status(failed_count as nat, unsatisfied_count as nat, free_dofs as nat),
{
    if failed_count > 0 {
        SolveStatus::Failed
    } else if unsatisfied_count > 0 {
        SolveStatus::Conflicting
    } else if free_dofs > 0 {
        SolveStatus::Underdefined
    } else {
        SolveStatus::Solved
    }
}

/// The status of a sketch without constraints: underdefined when it has
/// unknowns, solved when it has none.
pub fn unconstrained_status(total_dofs: usize) -> (s: SolveStatus)
    ensures
        s == (if total_dofs > 0 {
            SolveStatus::Underdefined
        } else {
            SolveStatus::Solved
        }),
{
    if total_dofs > 0 {
        SolveStatus::Underdefined
    } else {
        SolveStatus::Solved
    }
}

/// The counts and status a solve reports.
#[derive(Clone, Copy, Debug, PartialEq, Eq, Structural)]
pub struct SolveSummary {
    pub status: SolveStatus,
    pub constraint_count: usize,
    pub unsatisfied_count: usize,
    pub failed_count: usize,
    pub estimated_free_dofs: usize,
}

/// Sums up a solve from each constraint's report (`None` when satisfied),
/// the layout's unknown count, the number of residuals and the Jacobian's
/// rank.
pub fn summarize(
    kinds: &[Option<ConstraintDiagnosticKind>],
    total_dofs: usize,
    residual_count: usize,
    rank: usize,
) -> (s: SolveSummary)
    ensures
        s.constraint_count == kinds@.len(),
        s.failed_count == count_kind(kinds@, ConstraintDiagnosticKind::Failed),
        s.unsatisfied_count == count_kind(kinds@, ConstraintDiagnosticKind::Unsatisfied),
        s.failed_count + s.unsatisfied_count <= s.constraint_count,
        s.estimated_free_dofs == spec_free_dofs(
            total_dofs as nat,
            s.failed_count as nat,
            residual_count as nat,
            rank as nat,
        ),
        s.status == spec_solve_status(
            s.failed_count as nat,
            s.unsatisfied_count as nat,
            s.estimated_free_dofs as nat,
        ),
{
    let failed_count = count_diagnostics(kinds, ConstraintDiagnosticKind::Failed);
    let unsatisfied_count = count_diagnostics(kinds, ConstraintDiagnosticKind::Unsatisfied);
    proof {
        lemma_counts_bounded(kinds@);
    }
    let free = estimated_free_dofs(total_dofs, failed_count, residual_count, rank);
    let status = solve_status(failed_count, unsatisfied_count, free);
    SolveSummary {
        status,
        constraint_count: kinds.len(),
        unsatisfied_count,
        failed_count,
        estimated_free_dofs: free,
    }
}

/// A solve is reported as solved exactly when every constraint was
/// evaluated and satisfied and no free unknowns remain; it is reported as
/// failed exactly when some constraint could not be evaluated.
pub proof fn lemma_status_meaning(
    kinds: Seq<Option<ConstraintDiagnosticKind>>,
    total_dofs: nat,
    residual_count: nat,
    rank: nat,
)
    ensures
        ({
            let failed = count_kind(kinds, ConstraintDiagnosticKind::Failed);
            let unsatisfied = count_kind(kinds, ConstraintDiagnosticKind::Unsatisfied);
            let free = spec_free_dofs(total_dofs, failed, residual_count, rank);
            let status = spec_solve_status(failed, unsatisfied, free);
            &&& (status == SolveStatus::Solved <==> (forall|i: int|
                0 <= i < kinds.len() ==> #[trigger] kinds[i] is None) && free == 0)
            &&& (status == SolveStatus::Failed <==> exists|i: int|
                0 <= i < kinds.len() && #[trigger] kinds[i] == Some(ConstraintDiagnosticKind::Failed))
            &&& (status == SolveStatus::Conflicting <==> (forall|i: int|
                0 <= i < kinds.len() ==> #[trigger] kinds[i] != Some(ConstraintDiagnosticKind::Failed)) && exists|
                i: int,
            | 0 <= i < kinds.len() && #[trigger] kinds[i] == Some(ConstraintDiagnosticKind::Unsatisfied))
            &&& (status == SolveStatus::Underdefined <==> (forall|i: int|
                0 <= i < kinds.len() ==> #[trigger] kinds[i] is None) && free > 0)
            &&& free <= total_dofs
            &&& (failed > 0 || residual_count == 0 ==> free == total_dofs)
        }),
{
    lemma_count_zero(kinds, ConstraintDiagnosticKind::Failed);
    lemma_count_zero(kinds, ConstraintDiagnosticKind::Unsatisfied);
    let failed = count_kind(kinds, ConstraintDiagnosticKind::Failed);
    let unsatisfied = count_kind(kinds, ConstraintDiagnosticKind::Unsatisfied);
    if failed == 0 && unsatisfied == 0 {
        assert forall|i: int| 0 <= i < kinds.len() implies #[trigger] kinds[i] is None by {
            match kinds[i] {
                Some(k) => {
                    match k {
                        ConstraintDiagnosticKind::Failed => {},
                        ConstraintDiagnosticKind::Unsatisfied => {},
                    }
                },
                None => {},
            }
        }
    }
    if forall|i: int| 0 <= i < kinds.len() ==> #[trigger] kinds[i] is None {
        assert forall|i: int| 0 <= i < kinds.len() implies #[trigger] kinds[i] != Some(
            ConstraintDiagnosticKind::Failed,
        ) by {
            assert(kinds[i] is None);
        }
        assert forall|i: int| 0 <= i < kinds.len() implies #[trigger] kinds[i] != Some(
            ConstraintDiagnosticKind::Unsatisfied,
        ) by {
            assert(kinds[i] is None);
        }
    }
}


/// Which constraints the solver can evaluate, by the shapes the layout
/// gives their entities: a parallel, perpendicular or equal-length
/// constraint exactly when both entities are lines; a horizontal or
/// vertical one exactly when its entity is a line; a tangency exactly when
/// it joins a line to a circle or arc; an equal-radius constraint exactly
/// when both entities are circles or arcs; a point constraint exactly when
/// every point it names lies on an entity of the layout that has it.
pub proof fn lemma_evaluable_by_shape(ranges: Map<u64, (usize, EntityKind)>, c: Constraint)
    ensures
        match c {
            Constraint::Parallel { a, b } | Constraint::Perpendicular { a, b } | Constraint::EqualLength {
                a,
                b,
            } => evaluable(ranges, c) <==> (ranges.contains_key(a.0) && ranges[a.0].1 == EntityKind::Line
                && ranges.contains_key(b.0) && ranges[b.0].1 == EntityKind::Line),
            Constraint::Horizontal { entity } | Constraint::Vertical { entity } => evaluable(ranges, c) <==> (
            ranges.contains_key(entity.0) && ranges[entity.0].1 == EntityKind::Line),
            Constraint::Tangent { line, curve } => evaluable(ranges, c) <==> (ranges.contains_key(line.0)
                && ranges[line.0].1 == EntityKind::Line && ranges.contains_key(curve.0) && (ranges[curve.0].1
                == EntityKind::Circle || ranges[curve.0].1 == EntityKind::Arc)),
            Constraint::EqualRadius { a, b } => evaluable(ranges, c) <==> (ranges.contains_key(a.0) && (
            ranges[a.0].1 == EntityKind::Circle || ranges[a.0].1 == EntityKind::Arc) && ranges.contains_key(b.0)
                && (ranges[b.0].1 == EntityKind::Circle || ranges[b.0].1 == EntityKind::Arc)),
            Constraint::Coincident { a, b } => evaluable(ranges, c) <==> (ranges.contains_key(
                a.spec_entity().0,
            ) && point_on_kind(a, ranges[a.spec_entity().0].1) && ranges.contains_key(b.spec_entity().0)
                && point_on_kind(b, ranges[b.spec_entity().0].1)),
            Constraint::FixPoint { point, .. } => evaluable(ranges, c) <==> (ranges.contains_key(
                point.spec_entity().0,
            ) && point_on_kind(point, ranges[point.spec_entity().0].1)),
            Constraint::PointOnEntity { point, entity } => evaluable(ranges, c) <==> (ranges.contains_key(
                point.spec_entity().0,
            ) && point_on_kind(point, ranges[point.spec_entity().0].1) && ranges.contains_key(entity.0) && (
            ranges[entity.0].1 == EntityKind::Line || ranges[entity.0].1 == EntityKind::Circle
                || ranges[entity.0].1 == EntityKind::Arc)),
        },
        evaluable(ranges, c) ==> residuals_of(ranges, c) == match c {
            Constraint::Coincident { .. } | Constraint::FixPoint { .. } => 2nat,
            _ => 1nat,
        },
        !evaluable(ranges, c) ==> residuals_of(ranges, c) == 0,
{
}

/// In the layout of a sketch, a constraint between two lines of the
/// sketch that needs lines (parallel, perpendicular, equal length) is
/// evaluated and gives one residual.
pub proof fn lemma_two_line_constraints_evaluable(
    entities: Seq<(SketchEntityId, EntityKind)>,
    layout: DofLayoutView,
    i: int,
    j: int,
    c: Constraint,
)
    requires
        forall|k: u64|
            layout.ranges.contains_key(k) <==> exists|x: int|
                0 <= x < entities.len() && #[trigger] entities[x].0.0 == k,
        forall|x: int|
            0 <= x < entities.len() ==> #[trigger] layout.ranges[entities[x].0.0].1 == entities[x].1,
        0 <= i < entities.len(),
        0 <= j < entities.len(),
        entities[i].1 == EntityKind::Line,
        entities[j].1 == EntityKind::Line,
        c == (Constraint::Parallel { a: entities[i].0, b: entities[j].0 }) || c == (Constraint::Perpendicular {
            a: entities[i].0,
            b: entities[j].0,
        }) || c == (Constraint::EqualLength { a: entities[i].0, b: entities[j].0 }),
    ensures
        evaluable(layout.ranges, c),
        residuals_of(layout.ranges, c) == 1,
{
    assert(layout.ranges.contains_key(entities[i].0.0));
    assert(layout.ranges.contains_key(entities[j].0.0));
    lemma_evaluable_by_shape(layout.ranges, c);
}

/// A constraint is reported failed exactly when it cannot be evaluated,
/// unsatisfied exactly when it can but its residual exceeds the tolerance,
/// and not at all exactly when it can and stays within it.
pub proof fn lemma_diagnostic_meaning(evaluable: bool, exceeds_tolerance: bool)
    ensures
        spec_diagnostic_kind(evaluable, exceeds_tolerance) == Some(ConstraintDiagnosticKind::Failed) <==> !evaluable,
        spec_diagnostic_kind(evaluable, exceeds_tolerance) == Some(ConstraintDiagnosticKind::Unsatisfied) <==> evaluable
            && exceeds_tolerance,
        spec_diagnostic_kind(evaluable, exceeds_tolerance) is None <==> evaluable && !exceeds_tolerance,
{
}
} // verus!
