//! The command dispatcher: the single place where commands change the
//! project and the selection. A command names sketches, entities and
//! bodies by id; what it does to coordinates is left to the application,
//! which the dispatcher tells through the action it returns: the new
//! entities to give coordinates, the entity whose measure to set, the new
//! body to build, and the sketch to solve again.

use vstd::prelude::*;

use crate::command::{CommandKind, SelectionEditMode};
use crate::constraint::Constraint;
use crate::dispatch::{
    after_fillet, carry_fillet_selection, deletion_targets, entity_item, existing_body_items,
    existing_entity_items, forget_deleted, forget_entity, forget_sketch, of_sketch, select_bodies, select_body,
    select_entities, select_single, toggle_entity,
};
use crate::feature::FeatureKind;
use crate::ids::{BodyId, ConstraintId, FeatureId, SketchEntityId, SketchId};
use crate::project::{
    delete_bodies, delete_entities, fillet_ids, filleted, has_body, has_entity, has_sketch, project_wf,
    sketch_of, sketch_pos, with_new_body, with_sketch_of, without_entity, without_sketch, ProjectModel, ProjectView,
    SketchView,
};
use crate::selection::{edited, toggled, Selection, SelectionItem};
use crate::sketch::slot_key;
use crate::solver::EntityKind;
use crate::topology::ProfileKey;

verus! {

/// A command with its ids. Measures, coordinates and profiles stay with
/// the application: a fillet comes with the number of trimmed lines its
/// geometry keeps (`None` when the lines cannot be filleted), and an
/// extrusion or revolution with whether its parameters are usable and the
/// key of its profile in the sketch, if one was found.
pub enum Command {
    CreateSketch { name: String, workplane: u64 },
    SetActiveSketch(SketchId),
    DeleteSketch(SketchId),
    AddLine { sketch: SketchId },
    AddRectangle { sketch: SketchId },
    AddCircle { sketch: SketchId },
    AddArc { sketch: SketchId },
    ApplyLineFillet { sketch: SketchId, line_a: SketchEntityId, line_b: SketchEntityId, trims: Option<usize> },
    AddDistanceDimension { sketch: SketchId },
    AddConstraint { sketch: SketchId, constraint: Constraint },
    RemoveConstraint { sketch: SketchId, constraint: ConstraintId },
    SetLineLength { sketch: SketchId, entity: SketchEntityId },
    SetRectangleWidth { sketch: SketchId, entity: SketchEntityId },
    SetRectangleHeight { sketch: SketchId, entity: SketchEntityId },
    SetCircleRadius { sketch: SketchId, entity: SketchEntityId },
    SetArcRadius { sketch: SketchId, entity: SketchEntityId },
    SetArcSweepDegrees { sketch: SketchId, entity: SketchEntityId },
    SetPointX { sketch: SketchId, entity: SketchEntityId },
    SetPointY { sketch: SketchId, entity: SketchEntityId },
    DeleteEntity { sketch: SketchId, entity: SketchEntityId },
    SelectSingle { sketch: SketchId, entity: SketchEntityId },
    SelectEntities { sketch: SketchId, entities: Vec<SketchEntityId>, mode: SelectionEditMode },
    SelectVertices { sketch: SketchId },
    SelectBody(BodyId),
    SelectBodies { bodies: Vec<BodyId>, mode: SelectionEditMode },
    ToggleSelection { sketch: SketchId, entity: SketchEntityId },
    ClearSelection,
    DeleteSelection,
    ExtrudeProfile { sketch: SketchId, usable: bool, key: Option<ProfileKey> },
    RevolveProfile { sketch: SketchId, usable: bool, key: Option<ProfileKey> },
    NoOp,
}

impl Command {
    /// The kind of the command.
    pub open spec fn spec_kind(&self) -> CommandKind {
        match self {
            Command::CreateSketch { .. } => CommandKind::CreateSketch,
            Command::SetActiveSketch(_) => CommandKind::SetActiveSketch,
            Command::DeleteSketch(_) => CommandKind::DeleteSketch,
            Command::AddLine { .. } => CommandKind::AddLine,
            Command::AddRectangle { .. } => CommandKind::AddRectangle,
            Command::AddCircle { .. } => CommandKind::AddCircle,
            Command::AddArc { .. } => CommandKind::AddArc,
            Command::ApplyLineFillet { .. } => CommandKind::ApplyLineFillet,
            Command::AddDistanceDimension { .. } => CommandKind::AddDistanceDimension,
            Command::AddConstraint { .. } => CommandKind::AddConstraint,
            Command::RemoveConstraint { .. } => CommandKind::RemoveConstraint,
            Command::SetLineLength { .. } => CommandKind::SetLineLength,
            Command::SetRectangleWidth { .. } => CommandKind::SetRectangleWidth,
            Command::SetRectangleHeight { .. } => CommandKind::SetRectangleHeight,
            Command::SetCircleRadius { .. } => CommandKind::SetCircleRadius,
            Command::SetArcRadius { .. } => CommandKind::SetArcRadius,
            Command::SetArcSweepDegrees { .. } => CommandKind::SetArcSweepDegrees,
            Command::SetPointX { .. } => CommandKind::SetPointX,
            Command::SetPointY { .. } => CommandKind::SetPointY,
            Command::DeleteEntity { .. } => CommandKind::DeleteEntity,
            Command::SelectSingle { .. } => CommandKind::SelectSingle,
            Command::SelectEntities { .. } => CommandKind::SelectEntities,
            Command::SelectVertices { .. } => CommandKind::SelectVertices,
            Command::SelectBody(_) => CommandKind::SelectBody,
            Command::SelectBodies { .. } => CommandKind::SelectBodies,
            Command::ToggleSelection { .. } => CommandKind::ToggleSelection,
            Command::ClearSelection => CommandKind::ClearSelection,
            Command::DeleteSelection => CommandKind::DeleteSelection,
            Command::ExtrudeProfile { .. } => CommandKind::ExtrudeProfile,
            Command::RevolveProfile { .. } => CommandKind::RevolveProfile,
            Command::NoOp => CommandKind::NoOp,
        }
    }

    /// The kind of the command.
    pub fn kind(&self) -> (k: CommandKind)
        ensures
            k == self.spec_kind(),
    {
        match self {
            Command::CreateSketch { .. } => CommandKind::CreateSketch,
            Command::SetActiveSketch(_) => CommandKind::SetActiveSketch,
            Command::DeleteSketch(_) => CommandKind::DeleteSketch,
            Command::AddLine { .. } => CommandKind::AddLine,
            Command::AddRectangle { .. } => CommandKind::AddRectangle,
            Command::AddCircle { .. } => CommandKind::AddCircle,
            Command::AddArc { .. } => CommandKind::AddArc,
            Command::ApplyLineFillet { .. } => CommandKind::ApplyLineFillet,
            Command::AddDistanceDimension { .. } => CommandKind::AddDistanceDimension,
            Command::AddConstraint { .. } => CommandKind::AddConstraint,
            Command::RemoveConstraint { .. } => CommandKind::RemoveConstraint,
            Command::SetLineLength { .. } => CommandKind::SetLineLength,
            Command::SetRectangleWidth { .. } => CommandKind::SetRectangleWidth,
            Command::SetRectangleHeight { .. } => CommandKind::SetRectangleHeight,
            Command::SetCircleRadius { .. } => CommandKind::SetCircleRadius,
            Command::SetArcRadius { .. } => CommandKind::SetArcRadius,
            Command::SetArcSweepDegrees { .. } => CommandKind::SetArcSweepDegrees,
            Command::SetPointX { .. } => CommandKind::SetPointX,
            Command::SetPointY { .. } => CommandKind::SetPointY,
            Command::DeleteEntity { .. } => CommandKind::DeleteEntity,
            Command::SelectSingle { .. } => CommandKind::SelectSingle,
            Command::SelectEntities { .. } => CommandKind::SelectEntities,
            Command::SelectVertices { .. } => CommandKind::SelectVertices,
            Command::SelectBody(_) => CommandKind::SelectBody,
            Command::SelectBodies { .. } => CommandKind::SelectBodies,
            Command::ToggleSelection { .. } => CommandKind::ToggleSelection,
            Command::ClearSelection => CommandKind::ClearSelection,
            Command::DeleteSelection => CommandKind::DeleteSelection,
            Command::ExtrudeProfile { .. } => CommandKind::ExtrudeProfile,
            Command::RevolveProfile { .. } => CommandKind::RevolveProfile,
            Command::NoOp => CommandKind::NoOp,
        }
    }

    /// The sketch the command works on, for the commands that name one.
    pub open spec fn spec_target(&self) -> Option<SketchId> {
        match self {
            Command::AddLine { sketch }
            | Command::AddRectangle { sketch }
            | Command::AddCircle { sketch }
            | Command::AddArc { sketch }
            | Command::AddDistanceDimension { sketch } => Some(*sketch),
            Command::ApplyLineFillet { sketch, .. }
            | Command::AddConstraint { sketch, .. }
            | Command::RemoveConstraint { sketch, .. }
            | Command::SetLineLength { sketch, .. }
            | Command::SetRectangleWidth { sketch, .. }
            | Command::SetRectangleHeight { sketch, .. }
            | Command::SetCircleRadius { sketch, .. }
            | Command::SetArcRadius { sketch, .. }
            | Command::SetArcSweepDegrees { sketch, .. }
            | Command::SetPointX { sketch, .. }
            | Command::SetPointY { sketch, .. }
            | Command::DeleteEntity { sketch, .. }
            | Command::SelectSingle { sketch, .. }
            | Command::SelectEntities { sketch, .. }
            | Command::SelectVertices { sketch }
            | Command::ToggleSelection { sketch, .. }
            | Command::ExtrudeProfile { sketch, .. }
            | Command::RevolveProfile { sketch, .. } => Some(*sketch),
            _ => None,
        }
    }

    /// The sketch the command works on, for the commands that name one.
    pub fn target(&self) -> (r: Option<SketchId>)
        ensures
            r == self.spec_target(),
    {
        match self {
            Command::AddLine { sketch }
            | Command::AddRectangle { sketch }
            | Command::AddCircle { sketch }
            | Command::AddArc { sketch }
            | Command::AddDistanceDimension { sketch } => Some(*sketch),
            Command::ApplyLineFillet { sketch, .. }
            | Command::AddConstraint { sketch, .. }
            | Command::RemoveConstraint { sketch, .. }
            | Command::SetLineLength { sketch, .. }
            | Command::SetRectangleWidth { sketch, .. }
            | Command::SetRectangleHeight { sketch, .. }
            | Command::SetCircleRadius { sketch, .. }
            | Command::SetArcRadius { sketch, .. }
            | Command::SetArcSweepDegrees { sketch, .. }
            | Command::SetPointX { sketch, .. }
            | Command::SetPointY { sketch, .. }
            | Command::DeleteEntity { sketch, .. }
            | Command::SelectSingle { sketch, .. }
            | Command::SelectEntities { sketch, .. }
            | Command::SelectVertices { sketch }
            | Command::ToggleSelection { sketch, .. }
            | Command::ExtrudeProfile { sketch, .. }
            | Command::RevolveProfile { sketch, .. } => Some(*sketch),
            _ => None,
        }
    }
}

/// What the application does after a command: give coordinates to the new
/// entities, set the measure of the named entity, build the new body, and
/// solve the named sketch again.
pub struct DispatchAction {
    pub new_sketch: Option<SketchId>,
    pub new_entities: Vec<SketchEntityId>,
    pub edit: Option<(SketchId, SketchEntityId)>,
    pub new_body: Option<(BodyId, FeatureId)>,
    pub solve: Option<SketchId>,
}

/// Whether sketch `s` has entity `e` of shape `kind`.
pub open spec fn has_entity_of(s: SketchView, e: SketchEntityId, kind: EntityKind) -> bool {
    exists|k: int| 0 <= k < s.entities.len() && #[trigger] s.entities[k] == (e, kind)
}

/// For each listed entity, whether sketch `s` has it.
pub open spec fn entity_flags(s: SketchView, entities: Seq<SketchEntityId>) -> Seq<bool> {
    entities.map_values(|e: SketchEntityId| has_entity(s, e))
}

/// For each listed body, whether the project has it.
pub open spec fn body_flags(p: ProjectView, bodies: Seq<BodyId>) -> Seq<bool> {
    bodies.map_values(|b: BodyId| has_body(p, b))
}

/// The shape a measure command works on.
pub open spec fn edit_shape(c: Command) -> Option<EntityKind> {
    match c {
        Command::SetLineLength { .. } => Some(EntityKind::Line),
        Command::SetRectangleWidth { .. } | Command::SetRectangleHeight { .. } => Some(
            EntityKind::Rectangle,
        ),
        Command::SetCircleRadius { .. } => Some(EntityKind::Circle),
        Command::SetArcRadius { .. } | Command::SetArcSweepDegrees { .. } => Some(EntityKind::Arc),
        Command::SetPointX { .. } | Command::SetPointY { .. } => Some(EntityKind::Point),
        _ => None,
    }
}

/// The shape an entity-adding command adds.
pub open spec fn added_shape(c: Command) -> Option<EntityKind> {
    match c {
        Command::AddLine { .. } => Some(EntityKind::Line),
        Command::AddRectangle { .. } => Some(EntityKind::Rectangle),
        Command::AddCircle { .. } => Some(EntityKind::Circle),
        Command::AddArc { .. } => Some(EntityKind::Arc),
        _ => None,
    }
}

/// The project `p` with a new entity of shape `kind` in sketch `sketch`.
pub open spec fn with_new_entity(p: ProjectView, sketch: SketchId, kind: EntityKind) -> ProjectView {
    with_sketch_of(
        ProjectView { next_id: (p.next_id + 1) as u64, ..p },
        sketch,
        SketchView {
            entities: sketch_of(p, sketch).entities.push((SketchEntityId(p.next_id), kind)),
            ..sketch_of(p, sketch)
        },
    )
}

/// Whether constraint `c` may join sketch `s`: every entity it references
/// is in the sketch and the sketch holds no equal constraint.
pub open spec fn constraint_joins(s: SketchView, c: Constraint) -> bool {
    &&& forall|i: int|
        0 <= i < c.spec_referenced_entities().len() ==> has_entity(s, #[trigger] c.spec_referenced_entities()[i])
    &&& !exists|k: u64| #[trigger] s.constraints.contains_key(k) && s.constraints[k] == c
}

/// What applying `c` to project `p` with selection `s` makes of them: the
/// project `q` and the selection `t`.
pub open spec fn dispatched_state(
    p: ProjectView,
    s: Set<SelectionItem>,
    c: Command,
    q: ProjectView,
    t: Set<SelectionItem>,
) -> bool {
    match c {
        Command::CreateSketch { name, workplane } => if p.workplanes.contains(workplane) {
            &&& q == (ProjectView {
                sketches: p.sketches.push(
                    SketchView {
                        id: SketchId(p.next_id),
                        name: name@,
                        workplane,
                        entities: Seq::empty(),
                        dimensions: Seq::empty(),
                        constraints: Map::empty(),
                    },
                ),
                active_sketch: Some(SketchId(p.next_id)),
                next_id: (p.next_id + 1) as u64,
                ..p
            })
            &&& t == Set::<SelectionItem>::empty()
        } else {
            q == p && t == s
        },
        Command::SetActiveSketch(id) => if has_sketch(p, id) {
            q == (ProjectView { active_sketch: Some(id), ..p }) && t == Set::<SelectionItem>::empty()
        } else {
            q == p && t == s
        },
        Command::DeleteSketch(id) => q == without_sketch(p, id) && t == s.filter(
            |item: SelectionItem| !of_sketch(item, id),
        ),
        Command::AddLine { sketch }
        | Command::AddRectangle { sketch }
        | Command::AddCircle { sketch }
        | Command::AddArc { sketch } => t == s && if has_sketch(p, sketch) {
            q == with_new_entity(p, sketch, added_shape(c)->Some_0)
        } else {
            q == p
        },
        Command::ApplyLineFillet { sketch, line_a, line_b, trims } => if has_sketch(p, sketch) && line_a
            != line_b && has_entity(sketch_of(p, sketch), line_a) && has_entity(sketch_of(p, sketch), line_b)
            && trims is Some && trims->Some_0 <= 2 {
            let n = trims->Some_0;
            &&& q == with_sketch_of(
                ProjectView { next_id: (p.next_id + n + 1) as u64, ..p },
                sketch,
                filleted(sketch_of(p, sketch), line_a, line_b, p.next_id, n as nat),
            )
            &&& t == after_fillet(s, sketch, line_a, line_b, seq![line_a, line_b], fillet_ids(p.next_id, n as nat))
        } else {
            q == p && t == s
        },
        Command::AddDistanceDimension { sketch } => t == s && if has_sketch(p, sketch) {
            q == with_sketch_of(
                ProjectView { next_id: (p.next_id + 1) as u64, ..p },
                sketch,
                SketchView {
                    dimensions: sketch_of(p, sketch).dimensions.push(p.next_id),
                    ..sketch_of(p, sketch)
                },
            )
        } else {
            q == p
        },
        Command::AddConstraint { sketch, constraint } => t == s && if has_sketch(p, sketch)
            && constraint_joins(sketch_of(p, sketch), constraint) {
            exists|k: u64|
                !sketch_of(p, sketch).constraints.contains_key(k) && q == with_sketch_of(
                    p,
                    sketch,
                    SketchView {
                        constraints: sketch_of(p, sketch).constraints.insert(k, constraint),
                        ..sketch_of(p, sketch)
                    },
                )
        } else {
            q == p
        },
        Command::RemoveConstraint { sketch, constraint } => t == s && if has_sketch(p, sketch) {
            q == with_sketch_of(
                p,
                sketch,
                SketchView {
                    constraints: sketch_of(p, sketch).constraints.remove(slot_key(constraint.0)),
                    ..sketch_of(p, sketch)
                },
            )
        } else {
            q == p
        },
        Command::SetLineLength { sketch, entity }
        | Command::SetRectangleWidth { sketch, entity }
        | Command::SetRectangleHeight { sketch, entity }
        | Command::SetCircleRadius { sketch, entity }
        | Command::SetArcRadius { sketch, entity }
        | Command::SetArcSweepDegrees { sketch, entity }
        | Command::SetPointX { sketch, entity }
        | Command::SetPointY { sketch, entity } => {
            &&& q == p
            &&& t == s
        },
        Command::DeleteEntity { sketch, entity } => {
            &&& q == if has_sketch(p, sketch) {
                with_sketch_of(p, sketch, without_entity(sketch_of(p, sketch), entity))
            } else {
                p
            }
            &&& t == s.remove(entity_item(sketch, entity))
        },
        Command::SelectSingle { sketch, entity } => q == p && t == if has_sketch(p, sketch) && has_entity(
            sketch_of(p, sketch),
            entity,
        ) {
            Set::<SelectionItem>::empty().insert(entity_item(sketch, entity))
        } else {
            Set::<SelectionItem>::empty()
        },
        Command::SelectEntities { sketch, entities, mode } => q == p && t == if has_sketch(p, sketch) {
            edited(
                s,
                existing_entity_items(sketch, entities@, entity_flags(sketch_of(p, sketch), entities@)),
                mode,
            )
        } else {
            Set::<SelectionItem>::empty()
        },
        Command::SelectVertices { sketch } => q == p && t == if has_sketch(p, sketch) {
            s
        } else {
            Set::<SelectionItem>::empty()
        },
        Command::SelectBody(body) => q == p && t == if has_body(p, body) {
            Set::<SelectionItem>::empty().insert(SelectionItem::Body(body))
        } else {
            Set::<SelectionItem>::empty()
        },
        Command::SelectBodies { bodies, mode } => q == p && t == edited(
            s,
            existing_body_items(bodies@, body_flags(p, bodies@)),
            mode,
        ),
        Command::ToggleSelection { sketch, entity } => q == p && t == if has_sketch(p, sketch) && has_entity(
            sketch_of(p, sketch),
            entity,
        ) {
            toggled(s, entity_item(sketch, entity))
        } else {
            s.remove(entity_item(sketch, entity))
        },
        Command::ClearSelection => q == p && t == Set::<SelectionItem>::empty(),
        Command::DeleteSelection => {
            &&& t == s.filter(|item: SelectionItem| item is Sketch)
            &&& exists|dels: Seq<(SketchId, SketchEntityId)>, bodies: Seq<BodyId>|
                (forall|sk: SketchId, e: SketchEntityId|
                    dels.contains((sk, e)) <==> s.contains(entity_item(sk, e))) && (forall|b: BodyId|
                    bodies.contains(b) <==> s.contains(SelectionItem::Body(b))) && q == delete_bodies(
                    delete_entities(p, dels),
                    bodies,
                )
        },
        Command::ExtrudeProfile { sketch, usable, key } => if has_sketch(p, sketch) && usable {
            &&& q == with_new_body(p, FeatureKind::Extrude, sketch, key)
            &&& t == Set::<SelectionItem>::empty().insert(SelectionItem::Body(BodyId(p.next_id)))
        } else {
            q == p && t == s
        },
        Command::RevolveProfile { sketch, usable, key } => if has_sketch(p, sketch) && usable {
            &&& q == with_new_body(p, FeatureKind::Revolve, sketch, key)
            &&& t == Set::<SelectionItem>::empty().insert(SelectionItem::Body(BodyId(p.next_id)))
        } else {
            q == p && t == s
        },
        Command::NoOp => q == p && t == s,
    }
}

/// What applying `c` to project `p` tells the application: the new sketch,
/// the new entities, the entity whose measure to set and the new body.
pub open spec fn dispatched_action(p: ProjectView, c: Command, a: DispatchAction) -> bool {
    match c {
        Command::CreateSketch { workplane, .. } => if p.workplanes.contains(workplane) {
            a.new_sketch == Some(SketchId(p.next_id))
        } else {
            a.new_sketch is None
        },
        Command::AddLine { sketch }
        | Command::AddRectangle { sketch }
        | Command::AddCircle { sketch }
        | Command::AddArc { sketch } => if has_sketch(p, sketch) {
            a.new_entities@ == seq![SketchEntityId(p.next_id)]
        } else {
            a.new_entities@.len() == 0
        },
        Command::ApplyLineFillet { sketch, line_a, line_b, trims } => if has_sketch(p, sketch) && line_a
            != line_b && has_entity(sketch_of(p, sketch), line_a) && has_entity(sketch_of(p, sketch), line_b)
            && trims is Some && trims->Some_0 <= 2 {
            a.new_entities@ == fillet_ids(p.next_id, trims->Some_0 as nat)
        } else {
            a.new_entities@.len() == 0
        },
        Command::SetLineLength { sketch, entity }
        | Command::SetRectangleWidth { sketch, entity }
        | Command::SetRectangleHeight { sketch, entity }
        | Command::SetCircleRadius { sketch, entity }
        | Command::SetArcRadius { sketch, entity }
        | Command::SetArcSweepDegrees { sketch, entity }
        | Command::SetPointX { sketch, entity }
        | Command::SetPointY { sketch, entity } => a.edit == if has_sketch(p, sketch) && has_entity_of(
            sketch_of(p, sketch),
            entity,
            edit_shape(c)->Some_0,
        ) {
            Some((sketch, entity))
        } else {
            None
        },
        Command::ExtrudeProfile { sketch, usable, .. } | Command::RevolveProfile { sketch, usable, .. } => if has_sketch(
            p,
            sketch,
        ) && usable {
            a.new_body == Some((BodyId(p.next_id), FeatureId((p.next_id + 1) as u64)))
        } else {
            a.new_body is None
        },
        _ => true,
    }
}

/// What applying `c` to project `p` with selection `s` gives: the project
/// `q`, the selection `t` and the action `a`.
pub open spec fn dispatched(
    p: ProjectView,
    s: Set<SelectionItem>,
    c: Command,
    q: ProjectView,
    t: Set<SelectionItem>,
    a: DispatchAction,
) -> bool {
    dispatched_state(p, s, c, q, t) && dispatched_action(p, c, a)
}

/// Whether the project has room for what `c` adds: a constraint table
/// below the slot map's capacity for a constraint to add.
pub open spec fn command_fits(p: ProjectView, c: Command) -> bool {
    match c {
        Command::AddConstraint { sketch, .. } => has_sketch(p, sketch) ==> sketch_of(p, sketch).constraints.len()
            < u32::MAX - 1,
        _ => true,
    }
}


fn copy_key(key: &Option<ProfileKey>) -> (r: Option<ProfileKey>)
    ensures
        crate::feature::key_spans(r) == crate::feature::key_spans(*key),
        r is Some <==> key is Some,
{
    match key {
        Some(k) => Some(k.duplicate()),
        None => None,
    }
}

fn no_action() -> (a: DispatchAction)
    ensures
        a.new_sketch is None,
        a.new_entities@.len() == 0,
        a.edit is None,
        a.new_body is None,
        a.solve is None,
{
    DispatchAction { new_sketch: None, new_entities: Vec::new(), edit: None, new_body: None, solve: None }
}

/// Whether sketch `sketch` has entity `entity`.
fn sketch_has_entity(project: &ProjectModel, sketch: SketchId, entity: SketchEntityId) -> (r: bool)
    requires
        project_wf(project@),
    ensures
        r == (has_sketch(project@, sketch) && has_entity(sketch_of(project@, sketch), entity)),
{
    match project.find_sketch(sketch) {
        None => false,
        Some(i) => {
            proof {
                crate::project::lemma_sketch_pos(project@, i as int);
                assert(project.sketches@[i as int]@ == project@.sketches[i as int]);
            }
            project.sketches[i].entity_position(entity).is_some()
        },
    }
}

/// Whether sketch `sketch` has entity `entity` of shape `kind`.
fn sketch_has_entity_of(project: &ProjectModel, sketch: SketchId, entity: SketchEntityId, kind: EntityKind) -> (r:
    bool)
    requires
        project_wf(project@),
    ensures
        r == (has_sketch(project@, sketch) && has_entity_of(sketch_of(project@, sketch), entity, kind)),
{
    match project.find_sketch(sketch) {
        None => false,
        Some(i) => {
            proof {
                crate::project::lemma_sketch_pos(project@, i as int);
                assert(project.sketches@[i as int]@ == project@.sketches[i as int]);
            }
            let s = &project.sketches[i];
            let mut k: usize = 0;
            while k < s.entities.len()
                invariant
                    k <= s.entities@.len(),
                    s@ == sketch_of(project@, sketch),
                    has_sketch(project@, sketch),
                    forall|j: int| 0 <= j < k ==> s.entities@[j] != (entity, kind),
                decreases s.entities@.len() - k,
            {
                if s.entities[k].0 == entity && s.entities[k].1 == kind {
                    proof {
                        assert(s@.entities[k as int] == (entity, kind));
                    }
                    return true;
                }
                k = k + 1;
            }
            false
        },
    }
}

/// Applies `command` to the project and the selection, and says what the
/// application must do next. Commands that only move the selection or
/// the active sketch leave the rest of the project as it was; commands
/// that change a sketch's geometry or constraints ask for that sketch to
/// be solved again.
pub fn apply(project: &mut ProjectModel, selection: &mut Selection, command: &Command) -> (action: DispatchAction)
    requires
        project_wf(old(project)@),
        old(project).next_id < u64::MAX - 3,
        old(project).names.next_body_serial < usize::MAX,
        old(project).names.next_feature_serial < usize::MAX,
        command_fits(old(project)@, *command),
    ensures
        project_wf(final(project)@),
        dispatched(old(project)@, old(selection)@, *command, final(project)@, final(selection)@, action),
        action.solve == if command.spec_kind().spec_resolves_sketch() && command.spec_target() is Some
            && has_sketch(old(project)@, command.spec_target()->Some_0) {
            command.spec_target()
        } else {
            None
        },
        !command.spec_kind().spec_mutates_document() ==> final(project)@ == old(project)@ || (
        command.spec_kind() == CommandKind::SetActiveSketch && final(project)@ == (ProjectView {
            active_sketch: final(project)@.active_sketch,
            ..old(project)@
        })),
{
    let ghost p0 = project@;
    let ghost s0 = selection@;
    let solve = if command.kind().resolves_sketch() {
        match command.target() {
            Some(sk) => if project.find_sketch(sk).is_some() {
                Some(sk)
            } else {
                None
            },
            None => None,
        }
    } else {
        None
    };
    let mut action = no_action();
    match command {
        Command::CreateSketch { name, workplane } => {
            let r = project.create_sketch(name.clone(), *workplane);
            if r.is_some() {
                selection.clear();
            }
            action.new_sketch = r;
        },
        Command::SetActiveSketch(id) => {
            if project.find_sketch(*id).is_some() {
                project.active_sketch = Some(*id);
                selection.clear();
            }
        },
        Command::DeleteSketch(id) => {
            project.delete_sketch(*id);
            forget_sketch(selection, *id);
        },
        Command::AddLine { sketch } => {
            if let Some(e) = project.add_entity_to(*sketch, EntityKind::Line) {
                action.new_entities.push(e);
                proof {
                    assert(action.new_entities@ =~= seq![e]);
                }
            }
        },
        Command::AddRectangle { sketch } => {
            if let Some(e) = project.add_entity_to(*sketch, EntityKind::Rectangle) {
                action.new_entities.push(e);
                proof {
                    assert(action.new_entities@ =~= seq![e]);
                }
            }
        },
        Command::AddCircle { sketch } => {
            if let Some(e) = project.add_entity_to(*sketch, EntityKind::Circle) {
                action.new_entities.push(e);
                proof {
                    assert(action.new_entities@ =~= seq![e]);
                }
            }
        },
        Command::AddArc { sketch } => {
            if let Some(e) = project.add_entity_to(*sketch, EntityKind::Arc) {
                action.new_entities.push(e);
                proof {
                    assert(action.new_entities@ =~= seq![e]);
                }
            }
        },
        Command::ApplyLineFillet { sketch, line_a, line_b, trims } => {
            if let Some(n) = trims {
                if let Some(ids) = project.fillet_lines(*sketch, *line_a, *line_b, *n) {
                    let removed = vec![*line_a, *line_b];
                    proof {
                        assert(removed@ =~= seq![*line_a, *line_b]);
                    }
                    carry_fillet_selection(selection, *sketch, *line_a, *line_b, removed.as_slice(), ids.as_slice());
                    action.new_entities = ids;
                }
            }
        },
        Command::AddDistanceDimension { sketch } => {
            project.add_dimension_to(*sketch);
        },
        Command::AddConstraint { sketch, constraint } => {
            project.add_constraint_to(*sketch, *constraint);
        },
        Command::RemoveConstraint { sketch, constraint } => {
            project.remove_constraint_from(*sketch, *constraint);
        },
        Command::SetLineLength { sketch, entity } => {
            if sketch_has_entity_of(project, *sketch, *entity, EntityKind::Line) {
                action.edit = Some((*sketch, *entity));
            }
        },
        Command::SetRectangleWidth { sketch, entity } => {
            if sketch_has_entity_of(project, *sketch, *entity, EntityKind::Rectangle) {
                action.edit = Some((*sketch, *entity));
            }
        },
        Command::SetRectangleHeight { sketch, entity } => {
            if sketch_has_entity_of(project, *sketch, *entity, EntityKind::Rectangle) {
                action.edit = Some((*sketch, *entity));
            }
        },
        Command::SetCircleRadius { sketch, entity } => {
            if sketch_has_entity_of(project, *sketch, *entity, EntityKind::Circle) {
                action.edit = Some((*sketch, *entity));
            }
        },
        Command::SetArcRadius { sketch, entity } => {
            if sketch_has_entity_of(project, *sketch, *entity, EntityKind::Arc) {
                action.edit = Some((*sketch, *entity));
            }
        },
        Command::SetArcSweepDegrees { sketch, entity } => {
            if sketch_has_entity_of(project, *sketch, *entity, EntityKind::Arc) {
                action.edit = Some((*sketch, *entity));
            }
        },
        Command::SetPointX { sketch, entity } => {
            if sketch_has_entity_of(project, *sketch, *entity, EntityKind::Point) {
                action.edit = Some((*sketch, *entity));
            }
        },
        Command::SetPointY { sketch, entity } => {
            if sketch_has_entity_of(project, *sketch, *entity, EntityKind::Point) {
                action.edit = Some((*sketch, *entity));
            }
        },
        Command::DeleteEntity { sketch, entity } => {
            project.remove_entity_from(*sketch, *entity);
            forget_entity(selection, *sketch, *entity);
        },
        Command::SelectSingle { sketch, entity } => {
            let exists = sketch_has_entity(project, *sketch, *entity);
            select_single(selection, *sketch, *entity, exists);
        },
        Command::SelectEntities { sketch, entities, mode } => {
            match project.find_sketch(*sketch) {
                None => {
                    selection.clear();
                },
                Some(i) => {
                    proof {
                        crate::project::lemma_sketch_pos(project@, i as int);
                        assert(project.sketches@[i as int]@ == project@.sketches[i as int]);
                    }
                    let s = &project.sketches[i];
                    let mut flags: Vec<bool> = Vec::new();
                    let mut k: usize = 0;
                    while k < entities.len()
                        invariant
                            k <= entities@.len(),
                            flags@ == entity_flags(s@, entities@).take(k as int),
                        decreases entities@.len() - k,
                    {
                        let present = s.entity_position(entities[k]).is_some();
                        flags.push(present);
                        proof {
                            assert(entity_flags(s@, entities@).take(k + 1) =~= entity_flags(s@, entities@).take(
                                k as int,
                            ).push(present));
                        }
                        k = k + 1;
                    }
                    proof {
                        assert(entity_flags(s@, entities@).take(k as int) =~= entity_flags(s@, entities@));
                    }
                    select_entities(selection, *sketch, true, entities.as_slice(), flags.as_slice(), *mode);
                },
            }
        },
        Command::SelectVertices { sketch } => {
            if project.find_sketch(*sketch).is_none() {
                selection.clear();
            }
        },
        Command::SelectBody(body) => {
            let exists = project.contains_body(*body);
            select_body(selection, *body, exists);
        },
        Command::SelectBodies { bodies, mode } => {
            let mut flags: Vec<bool> = Vec::new();
            let mut k: usize = 0;
            while k < bodies.len()
                invariant
                    k <= bodies@.len(),
                    flags@ == body_flags(project@, bodies@).take(k as int),
                decreases bodies@.len() - k,
            {
                let present = project.contains_body(bodies[k]);
                flags.push(present);
                proof {
                    assert(body_flags(project@, bodies@).take(k + 1) =~= body_flags(project@, bodies@).take(
                        k as int,
                    ).push(present));
                }
                k = k + 1;
            }
            proof {
                assert(body_flags(project@, bodies@).take(k as int) =~= body_flags(project@, bodies@));
            }
            select_bodies(selection, bodies.as_slice(), flags.as_slice(), *mode);
        },
        Command::ToggleSelection { sketch, entity } => {
            let exists = sketch_has_entity(project, *sketch, *entity);
            toggle_entity(selection, *sketch, *entity, exists);
        },
        Command::ClearSelection => {
            selection.clear();
        },
        Command::DeleteSelection => {
            let (dels, bodies) = deletion_targets(selection);
            project.delete_all(dels.as_slice(), bodies.as_slice());
            forget_deleted(selection);
        },
        Command::ExtrudeProfile { sketch, usable, key } => {
            if *usable && project.find_sketch(*sketch).is_some() {
                let made = project.make_body(FeatureKind::Extrude, *sketch, copy_key(key));
                select_body(selection, made.0, true);
                action.new_body = Some(made);
            }
        },
        Command::RevolveProfile { sketch, usable, key } => {
            if *usable && project.find_sketch(*sketch).is_some() {
                let made = project.make_body(FeatureKind::Revolve, *sketch, copy_key(key));
                select_body(selection, made.0, true);
                action.new_body = Some(made);
            }
        },
        Command::NoOp => {},
    }
    action.solve = solve;
    action
}

/// Selecting entities: on a sketch the project lacks the selection becomes
/// empty; otherwise, with `picked` the items of the listed entities that
/// the sketch has, Replace selects exactly `picked`, Add adds it, Remove
/// takes it away, and Toggle (listed without repeats) gives the symmetric
/// difference of the old selection and `picked`. An entity the sketch
/// lacks never enters the selection, and the project is unchanged.
pub proof fn lemma_apply_select_entities(
    p: ProjectView,
    s: Set<SelectionItem>,
    sketch: SketchId,
    entities: Vec<SketchEntityId>,
    mode: SelectionEditMode,
    q: ProjectView,
    t: Set<SelectionItem>,
    a: DispatchAction,
)
    requires
        dispatched(p, s, Command::SelectEntities { sketch, entities, mode }, q, t, a),
        mode == SelectionEditMode::Toggle ==> entities@.no_duplicates(),
    ensures
        q == p,
        !has_sketch(p, sketch) ==> t == Set::<SelectionItem>::empty(),
        has_sketch(p, sketch) ==> ({
            let picked = existing_entity_items(sketch, entities@, entity_flags(sketch_of(p, sketch), entities@)).to_set();
            &&& t == match mode {
                SelectionEditMode::Replace => picked,
                SelectionEditMode::Add => s.union(picked),
                SelectionEditMode::Remove => s.difference(picked),
                SelectionEditMode::Toggle => s.difference(picked).union(picked.difference(s)),
            }
            &&& forall|e: SketchEntityId| #[trigger] picked.contains(entity_item(sketch, e)) <==> entities@.contains(e)
                && has_entity(sketch_of(p, sketch), e)
        }),
{
    if has_sketch(p, sketch) {
        let flags = entity_flags(sketch_of(p, sketch), entities@);
        if mode == SelectionEditMode::Toggle {
            crate::dispatch::lemma_select_entities_toggle(s, sketch, entities@, flags);
        }
        crate::dispatch::lemma_existing_entity_items(sketch, entities@, flags);
        let items = existing_entity_items(sketch, entities@, flags);
        assert forall|e: SketchEntityId| #[trigger] items.to_set().contains(entity_item(sketch, e)) <==> entities@.contains(e)
            && has_entity(sketch_of(p, sketch), e) by {
            if entities@.contains(e) && has_entity(sketch_of(p, sketch), e) {
                let k = choose|k: int| 0 <= k < entities@.len() && entities@[k] == e;
                assert(flags[k]);
            }
            if items.contains(entity_item(sketch, e)) {
                let k = choose|k: int| 0 <= k < entities@.len() && entities@[k] == e && flags[k];
                assert(entities@.contains(e));
            }
        }
    }
}

/// Adding a constraint equal to one the sketch already holds changes
/// nothing: neither the project nor the selection.
pub proof fn lemma_apply_stored_constraint_not_added(
    p: ProjectView,
    s: Set<SelectionItem>,
    sketch: SketchId,
    constraint: Constraint,
    q: ProjectView,
    t: Set<SelectionItem>,
    a: DispatchAction,
    k: u64,
)
    requires
        dispatched(p, s, Command::AddConstraint { sketch, constraint }, q, t, a),
        has_sketch(p, sketch),
        sketch_of(p, sketch).constraints.contains_key(k),
        sketch_of(p, sketch).constraints[k] == constraint,
    ensures
        q == p,
        t == s,
{
    assert(!constraint_joins(sketch_of(p, sketch), constraint));
}

/// Deleting an entity that a sketch has removes it and every constraint
/// that references it, keeps every other entity and constraint as it was,
/// and takes the entity out of the selection.
pub proof fn lemma_apply_delete_entity(
    p: ProjectView,
    s: Set<SelectionItem>,
    sketch: SketchId,
    entity: SketchEntityId,
    q: ProjectView,
    t: Set<SelectionItem>,
    a: DispatchAction,
)
    requires
        project_wf(p),
        dispatched(p, s, Command::DeleteEntity { sketch, entity }, q, t, a),
        has_sketch(p, sketch),
        has_entity(sketch_of(p, sketch), entity),
    ensures
        has_sketch(q, sketch),
        !has_entity(sketch_of(q, sketch), entity),
        forall|x: (SketchEntityId, EntityKind)|
            #[trigger] sketch_of(q, sketch).entities.contains(x) <==> sketch_of(p, sketch).entities.contains(x)
                && x.0 != entity,
        forall|k: u64|
            #[trigger] sketch_of(q, sketch).constraints.contains_key(k) <==> sketch_of(p, sketch).constraints.contains_key(k)
                && !sketch_of(p, sketch).constraints[k].references(entity),
        forall|k: u64|
            #[trigger] sketch_of(q, sketch).constraints.contains_key(k) ==> sketch_of(q, sketch).constraints[k]
                == sketch_of(p, sketch).constraints[k],
        !t.contains(entity_item(sketch, entity)),
{
    let i = sketch_pos(p, sketch);
    let old = p.sketches[i];
    let new = without_entity(old, entity);
    assert(q.sketches == p.sketches.update(i, new));
    assert(q.sketches[i].id == sketch);
    let j = sketch_pos(q, sketch);
    if j != i {
        assert(q.sketches[j] == p.sketches[j]);
        assert(p.sketches[j].id != p.sketches[i].id);
    }
    assert(sketch_of(q, sketch) == new);
    crate::project::lemma_drop_entity(old.entities, entity);
    if has_entity(new, entity) {
        let k = choose|k: int| 0 <= k < new.entities.len() && (#[trigger] new.entities[k]).0 == entity;
        assert(new.entities.contains(new.entities[k]));
    }
}

/// Replacing sketch `id` of a project whose sketch ids are distinct by a
/// sketch with the same id makes that sketch the one the project has
/// under `id`.
proof fn lemma_replaced_sketch(p: ProjectView, id: SketchId, v: SketchView, q: ProjectView)
    requires
        project_wf(p),
        has_sketch(p, id),
        v.id == id,
        q.sketches == p.sketches.update(sketch_pos(p, id), v),
    ensures
        has_sketch(q, id),
        sketch_of(q, id) == v,
{
    let i = sketch_pos(p, id);
    assert(q.sketches[i].id == id);
    let j = sketch_pos(q, id);
    if j != i {
        assert(q.sketches[j] == p.sketches[j]);
        assert(p.sketches[j].id != p.sketches[i].id);
    }
}

/// Adding a line, rectangle, circle or arc to a sketch the project has
/// appends to that sketch exactly one entity, of that shape, under the
/// next fresh id, and names it as the one new entity.
pub proof fn lemma_apply_adds_entity_of_its_shape(
    p: ProjectView,
    s: Set<SelectionItem>,
    c: Command,
    q: ProjectView,
    t: Set<SelectionItem>,
    a: DispatchAction,
)
    requires
        project_wf(p),
        dispatched(p, s, c, q, t, a),
    ensures
        match c {
            Command::AddLine { sketch } => has_sketch(p, sketch) ==> {
                &&& has_sketch(q, sketch)
                &&& sketch_of(q, sketch).entities == sketch_of(p, sketch).entities.push(
                    (SketchEntityId(p.next_id), EntityKind::Line),
                )
                &&& a.new_entities@ == seq![SketchEntityId(p.next_id)]
            },
            Command::AddRectangle { sketch } => has_sketch(p, sketch) ==> {
                &&& has_sketch(q, sketch)
                &&& sketch_of(q, sketch).entities == sketch_of(p, sketch).entities.push(
                    (SketchEntityId(p.next_id), EntityKind::Rectangle),
                )
                &&& a.new_entities@ == seq![SketchEntityId(p.next_id)]
            },
            Command::AddCircle { sketch } => has_sketch(p, sketch) ==> {
                &&& has_sketch(q, sketch)
                &&& sketch_of(q, sketch).entities == sketch_of(p, sketch).entities.push(
                    (SketchEntityId(p.next_id), EntityKind::Circle),
                )
                &&& a.new_entities@ == seq![SketchEntityId(p.next_id)]
            },
            Command::AddArc { sketch } => has_sketch(p, sketch) ==> {
                &&& has_sketch(q, sketch)
                &&& sketch_of(q, sketch).entities == sketch_of(p, sketch).entities.push(
                    (SketchEntityId(p.next_id), EntityKind::Arc),
                )
                &&& a.new_entities@ == seq![SketchEntityId(p.next_id)]
            },
            _ => true,
        },
{
    match c {
        Command::AddLine { sketch } | Command::AddRectangle { sketch } | Command::AddCircle { sketch }
        | Command::AddArc { sketch } => {
            if has_sketch(p, sketch) {
                let old = sketch_of(p, sketch);
                let v = SketchView {
                    entities: old.entities.push((SketchEntityId(p.next_id), added_shape(c)->Some_0)),
                    ..old
                };
                lemma_replaced_sketch(p, sketch, v, q);
            }
        },
        _ => {},
    }
}

/// Deleting a sketch removes it and keeps the active sketch unless it was
/// the deleted one; an active sketch that was deleted gives way to the
/// first remaining sketch, or to none when no sketch remains.
pub proof fn lemma_apply_delete_sketch(
    p: ProjectView,
    s: Set<SelectionItem>,
    id: SketchId,
    q: ProjectView,
    t: Set<SelectionItem>,
    a: DispatchAction,
)
    requires
        project_wf(p),
        dispatched_state(p, s, Command::DeleteSketch(id), q, t),
    ensures
        !has_sketch(q, id),
        has_sketch(p, id) ==> q.sketches.len() == p.sketches.len() - 1,
        forall|other: SketchId| other != id ==> (has_sketch(q, other) <==> has_sketch(p, other)),
        p.active_sketch != Some(id) ==> q.active_sketch == p.active_sketch,
        p.active_sketch == Some(id) ==> q.active_sketch == if q.sketches.len() > 0 {
            Some(q.sketches[0].id)
        } else {
            None::<SketchId>
        },
        q.features.len() == p.features.len(),
        forall|k: int|
            0 <= k < p.features.len() ==> {
                let f = #[trigger] q.features[k];
                let g = p.features[k];
                &&& f.0 == g.0
                &&& f.1.kind == g.1.kind
                &&& f.1.name == g.1.name
                &&& f.1.body == g.1.body
                &&& f.1.source_sketch == if g.1.source_sketch == Some(id) {
                    None
                } else {
                    g.1.source_sketch
                }
            },
        q.bodies.len() == p.bodies.len(),
        forall|j: int|
            0 <= j < p.bodies.len() ==> {
                let b = #[trigger] q.bodies[j];
                let c = p.bodies[j];
                &&& b.0 == c.0
                &&& b.1.name == c.1.name
                &&& b.1.features == c.1.features
                &&& b.1.revision == if exists|k: int|
                    0 <= k < p.features.len() && (#[trigger] p.features[k]).1.body == c.0
                        && p.features[k].1.source_sketch == Some(id) {
                    crate::body::next_revision(c.1.revision)
                } else {
                    c.1.revision
                }
            },
        forall|item: SelectionItem|
            #[trigger] t.contains(item) <==> s.contains(item) && !crate::dispatch::of_sketch(item, id),
{
    if has_sketch(p, id) {
        let i = sketch_pos(p, id);
        assert(q.sketches == p.sketches.remove(i));
        if has_sketch(q, id) {
            let j = choose|j: int| 0 <= j < q.sketches.len() && (#[trigger] q.sketches[j]).id == id;
            if j < i {
                assert(q.sketches[j] == p.sketches[j]);
                assert(p.sketches[j].id != p.sketches[i].id);
            } else {
                assert(q.sketches[j] == p.sketches[j + 1]);
                assert(p.sketches[j + 1].id != p.sketches[i].id);
            }
        }
        assert forall|other: SketchId| other != id implies (has_sketch(q, other) <==> has_sketch(p, other)) by {
            if has_sketch(p, other) {
                let k = choose|k: int| 0 <= k < p.sketches.len() && (#[trigger] p.sketches[k]).id == other;
                if k < i {
                    assert(q.sketches[k] == p.sketches[k]);
                } else {
                    assert(k != i);
                    assert(q.sketches[k - 1] == p.sketches[k]);
                }
            }
            if has_sketch(q, other) {
                let k = choose|k: int| 0 <= k < q.sketches.len() && (#[trigger] q.sketches[k]).id == other;
                if k < i {
                    assert(q.sketches[k] == p.sketches[k]);
                } else {
                    assert(q.sketches[k] == p.sketches[k + 1]);
                }
            }
        }
    }
}

/// Whether `q` differs from `p` in what is saved with the document:
/// anything but the active sketch.
pub open spec fn document_changed(p: ProjectView, q: ProjectView) -> bool {
    (ProjectView { active_sketch: p.active_sketch, ..q }) != p
}

/// A project with one workplane and one sketch, id 2, holding `entities`
/// and `constraints`, and fresh ids from 10 on.
spec fn sample_project(entities: Seq<(SketchEntityId, EntityKind)>, constraints: Map<u64, Constraint>) -> ProjectView {
    ProjectView {
        name: Seq::empty(),
        workplanes: seq![1u64],
        sketches: seq![
            SketchView {
                id: SketchId(2),
                name: Seq::empty(),
                workplane: 1,
                entities,
                dimensions: Seq::empty(),
                constraints,
            },
        ],
        bodies: Seq::empty(),
        features: Seq::empty(),
        active_sketch: None,
        next_id: 10,
        names: crate::naming::SerialCounters { next_body_serial: 1, next_feature_serial: 1 },
    }
}

/// The sample project finds its sketch at the front.
proof fn lemma_sample_sketch(entities: Seq<(SketchEntityId, EntityKind)>, constraints: Map<u64, Constraint>)
    ensures
        has_sketch(sample_project(entities, constraints), SketchId(2)),
        sketch_pos(sample_project(entities, constraints), SketchId(2)) == 0,
        sketch_of(sample_project(entities, constraints), SketchId(2)) == sample_project(entities, constraints).sketches[0],
{
    let p = sample_project(entities, constraints);
    assert(p.sketches[0].id == SketchId(2));
}

/// Dropping the only entity of a sketch leaves none.
proof fn lemma_drop_only_entity(e: SketchEntityId)
    ensures
        crate::project::drop_entity(seq![(e, EntityKind::Line)], e).len() == 0,
{
    let es = seq![(e, EntityKind::Line)];
    assert(es.drop_last() =~= Seq::<(SketchEntityId, EntityKind)>::empty());
    assert(crate::project::drop_entity(Seq::<(SketchEntityId, EntityKind)>::empty(), e).len() == 0);
}

/// Commands that leave the document clean change nothing that is saved:
/// after any selection command, a change of active sketch or a no-op, the
/// project differs at most in its active sketch.
pub proof fn lemma_clean_commands_keep_the_document(
    p: ProjectView,
    s: Set<SelectionItem>,
    c: Command,
    q: ProjectView,
    t: Set<SelectionItem>,
)
    requires
        dispatched_state(p, s, c, q, t),
        !c.spec_kind().spec_mutates_document(),
    ensures
        !document_changed(p, q),
{
    assert((ProjectView { active_sketch: p.active_sketch, ..q }) == p);
}

/// Every kind of command that marks the document changed can change it:
/// some command of that kind, applied to a well-formed project, changes
/// what is saved, or (for the measure commands, whose effect is on
/// coordinates) always asks the application to edit an entity.
pub proof fn lemma_changing_commands_change_the_document(k: CommandKind) -> (w: (
    Command,
    ProjectView,
    Set<SelectionItem>,
    ProjectView,
    Set<SelectionItem>,
))
    requires
        k.spec_mutates_document(),
    ensures
        w.0.spec_kind() == k,
        project_wf(w.1),
        dispatched_state(w.1, w.2, w.0, w.3, w.4),
        document_changed(w.1, w.3) || forall|a: DispatchAction| dispatched_action(w.1, w.0, a) ==> a.edit is Some,
{
    let sk = SketchId(2);
    let e = SketchEntityId(3);
    let f = SketchEntityId(4);
    let none = Map::<u64, Constraint>::empty();
    let s = Set::<SelectionItem>::empty();
    let line = seq![(e, EntityKind::Line)];
    let two = seq![(e, EntityKind::Line), (f, EntityKind::Line)];
    match k {
        CommandKind::CreateSketch => {
            let p = sample_project(Seq::empty(), none);
            let c = Command::CreateSketch { name: arbitrary(), workplane: 1 };
            let q = ProjectView {
                sketches: p.sketches.push(
                    SketchView {
                        id: SketchId(p.next_id),
                        name: c->name@,
                        workplane: 1,
                        entities: Seq::empty(),
                        dimensions: Seq::empty(),
                        constraints: Map::empty(),
                    },
                ),
                active_sketch: Some(SketchId(p.next_id)),
                next_id: (p.next_id + 1) as u64,
                ..p
            };
            assert(p.workplanes.contains(1u64)) by {
                assert(p.workplanes[0] == 1u64);
            }
            assert(q.next_id != p.next_id);
            (c, p, s, q, s)
        },
        CommandKind::DeleteSketch => {
            let p = sample_project(Seq::empty(), none);
            lemma_sample_sketch(Seq::empty(), none);
            let c = Command::DeleteSketch(sk);
            let q = crate::project::without_sketch(p, sk);
            assert(q.sketches.len() == 0);
            (c, p, s, q, s.filter(|item: SelectionItem| !crate::dispatch::of_sketch(item, sk)))
        },
        CommandKind::AddLine | CommandKind::AddRectangle | CommandKind::AddCircle | CommandKind::AddArc => {
            let p = sample_project(Seq::empty(), none);
            lemma_sample_sketch(Seq::empty(), none);
            let c = if k == CommandKind::AddLine {
                Command::AddLine { sketch: sk }
            } else if k == CommandKind::AddRectangle {
                Command::AddRectangle { sketch: sk }
            } else if k == CommandKind::AddCircle {
                Command::AddCircle { sketch: sk }
            } else {
                Command::AddArc { sketch: sk }
            };
            let q = with_new_entity(p, sk, added_shape(c)->Some_0);
            assert(q.next_id != p.next_id);
            (c, p, s, q, s)
        },
        CommandKind::ApplyLineFillet => {
            let p = sample_project(two, none);
            lemma_sample_sketch(two, none);
            assert(has_entity(p.sketches[0], e)) by {
                assert(p.sketches[0].entities[0].0 == e);
            }
            assert(has_entity(p.sketches[0], f)) by {
                assert(p.sketches[0].entities[1].0 == f);
            }
            let c = Command::ApplyLineFillet { sketch: sk, line_a: e, line_b: f, trims: Some(0usize) };
            let q = with_sketch_of(
                ProjectView { next_id: (p.next_id + 0 + 1) as u64, ..p },
                sk,
                filleted(sketch_of(p, sk), e, f, p.next_id, 0nat),
            );
            let t = after_fillet(s, sk, e, f, seq![e, f], fillet_ids(p.next_id, 0nat));
            assert(q.next_id != p.next_id);
            (c, p, s, q, t)
        },
        CommandKind::AddDistanceDimension => {
            let p = sample_project(Seq::empty(), none);
            lemma_sample_sketch(Seq::empty(), none);
            let c = Command::AddDistanceDimension { sketch: sk };
            let q = with_sketch_of(
                ProjectView { next_id: (p.next_id + 1) as u64, ..p },
                sk,
                SketchView { dimensions: sketch_of(p, sk).dimensions.push(p.next_id), ..sketch_of(p, sk) },
            );
            assert(q.next_id != p.next_id);
            (c, p, s, q, s)
        },
        CommandKind::AddConstraint => {
            let p = sample_project(line, none);
            lemma_sample_sketch(line, none);
            let con = Constraint::Horizontal { entity: e };
            assert(has_entity(p.sketches[0], e)) by {
                assert(p.sketches[0].entities[0].0 == e);
            }
            assert(con.spec_referenced_entities() == seq![e]);
            assert(constraint_joins(sketch_of(p, sk), con));
            let c = Command::AddConstraint { sketch: sk, constraint: con };
            let v = SketchView { constraints: sketch_of(p, sk).constraints.insert(0, con), ..sketch_of(p, sk) };
            let q = with_sketch_of(p, sk, v);
            assert(!sketch_of(p, sk).constraints.contains_key(0) && q == with_sketch_of(p, sk, v));
            assert(q.sketches[0].constraints.contains_key(0));
            assert(q.sketches != p.sketches);
            (c, p, s, q, s)
        },
        CommandKind::RemoveConstraint => {
            let stored = none.insert(slot_key(7), Constraint::Horizontal { entity: e });
            let p = sample_project(line, stored);
            lemma_sample_sketch(line, stored);
            let c = Command::RemoveConstraint { sketch: sk, constraint: ConstraintId(7) };
            let v = SketchView { constraints: sketch_of(p, sk).constraints.remove(slot_key(7)), ..sketch_of(p, sk) };
            let q = with_sketch_of(p, sk, v);
            assert(!q.sketches[0].constraints.contains_key(slot_key(7)));
            assert(q.sketches != p.sketches);
            (c, p, s, q, s)
        },
        CommandKind::SetLineLength | CommandKind::SetRectangleWidth | CommandKind::SetRectangleHeight
        | CommandKind::SetCircleRadius | CommandKind::SetArcRadius | CommandKind::SetArcSweepDegrees
        | CommandKind::SetPointX | CommandKind::SetPointY => {
            let c = if k == CommandKind::SetLineLength {
                Command::SetLineLength { sketch: sk, entity: e }
            } else if k == CommandKind::SetRectangleWidth {
                Command::SetRectangleWidth { sketch: sk, entity: e }
            } else if k == CommandKind::SetRectangleHeight {
                Command::SetRectangleHeight { sketch: sk, entity: e }
            } else if k == CommandKind::SetCircleRadius {
                Command::SetCircleRadius { sketch: sk, entity: e }
            } else if k == CommandKind::SetArcRadius {
                Command::SetArcRadius { sketch: sk, entity: e }
            } else if k == CommandKind::SetArcSweepDegrees {
                Command::SetArcSweepDegrees { sketch: sk, entity: e }
            } else if k == CommandKind::SetPointX {
                Command::SetPointX { sketch: sk, entity: e }
            } else {
                Command::SetPointY { sketch: sk, entity: e }
            };
            let shaped = seq![(e, edit_shape(c)->Some_0)];
            let p = sample_project(shaped, none);
            lemma_sample_sketch(shaped, none);
            assert(has_entity_of(sketch_of(p, sk), e, edit_shape(c)->Some_0)) by {
                assert(p.sketches[0].entities[0] == (e, edit_shape(c)->Some_0));
            }
            (c, p, s, p, s)
        },
        CommandKind::DeleteEntity => {
            let p = sample_project(line, none);
            lemma_sample_sketch(line, none);
            let c = Command::DeleteEntity { sketch: sk, entity: e };
            assert(has_entity(p.sketches[0], e)) by {
                assert(p.sketches[0].entities[0].0 == e);
            }
            let q = with_sketch_of(p, sk, without_entity(sketch_of(p, sk), e));
            lemma_drop_only_entity(e);
            assert(q.sketches[0] == without_entity(sketch_of(p, sk), e));
            assert(q.sketches[0].entities.len() == 0);
            assert(q.sketches != p.sketches);
            (c, p, s, q, s.remove(entity_item(sk, e)))
        },
        CommandKind::DeleteSelection => {
            let p = sample_project(line, none);
            lemma_sample_sketch(line, none);
            let sel = s.insert(entity_item(sk, e));
            let dels = seq![(sk, e)];
            let bodies = Seq::<BodyId>::empty();
            let c = Command::DeleteSelection;
            assert(has_entity(p.sketches[0], e)) by {
                assert(p.sketches[0].entities[0].0 == e);
            }
            assert(dels.drop_last() =~= Seq::<(SketchId, SketchEntityId)>::empty());
            assert(dels.last() == (sk, e));
            assert(delete_entities(p, Seq::<(SketchId, SketchEntityId)>::empty()) == p);
            assert(delete_entities(p, dels) == with_sketch_of(p, sk, without_entity(sketch_of(p, sk), e)));
            let q = delete_bodies(delete_entities(p, dels), bodies);
            assert(q == delete_entities(p, dels));
            lemma_drop_only_entity(e);
            assert(q.sketches[0] == without_entity(sketch_of(p, sk), e));
            assert(q.sketches[0].entities.len() == 0);
            assert(q.sketches != p.sketches);
            assert forall|x: SketchId, y: SketchEntityId| dels.contains((x, y)) <==> sel.contains(entity_item(x, y)) by {
                if sel.contains(entity_item(x, y)) {
                    assert(entity_item(x, y) == entity_item(sk, e));
                    assert(dels[0] == (x, y));
                }
            }
            assert forall|b: BodyId| bodies.contains(b) <==> sel.contains(SelectionItem::Body(b)) by {
                assert(SelectionItem::Body(b) != entity_item(sk, e));
            }
            let t = sel.filter(|item: SelectionItem| item is Sketch);
            (c, p, sel, q, t)
        },
        CommandKind::ExtrudeProfile | CommandKind::RevolveProfile => {
            let p = sample_project(Seq::empty(), none);
            lemma_sample_sketch(Seq::empty(), none);
            let (c, kind) = if k == CommandKind::ExtrudeProfile {
                (Command::ExtrudeProfile { sketch: sk, usable: true, key: None }, FeatureKind::Extrude)
            } else {
                (Command::RevolveProfile { sketch: sk, usable: true, key: None }, FeatureKind::Revolve)
            };
            let q = with_new_body(p, kind, sk, None);
            assert(q.bodies.len() == 1);
            let t = Set::<SelectionItem>::empty().insert(SelectionItem::Body(BodyId(p.next_id)));
            (c, p, s, q, t)
        },
        _ => {
            assert(false);
            arbitrary()
        },
    }
}

/// A measure command asks the application to edit exactly the named
/// entity, and only when the named sketch has it with the shape the
/// measure belongs to: a line's length; a rectangle's width or height; a
/// circle's radius; an arc's radius or sweep; a point's x or y.
pub proof fn lemma_measure_commands_edit_their_shape(p: ProjectView, c: Command, a: DispatchAction)
    requires
        dispatched_action(p, c, a),
    ensures
        match c {
            Command::SetLineLength { sketch, entity } => a.edit == if has_sketch(p, sketch) && has_entity_of(
                sketch_of(p, sketch),
                entity,
                EntityKind::Line,
            ) {
                Some((sketch, entity))
            } else {
                None
            },
            Command::SetRectangleWidth { sketch, entity } | Command::SetRectangleHeight { sketch, entity } => a.edit
                == if has_sketch(p, sketch) && has_entity_of(sketch_of(p, sketch), entity, EntityKind::Rectangle) {
                Some((sketch, entity))
            } else {
                None
            },
            Command::SetCircleRadius { sketch, entity } => a.edit == if has_sketch(p, sketch) && has_entity_of(
                sketch_of(p, sketch),
                entity,
                EntityKind::Circle,
            ) {
                Some((sketch, entity))
            } else {
                None
            },
            Command::SetArcRadius { sketch, entity } | Command::SetArcSweepDegrees { sketch, entity } => a.edit
                == if has_sketch(p, sketch) && has_entity_of(sketch_of(p, sketch), entity, EntityKind::Arc) {
                Some((sketch, entity))
            } else {
                None
            },
            Command::SetPointX { sketch, entity } | Command::SetPointY { sketch, entity } => a.edit == if has_sketch(
                p,
                sketch,
            ) && has_entity_of(sketch_of(p, sketch), entity, EntityKind::Point) {
                Some((sketch, entity))
            } else {
                None
            },
            _ => true,
        },
{
}

/// Filleting keeps the sketch's id and ends its entities with the new arc.
proof fn lemma_filleted_id(s: SketchView, a: SketchEntityId, b: SketchEntityId, first: u64)
    ensures
        filleted(s, a, b, first, 0).id == s.id,
        filleted(s, a, b, first, 0).entities.len() > 0,
        filleted(s, a, b, first, 0).entities.last() == (SketchEntityId(first), EntityKind::Arc),
{
    let t = without_entity(without_entity(s, a), b);
    let n = t.entities + crate::project::fillet_entries(first, 0);
    assert(n.last() == crate::project::fillet_entries(first, 0)[0]);
}

/// A project with a single sketch finds it at the front.
proof fn lemma_single_sketch(q: ProjectView, id: SketchId)
    requires
        q.sketches.len() == 1,
        q.sketches[0].id == id,
    ensures
        has_sketch(q, id),
        sketch_of(q, id) == q.sketches[0],
{
}

/// Every kind of command that makes the dispatcher solve a sketch again
/// can change that sketch: some command of that kind, applied to a
/// well-formed project, changes the entities or constraints of the sketch
/// it names, or (for the measure commands) always asks the application to
/// edit an entity of it.
pub proof fn lemma_resolving_commands_change_their_sketch(k: CommandKind) -> (w: (
    Command,
    ProjectView,
    Set<SelectionItem>,
    ProjectView,
    Set<SelectionItem>,
))
    requires
        k.spec_resolves_sketch(),
    ensures
        w.0.spec_kind() == k,
        project_wf(w.1),
        dispatched_state(w.1, w.2, w.0, w.3, w.4),
        w.0.spec_target() == Some(SketchId(2)),
        has_sketch(w.1, SketchId(2)),
        has_sketch(w.3, SketchId(2)),
        sketch_of(w.3, SketchId(2)).entities != sketch_of(w.1, SketchId(2)).entities || sketch_of(
            w.3,
            SketchId(2),
        ).constraints != sketch_of(w.1, SketchId(2)).constraints || forall|a: DispatchAction|
            dispatched_action(w.1, w.0, a) ==> a.edit is Some,
{
    let sk = SketchId(2);
    let e = SketchEntityId(3);
    let f = SketchEntityId(4);
    let none = Map::<u64, Constraint>::empty();
    let s = Set::<SelectionItem>::empty();
    let line = seq![(e, EntityKind::Line)];
    let two = seq![(e, EntityKind::Line), (f, EntityKind::Line)];
    match k {
        CommandKind::AddLine | CommandKind::AddRectangle | CommandKind::AddCircle | CommandKind::AddArc => {
            let p = sample_project(Seq::empty(), none);
            lemma_sample_sketch(Seq::empty(), none);
            let c = if k == CommandKind::AddLine {
                Command::AddLine { sketch: sk }
            } else if k == CommandKind::AddRectangle {
                Command::AddRectangle { sketch: sk }
            } else if k == CommandKind::AddCircle {
                Command::AddCircle { sketch: sk }
            } else {
                Command::AddArc { sketch: sk }
            };
            let q = with_new_entity(p, sk, added_shape(c)->Some_0);
            lemma_single_sketch(q, sk);
            assert(sketch_of(q, sk).entities.len() == 1);
            (c, p, s, q, s)
        },
        CommandKind::ApplyLineFillet => {
            let p = sample_project(two, none);
            lemma_sample_sketch(two, none);
            assert(has_entity(p.sketches[0], e)) by {
                assert(p.sketches[0].entities[0].0 == e);
            }
            assert(has_entity(p.sketches[0], f)) by {
                assert(p.sketches[0].entities[1].0 == f);
            }
            let c = Command::ApplyLineFillet { sketch: sk, line_a: e, line_b: f, trims: Some(0usize) };
            let v = filleted(sketch_of(p, sk), e, f, p.next_id, 0nat);
            let q = with_sketch_of(ProjectView { next_id: (p.next_id + 0 + 1) as u64, ..p }, sk, v);
            let t = after_fillet(s, sk, e, f, seq![e, f], fillet_ids(p.next_id, 0nat));
            lemma_filleted_id(sketch_of(p, sk), e, f, p.next_id);
            lemma_single_sketch(q, sk);
            assert(sketch_of(p, sk).entities.last() == (f, EntityKind::Line));
            (c, p, s, q, t)
        },
        CommandKind::AddConstraint => {
            let p = sample_project(line, none);
            lemma_sample_sketch(line, none);
            let con = Constraint::Horizontal { entity: e };
            assert(has_entity(p.sketches[0], e)) by {
                assert(p.sketches[0].entities[0].0 == e);
            }
            assert(con.spec_referenced_entities() == seq![e]);
            let c = Command::AddConstraint { sketch: sk, constraint: con };
            let v = SketchView { constraints: sketch_of(p, sk).constraints.insert(0, con), ..sketch_of(p, sk) };
            let q = with_sketch_of(p, sk, v);
            assert(!sketch_of(p, sk).constraints.contains_key(0) && q == with_sketch_of(p, sk, v));
            lemma_single_sketch(q, sk);
            assert(sketch_of(q, sk).constraints.contains_key(0));
            (c, p, s, q, s)
        },
        CommandKind::RemoveConstraint => {
            let stored = none.insert(slot_key(7), Constraint::Horizontal { entity: e });
            let p = sample_project(line, stored);
            lemma_sample_sketch(line, stored);
            let c = Command::RemoveConstraint { sketch: sk, constraint: ConstraintId(7) };
            let v = SketchView { constraints: sketch_of(p, sk).constraints.remove(slot_key(7)), ..sketch_of(p, sk) };
            let q = with_sketch_of(p, sk, v);
            lemma_single_sketch(q, sk);
            assert(!sketch_of(q, sk).constraints.contains_key(slot_key(7)));
            (c, p, s, q, s)
        },
        CommandKind::DeleteEntity => {
            let p = sample_project(line, none);
            lemma_sample_sketch(line, none);
            let c = Command::DeleteEntity { sketch: sk, entity: e };
            assert(has_entity(p.sketches[0], e)) by {
                assert(p.sketches[0].entities[0].0 == e);
            }
            let q = with_sketch_of(p, sk, without_entity(sketch_of(p, sk), e));
            lemma_drop_only_entity(e);
            lemma_single_sketch(q, sk);
            assert(sketch_of(q, sk).entities.len() == 0);
            (c, p, s, q, s.remove(entity_item(sk, e)))
        },
        _ => {
            let c = if k == CommandKind::SetLineLength {
                Command::SetLineLength { sketch: sk, entity: e }
            } else if k == CommandKind::SetRectangleWidth {
                Command::SetRectangleWidth { sketch: sk, entity: e }
            } else if k == CommandKind::SetRectangleHeight {
                Command::SetRectangleHeight { sketch: sk, entity: e }
            } else if k == CommandKind::SetCircleRadius {
                Command::SetCircleRadius { sketch: sk, entity: e }
            } else if k == CommandKind::SetArcRadius {
                Command::SetArcRadius { sketch: sk, entity: e }
            } else if k == CommandKind::SetArcSweepDegrees {
                Command::SetArcSweepDegrees { sketch: sk, entity: e }
            } else if k == CommandKind::SetPointX {
                Command::SetPointX { sketch: sk, entity: e }
            } else {
                assert(k == CommandKind::SetPointY);
                Command::SetPointY { sketch: sk, entity: e }
            };
            let shaped = seq![(e, edit_shape(c)->Some_0)];
            let p = sample_project(shaped, none);
            lemma_sample_sketch(shaped, none);
            assert(has_entity_of(sketch_of(p, sk), e, edit_shape(c)->Some_0)) by {
                assert(p.sketches[0].entities[0] == (e, edit_shape(c)->Some_0));
            }
            (c, p, s, p, s)
        },
    }
}

/// Commands that do not make the dispatcher solve a sketch again change
/// no sketch's entities or constraints, apart from deleting the selection:
/// every sketch that is there before and after keeps them. (Deleting the
/// selection removes entities of possibly several sketches and solves
/// none of them.)
pub proof fn lemma_quiet_commands_keep_sketch_contents(
    p: ProjectView,
    s: Set<SelectionItem>,
    c: Command,
    q: ProjectView,
    t: Set<SelectionItem>,
    id: SketchId,
)
    requires
        project_wf(p),
        project_wf(q),
        dispatched_state(p, s, c, q, t),
        !c.spec_kind().spec_resolves_sketch(),
        c.spec_kind() != CommandKind::DeleteSelection,
        has_sketch(p, id),
        has_sketch(q, id),
    ensures
        sketch_of(q, id).entities == sketch_of(p, id).entities,
        sketch_of(q, id).constraints == sketch_of(p, id).constraints,
{
    let i = sketch_pos(p, id);
    crate::project::lemma_sketch_pos(p, i);
    match c {
        Command::CreateSketch { workplane, .. } => {
            if p.workplanes.contains(workplane) {
                assert(q.sketches[i] == p.sketches[i]);
            }
            crate::project::lemma_sketch_pos(q, i);
        },
        Command::DeleteSketch(d) => {
            lemma_apply_delete_sketch(p, s, d, q, t, arbitrary());
            if has_sketch(p, d) {
                let pd = sketch_pos(p, d);
                assert(q.sketches == p.sketches.remove(pd));
                assert(id != d);
                assert(i != pd);
                if i < pd {
                    assert(q.sketches[i] == p.sketches[i]);
                    crate::project::lemma_sketch_pos(q, i);
                } else {
                    assert(q.sketches[i - 1] == p.sketches[i]);
                    crate::project::lemma_sketch_pos(q, i - 1);
                }
            } else {
                crate::project::lemma_sketch_pos(q, i);
            }
        },
        Command::AddDistanceDimension { sketch } => {
            if has_sketch(p, sketch) {
                assert(q.sketches == p.sketches.update(sketch_pos(p, sketch), q.sketches[sketch_pos(p, sketch)]));
            }
            crate::project::lemma_sketch_pos(q, i);
        },
        _ => {
            assert(q.sketches == p.sketches);
            crate::project::lemma_sketch_pos(q, i);
        },
    }
}
} // verus!
