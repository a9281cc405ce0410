//! Typed hover and pick targets for viewport interaction. A target is an
//! entity of a sketch or a closed profile of a sketch; the profile's shape
//! is whatever type the caller uses for it.

use vstd::prelude::*;

use crate::ids::{SketchEntityId, SketchId};

verus! {

/// What the cursor is over.
#[derive(Clone, Debug, PartialEq)]
pub enum HoverTarget<P> {
    SketchEntity { sketch: SketchId, entity: SketchEntityId },
    Profile { sketch: SketchId, profile: P },
}

impl<P> HoverTarget<P> {
    pub fn sketch_entity(sketch: SketchId, entity: SketchEntityId) -> (t: Self)
        ensures
            t == (HoverTarget::<P>::SketchEntity { sketch, entity }),
    {
        HoverTarget::SketchEntity { sketch, entity }
    }

    pub fn profile(sketch: SketchId, profile: P) -> (t: Self)
        ensures
            t == (HoverTarget::Profile { sketch, profile }),
    {
        HoverTarget::Profile { sketch, profile }
    }

    /// The sketch the target belongs to.
    pub fn sketch_id(&self) -> (s: SketchId)
        ensures
            s == match *self {
                HoverTarget::SketchEntity { sketch, .. } => sketch,
                HoverTarget::Profile { sketch, .. } => sketch,
            },
    {
        match self {
            HoverTarget::SketchEntity { sketch, .. } => *sketch,
            HoverTarget::Profile { sketch, .. } => *sketch,
        }
    }

    /// The sketch and entity, when the target is an entity.
    pub fn as_sketch_entity(&self) -> (r: Option<(SketchId, SketchEntityId)>)
        ensures
            r == match *self {
                HoverTarget::SketchEntity { sketch, entity } => Some((sketch, entity)),
                HoverTarget::Profile { .. } => None,
            },
    {
        match self {
            HoverTarget::SketchEntity { sketch, entity } => Some((*sketch, *entity)),
            HoverTarget::Profile { .. } => None,
        }
    }

    /// The profile, when the target is a profile.
    pub fn as_profile(&self) -> (r: Option<&P>)
        ensures
            r == match self {
                HoverTarget::Profile { profile, .. } => Some(profile),
                HoverTarget::SketchEntity { .. } => None,
            },
    {
        match self {
            HoverTarget::Profile { profile, .. } => Some(profile),
            HoverTarget::SketchEntity { .. } => None,
        }
    }

    /// Whether the target is exactly `entity` of `sketch`.
    pub fn matches_sketch_entity(&self, sketch: SketchId, entity: SketchEntityId) -> (r: bool)
        ensures
            r == (*self matches HoverTarget::SketchEntity { sketch: s, entity: e } && s == sketch && e
                == entity),
    {
        match self {
            HoverTarget::SketchEntity { sketch: s, entity: e } => *s == sketch && *e == entity,
            HoverTarget::Profile { .. } => false,
        }
    }
}

} // verus!
