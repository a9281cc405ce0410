//! Overlap-stack preselection for Select: the entities under the cursor,
//! nearest first, and the index the user advances with Tab to cycle
//! through items at the same spot.

use vstd::prelude::*;

use crate::ids::{SketchEntityId, SketchId};

verus! {

/// The entities stacked under the cursor in one sketch and the one the
/// user has cycled to.
#[derive(Debug)]
pub struct PreselectionState {
    sketch: Option<SketchId>,
    stack: Vec<SketchEntityId>,
    index: usize,
}

/// What an overlap stack means: its sketch, the stacked entities nearest
/// first, and the index of the current one.
pub ghost struct PreselectionView {
    pub sketch: Option<SketchId>,
    pub stack: Seq<SketchEntityId>,
    pub index: nat,
}

impl View for PreselectionState {
    type V = PreselectionView;

    closed spec fn view(&self) -> PreselectionView {
        PreselectionView { sketch: self.sketch, stack: self.stack@, index: self.index as nat }
    }
}

/// The item the stack currently offers.
pub open spec fn current_of(v: PreselectionView) -> Option<(SketchId, SketchEntityId)> {
    match v.sketch {
        Some(s) => if v.index < v.stack.len() {
            Some((s, v.stack[v.index as int]))
        } else {
            None
        },
        None => None,
    }
}

impl PreselectionState {
    #[verifier::type_invariant]
    spec fn inv(self) -> bool {
        self.index == 0 || self.index < self.stack@.len()
    }

    pub fn new() -> (s: Self)
        ensures
            s@.sketch is None,
            s@.stack.len() == 0,
            s@.index == 0,
    {
        PreselectionState { sketch: None, stack: Vec::new(), index: 0 }
    }

    /// Forgets the stack.
    pub fn clear(&mut self)
        ensures
            final(self)@.sketch is None,
            final(self)@.stack.len() == 0,
            final(self)@.index == 0,
    {
        *self = PreselectionState::new();
    }

    /// Whether the stack was built for a different sketch than `sketch`.
    pub fn sketch_changed(&self, sketch: SketchId) -> (r: bool)
        ensures
            r == (self@.sketch != Some(sketch)),
    {
        match self.sketch {
            Some(s) => s != sketch,
            None => true,
        }
    }

    /// Replaces the stack with `stack` (nearest first) for `sketch`, starting
    /// from its first entry.
    pub fn rebuild(&mut self, sketch: SketchId, stack: Vec<SketchEntityId>)
        ensures
            final(self)@.sketch == Some(sketch),
            final(self)@.stack == stack@,
            final(self)@.index == 0,
    {
        *self = PreselectionState { sketch: Some(sketch), stack, index: 0 };
    }

    /// Advances to the next entity in the stack, wrapping; does nothing
    /// when fewer than two entities are stacked.
    pub fn cycle(&mut self)
        ensures
            final(self)@.sketch == old(self)@.sketch,
            final(self)@.stack == old(self)@.stack,
            old(self)@.stack.len() < 2 ==> final(self)@.index == old(self)@.index,
            old(self)@.stack.len() >= 2 ==> final(self)@.index == ((old(self)@.index + 1)
                % old(self)@.stack.len()) as nat,
    {
        proof {
            use_type_invariant(&*self);
        }
        if self.stack.len() < 2 {
            return;
        }
        self.index = (self.index + 1) % self.stack.len();
    }

    /// The sketch and entity currently offered, if any.
    pub fn current(&self) -> (r: Option<(SketchId, SketchEntityId)>)
        ensures
            r == current_of(self@),
    {
        let sketch = match self.sketch {
            Some(s) => s,
            None => return None,
        };
        if self.index < self.stack.len() {
            Some((sketch, self.stack[self.index]))
        } else {
            None
        }
    }

    pub fn stack_size(&self) -> (n: usize)
        ensures
            n == self@.stack.len(),
    {
        self.stack.len()
    }

    pub fn index(&self) -> (i: usize)
        ensures
            i == self@.index,
            i == 0 || i < self@.stack.len(),
    {
        proof {
            use_type_invariant(self);
        }
        self.index
    }
}

impl Default for PreselectionState {
    fn default() -> (s: Self)
        ensures
            s@.sketch is None,
            s@.stack.len() == 0,
            s@.index == 0,
    {
        PreselectionState::new()
    }
}

} // verus!
