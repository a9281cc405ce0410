//! Transaction scaffolding for undo/redo: a labelled batch of commands
//! applied together.

use vstd::prelude::*;

verus! {

/// A labelled batch of commands of type `C`.
#[derive(Debug, Default)]
pub struct Transaction<C> {
    pub label: String,
    pub commands: Vec<C>,
}

impl<C> Transaction<C> {
    /// An empty transaction named `label`.
    pub fn new(label: String) -> (t: Self)
        ensures
            t.label == label,
            t.commands@.len() == 0,
    {
        Transaction { label, commands: Vec::new() }
    }

    /// Appends `cmd` to the batch.
    pub fn push(&mut self, cmd: C)
        ensures
            final(self).label == old(self).label,
            final(self).commands@ == old(self).commands@.push(cmd),
    {
        self.commands.push(cmd);
    }

    /// Whether the batch holds no command.
    pub fn is_empty(&self) -> (r: bool)
        ensures
            r == (self.commands@.len() == 0),
    {
        self.commands.len() == 0
    }
}

} // verus!
