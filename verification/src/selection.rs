//! Selection abstraction: the set of currently selected domain entities.
//! Kept free of geometry so both UI and tools can reason about it.

use vstd::prelude::*;

use crate::command::SelectionEditMode;
use crate::ids::{BodyId, SketchEntityId, SketchId};

verus! {

/// One selectable domain item.
#[derive(Clone, Copy, Debug, PartialEq, Eq, Hash, Structural)]
pub enum SelectionItem {
    Sketch(SketchId),
    SketchEntity { sketch: SketchId, entity: SketchEntityId },
    Body(BodyId),
}

/// The set of selected items. Stored as a duplicate-free list in insertion
/// order; its meaning is the set of items it holds.
#[derive(Debug)]
pub struct Selection {
    items: Vec<SelectionItem>,
}

impl View for Selection {
    type V = Set<SelectionItem>;

    closed spec fn view(&self) -> Set<SelectionItem> {
        self.items@.to_set()
    }
}

/// The selection that results from flipping `item`.
pub open spec fn toggled(s: Set<SelectionItem>, item: SelectionItem) -> Set<SelectionItem> {
    if s.contains(item) {
        s.remove(item)
    } else {
        s.insert(item)
    }
}

/// Flips each of `items` in turn, first to last.
pub open spec fn toggle_all(s: Set<SelectionItem>, items: Seq<SelectionItem>) -> Set<SelectionItem>
    decreases items.len(),
{
    if items.len() == 0 {
        s
    } else {
        toggled(toggle_all(s, items.drop_last()), items.last())
    }
}

/// The selection after editing `s` with the picked `items` in `mode`.
pub open spec fn edited(
    s: Set<SelectionItem>,
    items: Seq<SelectionItem>,
    mode: SelectionEditMode,
) -> Set<SelectionItem> {
    match mode {
        SelectionEditMode::Replace => items.to_set(),
        SelectionEditMode::Add => s.union(items.to_set()),
        SelectionEditMode::Remove => s.difference(items.to_set()),
        SelectionEditMode::Toggle => toggle_all(s, items),
    }
}

impl Selection {
    #[verifier::type_invariant]
    spec fn inv(self) -> bool {
        self.items@.no_duplicates()
    }

    /// The number of selected items, as a set size.
    pub closed spec fn spec_len(&self) -> nat {
        self.items@.len()
    }

    pub fn new() -> (s: Self)
        ensures
            s@ == Set::<SelectionItem>::empty(),
    {
        let s = Selection { items: Vec::new() };
        proof {
            assert(s.items@.to_set() =~= Set::<SelectionItem>::empty());
        }
        s
    }

    pub fn clear(&mut self)
        ensures
            final(self)@ == Set::<SelectionItem>::empty(),
    {
        self.items = Vec::new();
        proof {
            assert(self.items@.to_set() =~= Set::<SelectionItem>::empty());
        }
    }

    fn position(&self, item: &SelectionItem) -> (r: Option<usize>)
        ensures
            match r {
                Some(i) => i < self.items@.len() && self.items@[i as int] == *item,
                None => !self.items@.contains(*item),
            },
    {
        let mut i: usize = 0;
        while i < self.items.len()
            invariant
                i <= self.items@.len(),
                forall|j: int| 0 <= j < i ==> self.items@[j] != *item,
            decreases self.items@.len() - i,
        {
            if self.items[i] == *item {
                return Some(i);
            }
            i = i + 1;
        }
        None
    }

    /// Adds `item`; true when it was not selected before.
    pub fn insert(&mut self, item: SelectionItem) -> (added: bool)
        ensures
            added == !old(self)@.contains(item),
            final(self)@ == old(self)@.insert(item),
            final(self)@.finite(),
            final(self)@.len() == old(self)@.len() + if added {
                1int
            } else {
                0int
            },
    {
        proof {
            use_type_invariant(&*self);
            vstd::seq_lib::seq_to_set_is_finite(self.items@);
            vstd::set::axiom_set_insert_len(self.items@.to_set(), item);
        }
        match self.position(&item) {
            Some(_) => {
                proof {
                    assert(self.items@.to_set().contains(item));
                    assert(self.items@.to_set().insert(item) =~= self.items@.to_set());
                }
                false
            },
            None => {
                let ghost before = self.items@;
                let mut items: Vec<SelectionItem> = Vec::new();
                std::mem::swap(&mut items, &mut self.items);
                items.push(item);
                proof {
                    assert(items@ == before.push(item));
                    assert(items@.to_set() =~= before.to_set().insert(item)) by {
                        assert forall|x: SelectionItem| items@.to_set().contains(x)
                            <==> before.to_set().insert(item).contains(x) by {
                            if x != item && items@.contains(x) {
                                let k = choose|k: int| 0 <= k < items@.len() && items@[k] == x;
                                assert(before[k] == x);
                            }
                            if before.contains(x) {
                                let k = choose|k: int| 0 <= k < before.len() && before[k] == x;
                                assert(items@[k] == x);
                            }
                            if x == item {
                                assert(items@[before.len() as int] == item);
                            }
                        }
                    }
                    assert(items@.no_duplicates()) by {
                        assert forall|a: int, b: int|
                            0 <= a < items@.len() && 0 <= b < items@.len() && a != b
                            implies items@[a] != items@[b] by {
                            if a == before.len() {
                                assert(!before.contains(item));
                                assert(before[b] == items@[b]);
                            } else if b == before.len() {
                                assert(before[a] == items@[a]);
                            }
                        }
                    }
                }
                self.items = items;
                true
            },
        }
    }

    /// Removes `item`; true when it was selected before.
    pub fn remove(&mut self, item: &SelectionItem) -> (removed: bool)
        ensures
            removed == old(self)@.contains(*item),
            final(self)@ == old(self)@.remove(*item),
            final(self)@.finite(),
            final(self)@.len() == old(self)@.len() - if removed {
                1int
            } else {
                0int
            },
    {
        proof {
            use_type_invariant(&*self);
            vstd::seq_lib::seq_to_set_is_finite(self.items@);
            vstd::set::axiom_set_remove_len(self.items@.to_set(), *item);
        }
        match self.position(item) {
            None => {
                proof {
                    assert(self.items@.to_set().remove(*item) =~= self.items@.to_set());
                }
                false
            },
            Some(i) => {
                let ghost before = self.items@;
                let mut items: Vec<SelectionItem> = Vec::new();
                std::mem::swap(&mut items, &mut self.items);
                items.remove(i);
                proof {
                    assert(items@ == before.remove(i as int));
                    assert forall|a: int, b: int|
                        0 <= a < items@.len() && 0 <= b < items@.len() && a != b
                        implies items@[a] != items@[b] by {
                        let sa = if a < i { a } else { a + 1 };
                        let sb = if b < i { b } else { b + 1 };
                        assert(items@[a] == before[sa]);
                        assert(items@[b] == before[sb]);
                    }
                    assert(items@.to_set() =~= before.to_set().remove(*item)) by {
                        assert forall|x: SelectionItem| items@.to_set().contains(x)
                            <==> before.to_set().remove(*item).contains(x) by {
                            if items@.contains(x) {
                                let k = choose|k: int| 0 <= k < items@.len() && items@[k] == x;
                                let sk = if k < i { k } else { k + 1 };
                                assert(before[sk] == x);
                                assert(sk != i);
                            }
                            if before.contains(x) && x != *item {
                                let k = choose|k: int| 0 <= k < before.len() && before[k] == x;
                                assert(k != i);
                                let tk = if k < i { k } else { k - 1 };
                                assert(items@[tk] == x);
                            }
                        }
                    }
                }
                self.items = items;
                true
            },
        }
    }

    pub fn contains(&self, item: &SelectionItem) -> (r: bool)
        ensures
            r == self@.contains(*item),
    {
        match self.position(item) {
            Some(i) => {
                proof {
                    assert(self.items@.contains(*item));
                }
                true
            },
            None => false,
        }
    }

    /// The selected items, each once, in the order they were selected.
    pub fn iter(&self) -> (r: Vec<SelectionItem>)
        ensures
            r@.to_set() == self@,
            r@.no_duplicates(),
            r@.len() == self@.len(),
    {
        proof {
            use_type_invariant(self);
            self.items@.unique_seq_to_set();
        }
        self.copy_items()
    }

    fn copy_items(&self) -> (r: Vec<SelectionItem>)
        ensures
            r@ == self.items@,
    {
        let mut r: Vec<SelectionItem> = Vec::new();
        let mut i: usize = 0;
        while i < self.items.len()
            invariant
                i <= self.items@.len(),
                r@ == self.items@.subrange(0, i as int),
            decreases self.items@.len() - i,
        {
            r.push(self.items[i]);
            i = i + 1;
            proof {
                assert(r@ =~= self.items@.subrange(0, i as int));
            }
        }
        proof {
            assert(self.items@.subrange(0, self.items@.len() as int) =~= self.items@);
        }
        r
    }

    pub fn len(&self) -> (n: usize)
        ensures
            n == self@.len(),
    {
        proof {
            use_type_invariant(self);
            self.items@.unique_seq_to_set();
        }
        self.items.len()
    }

    pub fn is_empty(&self) -> (r: bool)
        ensures
            r == (self@.len() == 0),
            r == (self@ == Set::<SelectionItem>::empty()),
    {
        proof {
            use_type_invariant(self);
            self.items@.unique_seq_to_set();
            if self.items@.len() > 0 {
                assert(self@.contains(self.items@[0]));
            } else {
                assert(self@ =~= Set::<SelectionItem>::empty());
            }
        }
        self.items.len() == 0
    }
}

impl Selection {
    /// Keeps exactly the items for which `keep` answers true.
    pub fn retain<F: Fn(&SelectionItem) -> bool>(&mut self, keep: F)
        requires
            forall|item: SelectionItem| #[trigger] keep.requires((&item,)),
        ensures
            forall|item: SelectionItem| #[trigger] final(self)@.contains(item)
                ==> old(self)@.contains(item) && keep.ensures((&item,), true),
            forall|item: SelectionItem|
                old(self)@.contains(item) && !(#[trigger] final(self)@.contains(item))
                ==> keep.ensures((&item,), false),
    {
        proof {
            use_type_invariant(&*self);
        }
        let ghost before = self.items@;
        let mut kept: Vec<SelectionItem> = Vec::new();
        let ghost mut idx: Seq<int> = Seq::empty();
        let mut i: usize = 0;
        while i < self.items.len()
            invariant
                self.items@ == before,
                before.no_duplicates(),
                i <= before.len(),
                forall|item: SelectionItem| #[trigger] keep.requires((&item,)),
                idx.len() == kept@.len(),
                forall|k: int| 0 <= k < kept@.len() ==> 0 <= #[trigger] idx[k] < i && kept@[k]
                    == before[idx[k]],
                forall|a: int, b: int| 0 <= a < b < kept@.len() ==> idx[a] < idx[b],
                forall|k: int| 0 <= k < kept@.len() ==> keep.ensures((&#[trigger] kept@[k],), true),
                forall|j: int| 0 <= j < i ==> (exists|k: int| 0 <= k < kept@.len() && idx[k] == j)
                    || keep.ensures((&#[trigger] before[j],), false),
            decreases before.len() - i,
        {
            let item = self.items[i];
            let keep_it = keep(&item);
            let ghost old_idx = idx;
            let ghost old_len = kept@.len();
            if keep_it {
                proof {
                    idx = idx.push(i as int);
                }
                kept.push(item);
            }
            proof {
                if !keep_it {
                    assert(keep.ensures((&before[i as int],), false));
                } else {
                    assert(idx[kept@.len() - 1] == i);
                }
                assert forall|j: int| 0 <= j < i + 1 implies (exists|k: int| 0 <= k < kept@.len() && idx[k] == j)
                    || keep.ensures((&#[trigger] before[j],), false) by {
                    if j == i && keep_it {
                        assert(idx[kept@.len() - 1] == j);
                    }
                    if j < i && (exists|k: int| 0 <= k < old_len && old_idx[k] == j) {
                        let k = choose|k: int| 0 <= k < old_len && old_idx[k] == j;
                        assert(idx[k] == j);
                    }
                }
            }
            i = i + 1;
        }
        proof {
            assert(kept@.no_duplicates()) by {
                assert forall|a: int, b: int| 0 <= a < kept@.len() && 0 <= b < kept@.len() && a != b
                    implies kept@[a] != kept@[b] by {
                    if a < b {
                        assert(idx[a] < idx[b]);
                    } else {
                        assert(idx[b] < idx[a]);
                    }
                }
            }
            assert forall|item: SelectionItem| #[trigger] kept@.to_set().contains(item)
                implies before.to_set().contains(item) && keep.ensures((&item,), true) by {
                let k = choose|k: int| 0 <= k < kept@.len() && kept@[k] == item;
                assert(before[idx[k]] == item);
                assert(keep.ensures((&kept@[k],), true));
            }
            assert forall|item: SelectionItem|
                before.to_set().contains(item) && !(#[trigger] kept@.to_set().contains(item))
                implies keep.ensures((&item,), false) by {
                let j = choose|j: int| 0 <= j < before.len() && before[j] == item;
                if exists|k: int| 0 <= k < kept@.len() && idx[k] == j {
                    let k = choose|k: int| 0 <= k < kept@.len() && idx[k] == j;
                    assert(kept@[k] == item);
                    assert(kept@.contains(item));
                }
            }
        }
        self.items = kept;
    }

    /// Edits the selection with the picked `items` according to `mode`:
    /// replace, add, remove, or flip each item in turn.
    pub fn apply_edit(&mut self, items: &[SelectionItem], mode: SelectionEditMode)
        ensures
            final(self)@ == edited(old(self)@, items@, mode),
    {
        if mode == SelectionEditMode::Replace {
            self.clear();
        }
        let ghost start = self@;
        let mut i: usize = 0;
        while i < items.len()
            invariant
                i <= items@.len(),
                mode == SelectionEditMode::Replace ==> start == Set::<SelectionItem>::empty(),
                mode != SelectionEditMode::Replace ==> start == old(self)@,
                match mode {
                    SelectionEditMode::Replace | SelectionEditMode::Add =>
                        self@ == start.union(items@.subrange(0, i as int).to_set()),
                    SelectionEditMode::Remove =>
                        self@ == start.difference(items@.subrange(0, i as int).to_set()),
                    SelectionEditMode::Toggle =>
                        self@ == toggle_all(start, items@.subrange(0, i as int)),
                },
            decreases items@.len() - i,
        {
            let item = items[i];
            let ghost prefix = items@.subrange(0, i as int);
            let ghost next = items@.subrange(0, i + 1);
            proof {
                assert(next =~= prefix.push(item));
                assert(next.to_set() =~= prefix.to_set().insert(item)) by {
                    assert forall|x: SelectionItem| next.to_set().contains(x)
                        <==> prefix.to_set().insert(item).contains(x) by {
                        if next.contains(x) && x != item {
                            let k = choose|k: int| 0 <= k < next.len() && next[k] == x;
                            assert(prefix[k] == x);
                        }
                        if prefix.contains(x) {
                            let k = choose|k: int| 0 <= k < prefix.len() && prefix[k] == x;
                            assert(next[k] == x);
                        }
                        if x == item {
                            assert(next[i as int] == x);
                        }
                    }
                }
                assert(next.drop_last() =~= prefix);
            }
            match mode {
                SelectionEditMode::Replace | SelectionEditMode::Add => {
                    self.insert(item);
                    proof {
                        assert(self@ =~= start.union(next.to_set()));
                    }
                },
                SelectionEditMode::Remove => {
                    self.remove(&item);
                    proof {
                        assert(self@ =~= start.difference(next.to_set()));
                    }
                },
                SelectionEditMode::Toggle => {
                    if !self.remove(&item) {
                        self.insert(item);
                    }
                    proof {
                        assert(self@ =~= toggled(toggle_all(start, prefix), item));
                    }
                },
            }
            i = i + 1;
        }
        proof {
            assert(items@.subrange(0, items@.len() as int) =~= items@);
            if mode == SelectionEditMode::Replace {
                assert(Set::<SelectionItem>::empty().union(items@.to_set()) =~= items@.to_set());
            }
        }
    }
}

impl Clone for Selection {
    fn clone(&self) -> (c: Self)
        ensures
            c@ == self@,
    {
        proof {
            use_type_invariant(self);
        }
        Selection { items: self.copy_items() }
    }
}

impl Default for Selection {
    fn default() -> (s: Self)
        ensures
            s@ == Set::<SelectionItem>::empty(),
    {
        Selection::new()
    }
}

/// Selecting an item that was not selected and then deselecting it leaves
/// the selection as it was.
pub proof fn lemma_insert_then_remove(s: Set<SelectionItem>, item: SelectionItem)
    requires
        !s.contains(item),
    ensures
        s.insert(item).remove(item) == s,
{
    assert(s.insert(item).remove(item) =~= s);
}

/// Flipping the same item twice leaves the selection as it was.
pub proof fn lemma_toggle_twice(s: Set<SelectionItem>, item: SelectionItem)
    ensures
        toggled(toggled(s, item), item) == s,
{
    assert(toggled(toggled(s, item), item) =~= s);
}

/// Flips of two items commute.
proof fn lemma_toggle_swap(s: Set<SelectionItem>, a: SelectionItem, b: SelectionItem)
    ensures
        toggled(toggled(s, a), b) == toggled(toggled(s, b), a),
{
    assert(toggled(toggled(s, a), b) =~= toggled(toggled(s, b), a));
}

/// Flipping one item before a run of flips is the same as flipping it
/// after.
proof fn lemma_toggle_all_commutes(s: Set<SelectionItem>, item: SelectionItem, items: Seq<SelectionItem>)
    ensures
        toggle_all(toggled(s, item), items) == toggled(toggle_all(s, items), item),
    decreases items.len(),
{
    if items.len() > 0 {
        lemma_toggle_all_commutes(s, item, items.drop_last());
        lemma_toggle_swap(toggle_all(s, items.drop_last()), item, items.last());
    }
}

/// Toggling the same picked items twice leaves the selection as it was.
pub proof fn lemma_toggle_edit_twice(s: Set<SelectionItem>, items: Seq<SelectionItem>)
    ensures
        edited(edited(s, items, SelectionEditMode::Toggle), items, SelectionEditMode::Toggle) == s,
    decreases items.len(),
{
    if items.len() > 0 {
        let rest = items.drop_last();
        let last = items.last();
        let once = toggle_all(s, items);
        lemma_toggle_all_commutes(toggle_all(s, rest), last, rest);
        lemma_toggle_edit_twice(s, rest);
        lemma_toggle_twice(toggle_all(toggle_all(s, rest), rest), last);
        assert(toggle_all(once, items) == toggled(toggle_all(once, rest), last));
    }
}

/// Adding picked items that were not selected and then removing the same
/// items leaves the selection as it was.
pub proof fn lemma_add_then_remove(s: Set<SelectionItem>, items: Seq<SelectionItem>)
    requires
        s.disjoint(items.to_set()),
    ensures
        edited(edited(s, items, SelectionEditMode::Add), items, SelectionEditMode::Remove) == s,
{
    assert(s.union(items.to_set()).difference(items.to_set()) =~= s);
}

/// Replacing the selection with the same picked items twice is the same
/// as doing it once; the result holds exactly the picked items.
pub proof fn lemma_replace_idempotent(s: Set<SelectionItem>, items: Seq<SelectionItem>)
    ensures
        edited(edited(s, items, SelectionEditMode::Replace), items, SelectionEditMode::Replace)
            == edited(s, items, SelectionEditMode::Replace),
        edited(s, items, SelectionEditMode::Replace) == items.to_set(),
{
}

/// Toggling distinct picked items flips exactly those items: the result is
/// the symmetric difference of the selection and the picked items.
pub proof fn lemma_toggle_is_symmetric_difference(s: Set<SelectionItem>, items: Seq<SelectionItem>)
    requires
        items.no_duplicates(),
    ensures
        edited(s, items, SelectionEditMode::Toggle) == s.difference(items.to_set()).union(
            items.to_set().difference(s),
        ),
    decreases items.len(),
{
    if items.len() == 0 {
        assert(items.to_set() =~= Set::<SelectionItem>::empty());
        assert(s.difference(items.to_set()).union(items.to_set().difference(s)) =~= s);
    } else {
        let rest = items.drop_last();
        let last = items.last();
        assert(rest.no_duplicates()) by {
            assert forall|a: int, b: int| 0 <= a < rest.len() && 0 <= b < rest.len() && a != b implies rest[a]
                != rest[b] by {
                assert(rest[a] == items[a] && rest[b] == items[b]);
            }
        }
        assert(!rest.contains(last)) by {
            if rest.contains(last) {
                let k = choose|k: int| 0 <= k < rest.len() && rest[k] == last;
                assert(items[k] == items[items.len() - 1]);
            }
        }
        lemma_toggle_is_symmetric_difference(s, rest);
        assert(items =~= rest.push(last));
        rest.lemma_push_to_set_commute(last);
        let t = rest.to_set();
        assert(items.to_set() == t.insert(last));
        let before = s.difference(t).union(t.difference(s));
        assert(!t.contains(last)) by {
            if t.contains(last) {
                assert(rest.contains(last));
            }
        }
        assert(toggled(before, last) =~= s.difference(t.insert(last)).union(
            t.insert(last).difference(s),
        ));
    }
}

} // verus!
