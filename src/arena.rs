//! Append-only, index-addressed storage shared by plan nodes and expressions.
use vstd::prelude::*;
use vstd::pervasive::VecAdditionalExecFns;

verus! {

/// A handle into an [`Arena`]: the index of a slot.
#[derive(Clone, Copy, PartialEq, Eq, Structural, Debug)]
pub struct Node(pub usize);

/// Values addressed by stable integer handles. Slots are never removed, only
/// overwritten, so a handle stays valid for as long as the arena lives.
pub struct Arena<T> {
    items: Vec<T>,
}

impl<T> View for Arena<T> {
    type V = Seq<T>;

    closed spec fn view(&self) -> Seq<T> {
        self.items@
    }
}

impl<T> Arena<T> {
    pub fn new() -> (res: Self)
        ensures
            res@ == Seq::<T>::empty(),
    {
        Arena { items: Vec::new() }
    }

    pub fn len(&self) -> (res: usize)
        ensures
            res == self@.len(),
    {
        self.items.len()
    }

    pub fn is_empty(&self) -> (res: bool)
        ensures
            res == (self@.len() == 0),
    {
        self.items.len() == 0
    }

    /// Appends `value` and returns the handle of its new slot.
    pub fn add(&mut self, value: T) -> (res: Node)
        ensures
            res.0 == old(self)@.len(),
            final(self)@ == old(self)@.push(value),
    {
        let h = self.items.len();
        self.items.push(value);
        Node(h)
    }

    pub fn get(&self, h: Node) -> (res: &T)
        requires
            h.0 < self@.len(),
        ensures
            *res == self@[h.0 as int],
    {
        &self.items[h.0]
    }

    /// Overwrites the slot at `h` and hands back what it held.
    pub fn replace(&mut self, h: Node, value: T) -> (res: T)
        requires
            h.0 < old(self)@.len(),
        ensures
            res == old(self)@[h.0 as int],
            final(self)@ == old(self)@.update(h.0 as int, value),
    {
        let mut value = value;
        self.items.set_and_swap(h.0, &mut value);
        value
    }
}

} // verus!
