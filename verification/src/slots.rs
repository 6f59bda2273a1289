//! The payload table: one slot per address.
//!
//! Every payload lives in a box of its own, so that destroying it gives its
//! storage back at once: what stays behind in the table is an empty slot.

use vstd::prelude::*;

verus! {

/// What a slot holds.
pub open spec fn unboxed<T>(slot: Option<Box<T>>) -> Option<T> {
    match slot {
        Some(value) => Some(*value),
        None => None,
    }
}

/// The payload slots of a context, by address.
pub struct GcSlots<T> {
    slots: Vec<Option<Box<T>>>,
}

impl<T> View for GcSlots<T> {
    type V = Seq<Option<T>>;

    closed spec fn view(&self) -> Seq<Option<T>> {
        Seq::new(self.slots@.len(), |i: int| unboxed(self.slots@[i]))
    }
}

impl<T> GcSlots<T> {
    /// A table without slots.
    pub fn new() -> (r: Self)
        ensures
            r@ == Seq::<Option<T>>::empty(),
    {
        let r = Self { slots: Vec::new() };
        assert(r@ =~= Seq::<Option<T>>::empty());
        r
    }

    /// The number of slots.
    pub fn len(&self) -> (r: usize)
        ensures
            r == self@.len(),
    {
        self.slots.len()
    }

    /// Adds a slot at the next address.
    pub fn push(&mut self, value: Option<T>)
        ensures
            final(self)@ == old(self)@.push(value),
    {
        let slot = match value {
            Some(value) => Some(Box::new(value)),
            None => None,
        };
        self.slots.push(slot);
        assert(self@ =~= old(self)@.push(value));
    }

    /// The payload in slot `id`, if there is one.
    pub fn get(&self, id: usize) -> (r: Option<&T>)
        requires
            id < self@.len(),
        ensures
            r is Some == self@[id as int] is Some,
            r matches Some(value) ==> self@[id as int] == Some(*value),
    {
        match &self.slots[id] {
            Some(value) => Some(&**value),
            None => None,
        }
    }

    /// Empties slot `id` and returns what it held. The payload's storage
    /// goes when the caller lets go of the result.
    pub fn take(&mut self, id: usize) -> (r: Option<T>)
        requires
            id < old(self)@.len(),
        ensures
            r == old(self)@[id as int],
            final(self)@ == old(self)@.update(id as int, None),
    {
        let slot = self.slots[id].take();
        assert(self@ =~= old(self)@.update(id as int, None));
        match slot {
            Some(value) => Some(*value),
            None => None,
        }
    }

    /// Puts `value` into slot `id` and returns what the slot held.
    pub fn replace(&mut self, id: usize, value: T) -> (r: Option<T>)
        requires
            id < old(self)@.len(),
        ensures
            r == old(self)@[id as int],
            final(self)@ == old(self)@.update(id as int, Some(value)),
    {
        let mut slot = Some(Box::new(value));
        std::mem::swap(&mut self.slots[id], &mut slot);
        assert(self@ =~= old(self)@.update(id as int, Some(value)));
        match slot {
            Some(value) => Some(*value),
            None => None,
        }
    }
}

} // verus!
