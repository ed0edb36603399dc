//! Ribs, the triples of objects that the heap is made of.
use crate::object::Object;
use vstd::prelude::*;

verus! {

/// The number of fields of a rib.
pub const FIELD_COUNT: usize = 3;

/// The fields of a rib as they were read from the heap.
#[derive(Clone, Copy, Debug, PartialEq, Eq, Structural)]
pub struct Rib {
    pub car: Object,
    pub cdr: Object,
    pub tag: Object,
}

/// A rib on the heap that can be written to.
pub struct RibMut<'a> {
    pub heap: &'a mut Vec<Object>,
    pub index: usize,
}

impl<'a> RibMut<'a> {
    /// Borrows the first field.
    pub fn car_mut(self) -> (field: &'a mut Object)
        requires
            self.index + FIELD_COUNT <= old(self.heap)@.len(),
        ensures
            *field == old(self.heap)@[self.index as int],
            final(self.heap)@ == old(self.heap)@.update(self.index as int, *final(field)),
    {
        &mut self.heap[self.index]
    }

    /// Borrows the second field.
    pub fn cdr_mut(self) -> (field: &'a mut Object)
        requires
            self.index + FIELD_COUNT <= old(self.heap)@.len(),
        ensures
            *field == old(self.heap)@[self.index + 1],
            final(self.heap)@ == old(self.heap)@.update(self.index + 1, *final(field)),
    {
        assert(self.index + 1 < self.heap.len());
        &mut self.heap[self.index + 1]
    }

    /// Borrows the third field.
    pub fn tag_mut(self) -> (field: &'a mut Object)
        requires
            self.index + FIELD_COUNT <= old(self.heap)@.len(),
        ensures
            *field == old(self.heap)@[self.index + 2],
            final(self.heap)@ == old(self.heap)@.update(self.index + 2, *final(field)),
    {
        assert(self.index + 2 < self.heap.len());
        &mut self.heap[self.index + 2]
    }
}

} // verus!
