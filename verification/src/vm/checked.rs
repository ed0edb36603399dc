//! Operations that tell whether they can be carried out.
use super::{get_car_index, get_cdr_index, get_tag_index, Vm};
use crate::model::walks::{lemma_extent, lemma_tail_add, lemma_walk_is_short};
use crate::model::{Walk, HEAP_SIZE};
use crate::object::Object;
use crate::rib::FIELD_COUNT;
use vstd::prelude::*;

verus! {

impl<'a> Vm<'a> {
    /// Tells whether all fields of the rib at an address lie on the heap.
    pub fn is_addressable(&self, index: Object) -> (addressable: bool)
        requires
            self@.wf(),
        ensures
            addressable == self@.addressable(index),
    {
        index.to_raw() <= (HEAP_SIZE - FIELD_COUNT) as u64
    }

    /// Tells whether one more rib can be allocated.
    pub fn has_room(&self) -> (room: bool)
        requires
            self@.wf(),
        ensures
            room == self@.has_room(),
    {
        self.allocation_index + FIELD_COUNT != self.allocation_limit
    }

    /// Pops a value, if the top of the stack lies on the heap.
    pub(crate) fn checked_pop(&mut self) -> (value: Option<Object>)
        requires
            old(self)@.wf(),
        ensures
            value is Some <==> old(self)@.pop().1.ok,
            value is Some ==> (value->0, final(self)@) == old(self)@.pop(),
            value is None ==> final(self)@ == old(self)@,
            final(self)@.wf(),
    {
        if self.is_addressable(self.stack) {
            Some(self.pop())
        } else {
            None
        }
    }

    /// Pushes a value, if there is room.
    pub(crate) fn checked_push(&mut self, car: Object, tag: Object) -> (done: Option<()>)
        requires
            old(self)@.wf(),
        ensures
            done is Some <==> old(self)@.push(car, tag).ok,
            done is Some ==> final(self)@ == old(self)@.push(car, tag),
            done is None ==> final(self)@ == old(self)@,
            final(self)@.wf(),
    {
        if self.has_room() {
            self.push(car, tag);
            Some(())
        } else {
            None
        }
    }

    /// Allocates a rib, if there is room.
    pub(crate) fn checked_allocate_rib(&mut self, car: Object, cdr: Object, tag: Object) -> (rib:
        Option<Object>)
        requires
            old(self)@.wf(),
        ensures
            rib is Some <==> old(self)@.allocate(car, cdr, tag).1.ok,
            rib is Some ==> (rib->0, final(self)@) == old(self)@.allocate(car, cdr, tag),
            rib is None ==> final(self)@ == old(self)@,
            final(self)@.wf(),
    {
        if self.has_room() {
            Some(self.allocate_rib(car, cdr, tag))
        } else {
            None
        }
    }

    /// Reads the first field of a rib, if the rib lies on the heap.
    pub(crate) fn checked_get_car(&self, index: Object) -> (car: Option<Object>)
        requires
            self@.wf(),
        ensures
            car is Some <==> self@.addressable(index),
            car is Some ==> car->0 == self@.car(index),
    {
        if self.is_addressable(index) {
            Some(self.get_car(index))
        } else {
            None
        }
    }

    /// Reads the second field of a rib, if the rib lies on the heap.
    pub(crate) fn checked_get_cdr(&self, index: Object) -> (cdr: Option<Object>)
        requires
            self@.wf(),
        ensures
            cdr is Some <==> self@.addressable(index),
            cdr is Some ==> cdr->0 == self@.cdr(index),
    {
        if self.is_addressable(index) {
            Some(self.get_cdr(index))
        } else {
            None
        }
    }

    /// Reads the third field of a rib, if the rib lies on the heap.
    pub(crate) fn checked_get_tag(&self, index: Object) -> (tag: Option<Object>)
        requires
            self@.wf(),
        ensures
            tag is Some <==> self@.addressable(index),
            tag is Some ==> tag->0 == self@.tag(index),
    {
        if self.is_addressable(index) {
            Some(self.get_tag(index))
        } else {
            None
        }
    }

    /// Writes the first field of a rib, if the field lies on the heap.
    pub(crate) fn checked_set_car(&mut self, index: Object, value: Object) -> (done: Option<()>)
        requires
            old(self)@.wf(),
        ensures
            done is Some <==> old(self)@.write(index, 0, value).ok,
            done is Some ==> final(self)@ == old(self)@.write(index, 0, value),
            done is None ==> final(self)@ == old(self)@,
            final(self)@.wf(),
    {
        if index.to_raw() < HEAP_SIZE as u64 {
            self.heap.set(get_car_index(index), value);
            Some(())
        } else {
            None
        }
    }

    /// Writes the second field of a rib, if the field lies on the heap.
    pub(crate) fn checked_set_cdr(&mut self, index: Object, value: Object) -> (done: Option<()>)
        requires
            old(self)@.wf(),
        ensures
            done is Some <==> old(self)@.write(index, 1, value).ok,
            done is Some ==> final(self)@ == old(self)@.write(index, 1, value),
            done is None ==> final(self)@ == old(self)@,
            final(self)@.wf(),
    {
        if index.to_raw() < (HEAP_SIZE - 1) as u64 {
            self.heap.set(get_cdr_index(index), value);
            Some(())
        } else {
            None
        }
    }

    /// Writes the third field of a rib, if the field lies on the heap.
    pub(crate) fn checked_set_tag(&mut self, index: Object, value: Object) -> (done: Option<()>)
        requires
            old(self)@.wf(),
        ensures
            done is Some <==> old(self)@.write(index, 2, value).ok,
            done is Some ==> final(self)@ == old(self)@.write(index, 2, value),
            done is None ==> final(self)@ == old(self)@,
            final(self)@.wf(),
    {
        if index.to_raw() < (HEAP_SIZE - 2) as u64 {
            self.heap.set(get_tag_index(index), value);
            Some(())
        } else {
            None
        }
    }

    // Lists
    /// Follows ribs for as long as a walk goes on. The result is the number of
    /// ribs that are passed, and where the walk ends.
    fn follow(&self, walk: Walk, index: Object) -> (end: Option<(u64, Object)>)
        requires
            self@.wf(),
        ensures
            match self@.extent(walk, index) {
                Some(count) => {
                    &&& end is Some
                    &&& (end->0).0 == count
                    &&& (end->0).1 == self@.tail(index, count)
                    &&& self@.reads(walk, (end->0).1) ==> self@.addressable((end->0).1)
                },
                None => end is None,
            },
    {
        let mut current = index;
        let mut count: u64 = 0;
        loop
            invariant
                self@.wf(),
                count <= HEAP_SIZE,
                current == self@.tail(index, count as nat),
                forall|n: nat| #[trigger]
                    self@.ends_after(walk, index, n) <==> n >= count && self@.ends_after(
                        walk,
                        current,
                        (n - count) as nat,
                    ),
            decreases HEAP_SIZE - count,
        {
            let read = match walk {
                Walk::Stack => true,
                Walk::List => current.is_rib(),
            };
            if read && !self.is_addressable(current) {
                return None;
            }
            let going = match walk {
                Walk::Stack => self.get_tag(current).to_raw() != 0,
                Walk::List => read && self.get_tag(current).to_raw() == 0,
            };
            if !going {
                proof {
                    assert(self@.ends_after(walk, current, 0));
                    assert(self@.ends_after(walk, index, count as nat));
                    lemma_extent(self@, walk, index, count as nat);
                }
                return Some((count, current));
            }
            if count == HEAP_SIZE as u64 {
                proof {
                    if exists|n: nat| self@.ends_after(walk, index, n) {
                        let n = choose|n: nat| self@.ends_after(walk, index, n);
                        lemma_walk_is_short(self@, walk, index, n);
                    }
                }
                return None;
            }
            proof {
                lemma_tail_add(self@, index, count as nat, 1);
                reveal_with_fuel(crate::model::Machine::tail, 2);
            }
            current = self.get_cdr(current);
            count = count + 1;
        }
    }

    /// Returns the length of a list. There is none if the list has no end or
    /// leads out of the heap.
    pub fn get_list_length(&self, list: Object) -> (length: Option<Object>)
        requires
            self@.wf(),
        ensures
            match self@.list_length(list) {
                Some(count) => length == Some(Object::Number(count as u64)) && count < HEAP_SIZE,
                None => length is None,
            },
    {
        proof {
            if let Some(count) = self@.list_length(list) {
                lemma_walk_is_short(self@, Walk::List, list, count);
            }
        }
        match self.follow(Walk::List, list) {
            Some((count, _)) => Some(Object::Number(count)),
            None => None,
        }
    }

    /// Returns what is left of a list without its first elements. There is no
    /// such tail if a rib on the way to it lies outside of the heap.
    pub fn get_list_tail(&self, list: Object, index: Object) -> (tail: Option<Object>)
        requires
            self@.wf(),
        ensures
            tail is Some <==> self@.has_tail(list, index.raw() as nat),
            tail is Some ==> tail->0 == self@.tail(list, index.raw() as nat),
    {
        let mut current = list;
        let mut count: u64 = index.to_raw();
        while count > 0
            invariant
                self@.wf(),
                self@.has_tail(list, index.raw() as nat) <==> self@.has_tail(
                    current,
                    count as nat,
                ),
                self@.tail(list, index.raw() as nat) == self@.tail(current, count as nat),
            decreases count,
        {
            current = self.checked_get_cdr(current)?;
            count = count - 1;
        }
        Some(current)
    }

    /// Returns the part of the symbol table that starts at an index.
    pub fn get_symbol_ref(&self, index: Object) -> (symbol: Option<Object>)
        requires
            self@.wf(),
        ensures
            symbol is Some <==> self@.has_tail(self@.symbol_table, index.raw() as nat),
            symbol is Some ==> symbol->0 == self@.tail(self@.symbol_table, index.raw() as nat),
    {
        self.get_list_tail(self.symbol_table, index)
    }

    // Operands
    /// Returns the rib that an operand stands for.
    pub(crate) fn get_operand_rib(&self, operand: Object) -> (rib: Option<Object>)
        requires
            self@.wf(),
        ensures
            rib is Some <==> self@.has_operand_rib(operand),
            rib is Some ==> rib->0 == self@.operand_rib(operand),
    {
        if operand.is_rib() {
            Some(operand)
        } else {
            self.get_list_tail(self.stack, operand)
        }
    }

    /// Returns the value of an operand.
    pub fn get_operand(&self, operand: Object) -> (value: Option<Object>)
        requires
            self@.wf(),
        ensures
            value is Some <==> self@.has_operand(operand),
            value is Some ==> value->0 == self@.operand(operand),
    {
        let rib = self.get_operand_rib(operand)?;
        self.checked_get_car(rib)
    }

    /// Returns the procedure that the current instruction refers to.
    pub fn get_procedure(&self) -> (procedure: Option<Object>)
        requires
            self@.wf(),
        ensures
            procedure is Some <==> self@.has_procedure(),
            procedure is Some ==> procedure->0 == self@.procedure(),
    {
        let operand = self.checked_get_cdr(self.program_counter)?;
        self.get_operand(operand)
    }

    /// Returns the code of that procedure.
    pub fn get_code(&self) -> (code: Option<Object>)
        requires
            self@.wf(),
        ensures
            code is Some <==> self@.has_code(),
            code is Some ==> code->0 == self@.code(),
    {
        let procedure = self.get_procedure()?;
        self.checked_get_car(procedure)
    }

    /// Returns the first entry of the stack whose tag is zero. There is none if
    /// the stack has no such entry, or leads out of the heap before it.
    pub fn get_continuation(&self) -> (continuation: Option<Object>)
        requires
            self@.wf(),
        ensures
            continuation == self@.continuation(),
            continuation is Some ==> self@.addressable(continuation->0),
    {
        match self.follow(Walk::Stack, self.stack) {
            Some((_, entry)) => Some(entry),
            None => None,
        }
    }
}

} // verus!
