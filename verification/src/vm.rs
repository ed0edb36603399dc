//! The virtual machine.
mod checked;
mod decoding;
mod execution;

use crate::error::Error;
use crate::model::Machine;
use crate::object::Object;
use crate::rib::{Rib, RibMut, FIELD_COUNT};
use vstd::prelude::*;

verus! {

/// The state of the machine after an instruction.
#[derive(Clone, Copy, Debug, PartialEq, Eq, Structural)]
pub enum Status {
    /// The instruction is done, and the next one can be executed.
    Running,
    /// The instruction ends the program. Nothing has changed.
    Halted,
    /// The instruction needs a byte of the input. Nothing has changed: the
    /// instruction is to be executed again, with that byte.
    Reading,
    /// The program is in error. Nothing has changed.
    Failed(Error),
    /// The machine is broken and must not be used any more: the instruction
    /// needs an object outside of the heap, more memory than there is, an
    /// arithmetic result that does not exist, or a continuation that is not on
    /// the stack.
    Faulted,
}

/// What comes of an instruction.
#[derive(Clone, Copy, Debug, PartialEq, Eq, Structural)]
pub struct Step {
    /// The character that is written, by its code.
    pub output: Option<u8>,
    /// How the machine goes on.
    pub status: Status,
}

/// What a program reads and writes.
pub struct Streams<'a> {
    /// The bytes to read.
    pub input: &'a [u8],
    /// The number of bytes that are read.
    pub position: usize,
    /// The characters that are written, by their codes.
    pub output: Vec<u8>,
}

impl<'a> Streams<'a> {
    /// No more bytes are read than there are.
    pub open spec fn wf(&self) -> bool {
        self.position <= self.input@.len()
    }

    /// The bytes that are not read yet.
    pub open spec fn rest(&self) -> Seq<u8> {
        self.input@.skip(self.position as int)
    }
}

/// A virtual machine with a program.
pub struct Vm<'a> {
    // Roots
    stack: Object,
    program_counter: Object,
    false_object: Object,
    position: usize,
    input: &'a [u8],
    heap: Vec<Object>,
    symbol_table: Object,
    allocation_index: usize,
    allocation_limit: usize,
}

impl<'a> View for Vm<'a> {
    type V = Machine;

    closed spec fn view(&self) -> Machine {
        Machine {
            heap: self.heap@,
            stack: self.stack,
            program_counter: self.program_counter,
            false_object: self.false_object,
            symbol_table: self.symbol_table,
            allocation_index: self.allocation_index as int,
            allocation_limit: self.allocation_limit as int,
            input: self.input@,
            position: self.position as int,
            ok: true,
        }
    }
}

/// Returns the place of a field of a rib on the heap.
pub fn get_rib_index(index: Object, field: usize) -> (place: usize)
    requires
        index.raw() + field <= usize::MAX,
        index.raw() + field <= u64::MAX,
    ensures
        place == index.raw() + field,
{
    (index.to_raw() + field as u64) as usize
}

/// Returns the place of the first field of a rib on the heap.
pub fn get_car_index(index: Object) -> (place: usize)
    requires
        index.raw() <= usize::MAX,
    ensures
        place == index.raw(),
{
    get_rib_index(index, 0)
}

/// Returns the place of the second field of a rib on the heap.
pub fn get_cdr_index(index: Object) -> (place: usize)
    requires
        index.raw() + 1 <= usize::MAX,
        index.raw() + 1 <= u64::MAX,
    ensures
        place == index.raw() + 1,
{
    get_rib_index(index, 1)
}

/// Returns the place of the third field of a rib on the heap.
pub fn get_tag_index(index: Object) -> (place: usize)
    requires
        index.raw() + 2 <= usize::MAX,
        index.raw() + 2 <= u64::MAX,
    ensures
        place == index.raw() + 2,
{
    get_rib_index(index, 2)
}

impl<'a> Vm<'a> {
    // Memory
    /// Moves on to the next instruction.
    pub fn advance_program_counter(&mut self)
        requires
            old(self)@.wf(),
            old(self)@.addressable(old(self)@.program_counter),
        ensures
            final(self)@ == old(self)@.advance(),
            final(self)@.wf(),
    {
        self.program_counter = self.get_tag(self.program_counter);
    }

    /// Pops a value from the stack.
    pub fn pop(&mut self) -> (value: Object)
        requires
            old(self)@.wf(),
            old(self)@.addressable(old(self)@.stack),
        ensures
            (value, final(self)@) == old(self)@.pop(),
            final(self)@.wf(),
    {
        let value = self.get_car(self.stack);
        self.stack = self.get_cdr(self.stack);
        value
    }

    /// Pushes a value with a tag onto the stack.
    pub fn push(&mut self, car: Object, tag: Object)
        requires
            old(self)@.wf(),
            old(self)@.has_room(),
        ensures
            final(self)@ == old(self)@.push(car, tag),
            final(self)@.wf(),
    {
        let index = self.allocation_index;
        self.heap.set(index, car);
        self.heap.set(index + 1, self.stack);
        self.heap.set(index + 2, tag);
        self.stack = Object::Rib(index as u64);
        self.allocation_index = index + FIELD_COUNT;
    }

    /// Allocates a rib.
    pub fn allocate_rib(&mut self, car: Object, cdr: Object, tag: Object) -> (rib: Object)
        requires
            old(self)@.wf(),
            old(self)@.has_room(),
        ensures
            (rib, final(self)@) == old(self)@.allocate(car, cdr, tag),
            final(self)@.wf(),
    {
        self.push(car, cdr);
        let stack = self.get_cdr(self.stack);
        let allocated = self.stack;

        let moved = self.heap[get_tag_index(allocated)];
        self.heap.set(get_cdr_index(allocated), moved);
        self.heap.set(get_tag_index(allocated), tag);

        self.stack = stack;
        proof {
            assert(self@.heap =~= old(self)@.allocate(car, cdr, tag).1.heap);
        }

        Object::Rib(allocated.to_raw())
    }

    /// Allocates a rib, as [`Vm::allocate_rib`] does, but has the tag and not
    /// the second field on the heap first.
    pub fn allocate_rib2(&mut self, car: Object, cdr: Object, tag: Object) -> (rib: Object)
        requires
            old(self)@.wf(),
            old(self)@.has_room(),
        ensures
            (rib, final(self)@) == old(self)@.allocate(car, cdr, tag),
            final(self)@.wf(),
    {
        self.push(car, tag);
        let stack = self.get_cdr(self.stack);
        let allocated = self.stack;

        self.heap.set(get_cdr_index(allocated), cdr);

        self.stack = stack;
        proof {
            assert(self@.heap =~= old(self)@.allocate(car, cdr, tag).1.heap);
        }

        Object::Rib(allocated.to_raw())
    }

    /// Returns the place of the top of the stack on the heap.
    pub fn get_tos_index(&self) -> (place: usize)
        requires
            self@.stack.raw() <= usize::MAX,
        ensures
            place == self@.stack.raw(),
    {
        get_car_index(self.stack)
    }

    /// Reads a rib.
    pub fn get_rib(&self, index: Object) -> (rib: Rib)
        requires
            self@.wf(),
            self@.addressable(index),
        ensures
            rib.car == self@.car(index),
            rib.cdr == self@.cdr(index),
            rib.tag == self@.tag(index),
    {
        let index = index.to_raw() as usize;

        Rib { car: self.heap[index], cdr: self.heap[index + 1], tag: self.heap[index + 2] }
    }

    /// Borrows a rib to write to it.
    pub fn get_rib_mut(&mut self, index: Object) -> (rib: RibMut<'_>)
        requires
            old(self)@.wf(),
            old(self)@.addressable(index),
        ensures
            rib.index == index.raw(),
            rib.heap@ == old(self)@.heap,
            final(self)@ == (Machine { heap: final(rib.heap)@, ..old(self)@ }),
    {
        let index = index.to_raw() as usize;

        RibMut { heap: &mut self.heap, index }
    }

    /// Reads the first field of a rib.
    pub fn get_car(&self, index: Object) -> (car: Object)
        requires
            self@.wf(),
            self@.addressable(index),
        ensures
            car == self@.car(index),
    {
        self.get_rib(index).car
    }

    /// Reads the second field of a rib.
    pub fn get_cdr(&self, index: Object) -> (cdr: Object)
        requires
            self@.wf(),
            self@.addressable(index),
        ensures
            cdr == self@.cdr(index),
    {
        self.get_rib(index).cdr
    }

    /// Reads the third field of a rib.
    pub fn get_tag(&self, index: Object) -> (tag: Object)
        requires
            self@.wf(),
            self@.addressable(index),
        ensures
            tag == self@.tag(index),
    {
        self.get_rib(index).tag
    }

    /// Borrows the first field of a rib to write to it.
    pub fn get_car_mut(&mut self, index: Object) -> (car: &mut Object)
        requires
            old(self)@.wf(),
            old(self)@.addressable(index),
        ensures
            *car == old(self)@.car(index),
            final(self)@ == old(self)@.write(index, 0, *final(car)),
    {
        self.get_rib_mut(index).car_mut()
    }

    /// Borrows the second field of a rib to write to it.
    pub fn get_cdr_mut(&mut self, index: Object) -> (cdr: &mut Object)
        requires
            old(self)@.wf(),
            old(self)@.addressable(index),
        ensures
            *cdr == old(self)@.cdr(index),
            final(self)@ == old(self)@.write(index, 1, *final(cdr)),
    {
        self.get_rib_mut(index).cdr_mut()
    }

    /// Borrows the third field of a rib to write to it.
    pub fn get_tag_mut(&mut self, index: Object) -> (tag: &mut Object)
        requires
            old(self)@.wf(),
            old(self)@.addressable(index),
        ensures
            *tag == old(self)@.tag(index),
            final(self)@ == old(self)@.write(index, 2, *final(tag)),
    {
        self.get_rib_mut(index).tag_mut()
    }

    // Constants
    /// Returns the true object.
    pub fn get_true(&self) -> (object: Object)
        requires
            self@.wf(),
        ensures
            object == self@.true_object(),
    {
        self.get_car(self.false_object)
    }

    /// Returns the nil object.
    pub fn get_nil(&self) -> (object: Object)
        requires
            self@.wf(),
        ensures
            object == self@.nil(),
    {
        self.get_cdr(self.false_object)
    }

    /// Returns the true or the false object.
    pub fn get_boolean(&self, value: bool) -> (object: Object)
        requires
            self@.wf(),
        ensures
            object == self@.boolean(value),
    {
        if value {
            self.get_true()
        } else {
            self.false_object
        }
    }
}

} // verus!
