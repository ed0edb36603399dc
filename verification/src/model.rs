//! A mathematical model of the machine.
//!
//! A [`Machine`] is one state of the virtual machine. Each operation is a
//! function from a state to the next one. The field `ok` of a state says
//! whether the operations that led to it could all be carried out: once an
//! operation cannot be, `ok` is false, and it stays so.
pub mod decoding;
pub mod execution;
pub mod walks;

use crate::object::{Object, PAIR_TAG};
use crate::rib::FIELD_COUNT;
use vstd::prelude::*;

verus! {

/// The number of ribs in each of the two halves of the heap.
pub const MAX_OBJECT_COUNT: usize = 16384;

/// The number of objects in each half of the heap.
pub const SPACE_SIZE: usize = MAX_OBJECT_COUNT * FIELD_COUNT;

/// The number of objects on the heap.
pub const HEAP_SIZE: usize = SPACE_SIZE * 2;

/// Where the lower half of the heap starts.
pub const HEAP_BOTTOM: usize = 0;

/// Where the lower half of the heap ends and the upper one starts.
pub const HEAP_MIDDLE: usize = SPACE_SIZE;

/// The number zero as an object.
pub open spec fn zero() -> Object {
    Object::Number(0)
}

/// A way to follow the second fields of ribs, from one rib to the next.
#[derive(Clone, Copy, Debug, PartialEq, Eq, Structural)]
pub enum Walk {
    /// Along the stack, up to the first entry whose tag is zero.
    Stack,
    /// Along a list, for as long as there are pairs.
    List,
}

/// A state of the machine.
#[verifier::ext_equal]
pub struct Machine {
    /// The objects on the heap, three for each rib.
    pub heap: Seq<Object>,
    /// The top entry of the stack.
    pub stack: Object,
    /// The instruction to execute next.
    pub program_counter: Object,
    /// The false object. Its fields lead to the true and the nil object.
    pub false_object: Object,
    /// The list of the symbols.
    pub symbol_table: Object,
    /// Where the next rib is allocated.
    pub allocation_index: int,
    /// The end of the space for ribs.
    pub allocation_limit: int,
    /// The encoded program.
    pub input: Seq<u8>,
    /// The number of bytes of the program that are decoded.
    pub position: int,
    /// Whether each operation so far could be carried out.
    pub ok: bool,
}

impl Machine {
    /// What holds of a machine between any two operations.
    pub open spec fn wf(self) -> bool {
        &&& self.ok
        &&& self.heap.len() == HEAP_SIZE
        &&& 0 <= self.allocation_index < self.allocation_limit <= HEAP_SIZE
        &&& self.allocation_index % 3 == 0
        &&& self.allocation_limit % 3 == 0
        &&& 0 <= self.position <= self.input.len()
        &&& self.addressable(self.false_object)
    }

    /// The machine that goes on only if a condition holds.
    pub open spec fn check(self, condition: bool) -> Machine {
        Machine { ok: self.ok && condition, ..self }
    }

    // Memory
    /// Whether all fields of the rib at an address lie on the heap.
    pub open spec fn addressable(self, index: Object) -> bool {
        index.raw() + FIELD_COUNT <= self.heap.len()
    }

    /// A field of the rib at an address.
    pub open spec fn field(self, index: Object, field: int) -> Object {
        self.heap[index.raw() + field]
    }

    pub open spec fn car(self, index: Object) -> Object {
        self.field(index, 0)
    }

    pub open spec fn cdr(self, index: Object) -> Object {
        self.field(index, 1)
    }

    pub open spec fn tag(self, index: Object) -> Object {
        self.field(index, 2)
    }

    /// Writes a field of the rib at an address. The field has to lie on the
    /// heap; the others need not.
    pub open spec fn write(self, index: Object, field: int, value: Object) -> Machine {
        Machine {
            heap: self.heap.update(index.raw() + field, value),
            ok: self.ok && index.raw() + field < self.heap.len(),
            ..self
        }
    }

    /// Whether one more rib can be allocated.
    pub open spec fn has_room(self) -> bool {
        self.allocation_index + FIELD_COUNT != self.allocation_limit
    }

    /// The rib that is allocated next.
    pub open spec fn fresh(self) -> Object {
        Object::Rib(self.allocation_index as u64)
    }

    /// Allocates a rib with the given fields.
    pub open spec fn allocate(self, car: Object, cdr: Object, tag: Object) -> (Object, Machine) {
        (
            self.fresh(),
            Machine {
                heap: self.heap.update(self.allocation_index, car).update(
                    self.allocation_index + 1,
                    cdr,
                ).update(self.allocation_index + 2, tag),
                allocation_index: self.allocation_index + FIELD_COUNT,
                ok: self.ok && self.has_room(),
                ..self
            },
        )
    }

    // The stack
    /// Pushes a value with a tag onto the stack.
    pub open spec fn push(self, car: Object, tag: Object) -> Machine {
        let (entry, pushed) = self.allocate(car, self.stack, tag);
        Machine { stack: entry, ..pushed }
    }

    /// Pushes a value as an ordinary entry.
    pub open spec fn push_value(self, value: Object) -> Machine {
        self.push(value, Object::Number(PAIR_TAG))
    }

    /// Pops a value from the stack.
    pub open spec fn pop(self) -> (Object, Machine) {
        (
            self.car(self.stack),
            Machine {
                stack: self.cdr(self.stack),
                ok: self.ok && self.addressable(self.stack),
                ..self
            },
        )
    }

    // Constants
    pub open spec fn true_object(self) -> Object {
        self.car(self.false_object)
    }

    pub open spec fn nil(self) -> Object {
        self.cdr(self.false_object)
    }

    pub open spec fn boolean(self, value: bool) -> Object {
        if value {
            self.true_object()
        } else {
            self.false_object
        }
    }

    // Lists
    /// What is left of a list without its first elements.
    pub open spec fn tail(self, list: Object, count: nat) -> Object
        decreases count,
    {
        if count == 0 {
            list
        } else {
            self.tail(self.cdr(list), (count - 1) as nat)
        }
    }

    /// Whether every rib that is passed on the way to a tail lies on the heap.
    pub open spec fn has_tail(self, list: Object, count: nat) -> bool
        decreases count,
    {
        count == 0 || self.addressable(list) && self.has_tail(self.cdr(list), (count - 1) as nat)
    }

    /// Whether a walk reads the rib at an address.
    pub open spec fn reads(self, walk: Walk, index: Object) -> bool {
        walk is Stack || index is Rib
    }

    /// Whether a walk goes on from the rib at an address.
    pub open spec fn goes_on(self, walk: Walk, index: Object) -> bool {
        match walk {
            Walk::Stack => self.tag(index).raw() != 0,
            Walk::List => index is Rib && self.tag(index).raw() == 0,
        }
    }

    /// Whether a walk ends after passing the given number of ribs, all of them
    /// on the heap.
    pub open spec fn ends_after(self, walk: Walk, index: Object, count: nat) -> bool
        decreases count,
    {
        &&& self.reads(walk, index) ==> self.addressable(index)
        &&& if self.goes_on(walk, index) {
            count > 0 && self.ends_after(walk, self.cdr(index), (count - 1) as nat)
        } else {
            count == 0
        }
    }

    /// The number of ribs that a walk passes, if it comes to an end.
    pub open spec fn extent(self, walk: Walk, index: Object) -> Option<nat> {
        if exists|count: nat| self.ends_after(walk, index, count) {
            Some(choose|count: nat| self.ends_after(walk, index, count))
        } else {
            None
        }
    }

    /// The length of a list, if the list comes to an end.
    pub open spec fn list_length(self, list: Object) -> Option<nat> {
        self.extent(Walk::List, list)
    }

    /// The first entry of the stack whose tag is zero, if there is one.
    pub open spec fn continuation(self) -> Option<Object> {
        match self.extent(Walk::Stack, self.stack) {
            Some(count) => Some(self.tail(self.stack, count)),
            None => None,
        }
    }

    // Operands
    /// The rib that an operand stands for: the operand itself, or the entry of
    /// the stack at a depth.
    pub open spec fn operand_rib(self, operand: Object) -> Object {
        if operand is Rib {
            operand
        } else {
            self.tail(self.stack, operand.raw() as nat)
        }
    }

    /// Whether the rib of an operand can be found.
    pub open spec fn has_operand_rib(self, operand: Object) -> bool {
        operand is Rib || self.has_tail(self.stack, operand.raw() as nat)
    }

    /// The value of an operand.
    pub open spec fn operand(self, operand: Object) -> Object {
        self.car(self.operand_rib(operand))
    }

    pub open spec fn has_operand(self, operand: Object) -> bool {
        self.has_operand_rib(operand) && self.addressable(self.operand_rib(operand))
    }

    /// The procedure that the current instruction refers to.
    pub open spec fn procedure(self) -> Object {
        self.operand(self.cdr(self.program_counter))
    }

    pub open spec fn has_procedure(self) -> bool {
        self.addressable(self.program_counter) && self.has_operand(
            self.cdr(self.program_counter),
        )
    }

    /// The code of that procedure.
    pub open spec fn code(self) -> Object {
        self.car(self.procedure())
    }

    pub open spec fn has_code(self) -> bool {
        self.has_procedure() && self.addressable(self.procedure())
    }

    /// Moves on to the next instruction.
    pub open spec fn advance(self) -> Machine {
        Machine {
            program_counter: self.tag(self.program_counter),
            ok: self.ok && self.addressable(self.program_counter),
            ..self
        }
    }
}

} // verus!
