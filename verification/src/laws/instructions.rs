//! What each instruction does to the machine as a whole.
use crate::error::Error;
use crate::laws::execution::{lemma_primitive_keeps_program, lemma_same_tail};
use crate::laws::heap::law_continuation_has_tag;
use crate::laws::values::law_primitives_by_number;
use crate::model::Machine;
use crate::object::Object;
use crate::primitive::{lemma_primitive_of, Primitive};
use crate::vm::Status;
use vstd::prelude::*;

verus! {

impl Machine {
    /// The number of the instruction to execute next.
    pub open spec fn instruction(self) -> u64 {
        self.heap[self.program_counter.raw() as int].raw()
    }

    /// The operand of that instruction.
    pub open spec fn instruction_operand(self) -> Object {
        self.heap[self.program_counter.raw() + 1]
    }

    /// The machine at the instruction behind the one at an address.
    pub open spec fn behind(self, index: Object) -> Machine {
        Machine { program_counter: self.heap[index.raw() + 2], ..self }
    }
}

/// A program counter outside of the heap is a fault. The number five halts, and
/// larger numbers are no instructions.
pub proof fn law_stops(s: Machine, input: Option<u8>)
    requires
        s.wf(),
    ensures
        !s.holds_rib(s.program_counter) ==> s.step(input).status is Faulted,
        s.holds_rib(s.program_counter) ==> {
            &&& s.step(input).status is Halted <==> s.instruction() == 5
            &&& s.step(input).status == Status::Failed(Error::IllegalInstruction)
                <==> s.instruction() > 5
        },
        s.instruction() != 0 ==> s.step(input).output is None,
{
}

/// A constant is the operand itself. It is pushed.
pub proof fn law_constant_instruction(s: Machine, input: Option<u8>)
    requires
        s.wf(),
        s.holds_rib(s.program_counter),
        s.instruction() == 3,
    ensures
        ({
            let transition = s.step(input);
            &&& transition.status == if s.has_room_for(1) {
                Status::Running
            } else {
                Status::Faulted
            }
            &&& transition.output is None
            &&& s.has_room_for(1) ==> transition.machine == s.with_entry(
                s.instruction_operand(),
                s.stack,
            ).behind(s.program_counter)
        }),
{
}

/// The value of a variable is pushed.
pub proof fn law_get_instruction(s: Machine, input: Option<u8>)
    requires
        s.wf(),
        s.holds_rib(s.program_counter),
        s.instruction() == 2,
    ensures
        ({
            let transition = s.step(input);
            let variable = if s.instruction_operand() is Rib {
                s.instruction_operand()
            } else {
                s.tail(s.stack, s.instruction_operand().raw() as nat)
            };
            let can = s.has_room_for(1) && s.holds_rib(variable) && (s.instruction_operand() is Rib
                || s.has_tail(s.stack, s.instruction_operand().raw() as nat));
            &&& transition.status == if can {
                Status::Running
            } else {
                Status::Faulted
            }
            &&& transition.output is None
            &&& can ==> transition.machine == s.with_entry(
                s.heap[variable.raw() as int],
                s.stack,
            ).behind(s.program_counter)
        }),
{
}

/// The top of the stack is popped and assigned to a variable. A local variable
/// is looked for on the stack below.
pub proof fn law_set_instruction(s: Machine, input: Option<u8>)
    requires
        s.wf(),
        s.holds_rib(s.program_counter),
        s.instruction() == 1,
    ensures
        ({
            let transition = s.step(input);
            let value = s.heap[s.stack.raw() as int];
            let stack = s.heap[s.stack.raw() + 1];
            let variable = if s.instruction_operand() is Rib {
                s.instruction_operand()
            } else {
                s.tail(stack, s.instruction_operand().raw() as nat)
            };
            let can = s.holds_rib(s.stack) && variable.raw() < s.heap.len() && (
            s.instruction_operand() is Rib || s.has_tail(
                stack,
                s.instruction_operand().raw() as nat,
            ));
            &&& transition.status == if can {
                Status::Running
            } else {
                Status::Faulted
            }
            &&& transition.output is None
            &&& can ==> transition.machine == (Machine {
                heap: s.heap.update(variable.raw() as int, value),
                stack,
                ..s
            }).behind(s.program_counter)
        }),
{
    let stack = s.heap[s.stack.raw() + 1];
    lemma_same_tail(
        s,
        s.pop().1,
        stack,
        s.instruction_operand().raw() as nat,
    );
}

/// The top of the stack is popped. Execution goes on at the operand, or behind
/// the instruction if the value is the false object.
pub proof fn law_if_instruction(s: Machine, input: Option<u8>)
    requires
        s.wf(),
        s.holds_rib(s.program_counter),
        s.instruction() == 4,
    ensures
        ({
            let transition = s.step(input);
            let value = s.heap[s.stack.raw() as int];
            &&& transition.status == if s.holds_rib(s.stack) {
                Status::Running
            } else {
                Status::Faulted
            }
            &&& transition.output is None
            &&& s.holds_rib(s.stack) ==> transition.machine == (Machine {
                stack: s.heap[s.stack.raw() + 1],
                program_counter: if value.raw() == s.false_object.raw() {
                    s.heap[s.program_counter.raw() + 2]
                } else {
                    s.instruction_operand()
                },
                ..s
            })
        }),
{
}

/// A procedure whose code is a number is a primitive. The machine goes on
/// behind the instruction, or, if there is nothing behind it, where the
/// continuation says and with its stack below the top of the stack.
pub proof fn law_primitive_instruction(s: Machine, input: Option<u8>, primitive: Primitive)
    requires
        s.wf(),
        s.holds_rib(s.program_counter),
        s.instruction() == 0,
        s.has_code(),
        s.code() == Object::Number(primitive.number()),
        primitive is GetC ==> input is Some,
    ensures
        ({
            let transition = s.step(input);
            let byte = if input is Some {
                input->0
            } else {
                0
            };
            let t = s.operate_primitive(primitive, byte);
            let written = if primitive is PutC {
                Some((s.heap[s.stack.raw() as int].raw() % 256) as u8)
            } else {
                None
            };
            if !t.ok {
                transition.status is Faulted && transition.output is None
            } else if s.heap[s.program_counter.raw() + 2] != Object::Number(0) {
                &&& transition.status is Running
                &&& transition.machine == t.behind(s.program_counter)
                &&& transition.output == written
            } else {
                &&& transition.output == written
                &&& transition.status is Running <==> t.continuation() is Some && t.stack.raw() + 1
                    < t.heap.len()
                &&& transition.status is Running ==> transition.machine == (Machine {
                    heap: t.heap.update(
                        t.stack.raw() + 1,
                        t.heap[(t.continuation()->0).raw() as int],
                    ),
                    ..t
                }).behind(t.continuation()->0)
            }
        }),
{
    lemma_primitive_of(primitive);
    let byte = if input is Some {
        input->0
    } else {
        0
    };
    let t = s.operate_primitive(primitive, byte);
    if t.ok {
        law_continuation_has_tag(t);
        lemma_primitive_keeps_program(s, primitive, byte);
    }
}

/// A number that is not that of a primitive is an error. The primitive that
/// reads waits for input.
pub proof fn law_primitive_refusals(s: Machine, input: Option<u8>)
    requires
        s.wf(),
        s.holds_rib(s.program_counter),
        s.instruction() == 0,
    ensures
        !s.has_code() ==> s.step(input).status is Faulted,
        s.has_code() ==> {
            &&& s.step(input).status == Status::Failed(Error::IllegalPrimitive)
                <==> s.code() is Number && s.code().raw() >= 20
            &&& s.step(input).status is Reading <==> s.code() == Object::Number(18) && input is None
            &&& s.step(input).status !is Halted
        },
{
    law_primitives_by_number();
    if let Some(primitive) = Primitive::of(s.code().raw()) {
        assert(primitive.number() == s.code().raw());
    }
}

} // verus!
