//! Instructions, primitives and programs.
use crate::error::Error;
use crate::instruction::{APPLY, CONSTANT, GET, HALT, IF, SET};
use crate::laws::integrity::lemma_field;
use crate::laws::memory::{lemma_entries_stay, lemma_entry};
use crate::model::execution::lemma_stop_changes_nothing;
use crate::model::{zero, Machine};
use crate::object::{Object, PAIR_TAG};
use crate::primitive::{lemma_primitive_of, Comparison, Operator, Primitive, PRIMITIVE_COUNT};
use crate::vm::Status;
use vstd::prelude::*;

verus! {

// Statuses
/// The numbers below the number of primitives are those of primitives, and no
/// others.
pub proof fn law_numbers_of_primitives(number: u64)
    ensures
        Primitive::of(number) is Some <==> number < PRIMITIVE_COUNT,
        Primitive::of(number) is Some ==> (Primitive::of(number)->0).number() == number,
{
    assert(Primitive::Rib.number() == 0);
    assert(Primitive::Id.number() == 1);
    assert(Primitive::Pop.number() == 2);
    assert(Primitive::Skip.number() == 3);
    assert(Primitive::Close.number() == 4);
    assert(Primitive::IsRib.number() == 5);
    assert(Primitive::Field0.number() == 6);
    assert(Primitive::Field1.number() == 7);
    assert(Primitive::Field2.number() == 8);
    assert(Primitive::SetField0.number() == 9);
    assert(Primitive::SetField1.number() == 10);
    assert(Primitive::SetField2.number() == 11);
    assert(Primitive::Equal.number() == 12);
    assert(Primitive::LessThan.number() == 13);
    assert(Primitive::Add.number() == 14);
    assert(Primitive::Subtract.number() == 15);
    assert(Primitive::Multiply.number() == 16);
    assert(Primitive::Divide.number() == 17);
    assert(Primitive::GetC.number() == 18);
    assert(Primitive::PutC.number() == 19);
}

/// A program halts at halt instructions only. It is in error at a rib that
/// holds no instruction, and where the code of a procedure is a number but not
/// that of a primitive.
pub proof fn law_where_programs_stop(s: Machine, input: Option<u8>)
    requires
        s.wf(),
        s.addressable(s.program_counter),
    ensures
        s.step(input).status is Halted <==> s.car(s.program_counter).raw() == HALT,
        s.step(input).status == Status::Failed(Error::IllegalInstruction) <==> s.car(
            s.program_counter,
        ).raw() > HALT,
        s.step(input).status == Status::Failed(Error::IllegalPrimitive) <==> {
            &&& s.car(s.program_counter).raw() == APPLY
            &&& s.has_code()
            &&& s.code() is Number
            &&& s.code().raw() >= PRIMITIVE_COUNT
        },
        s.step(input).status is Reading <==> {
            &&& s.car(s.program_counter).raw() == APPLY
            &&& s.has_code()
            &&& s.code() == Object::Number(Primitive::GetC.number())
            &&& input is None
        },
{
    law_numbers_of_primitives(s.code().raw());
    lemma_primitive_of(Primitive::GetC);
}

/// Where a program stops, or waits for input, nothing changes and nothing is
/// written.
pub proof fn law_stopping_changes_nothing(s: Machine, input: Option<u8>)
    requires
        s.wf(),
        s.step(input).status !is Running,
        s.step(input).status !is Faulted,
    ensures
        s.step(input).machine == s,
        s.step(input).output is None,
{
    lemma_stop_changes_nothing(s, input);
}

/// An instruction that does not ask for input does the same whether there is
/// any or not.
pub proof fn law_input_is_for_readers(s: Machine, byte: u8)
    requires
        s.wf(),
        s.step(None).status !is Reading,
    ensures
        s.step(Some(byte)) == s.step(None),
{
}

/// The input that an instruction asks for is pushed onto the stack as a number.
/// It comes on top of the stack that was there, unless the instruction jumps.
pub proof fn law_input_is_pushed(s: Machine, byte: u8)
    requires
        s.wf(),
        s.step(None).status is Reading,
        s.step(Some(byte)).status is Running,
    ensures
        ({
            let t = s.step(Some(byte)).machine;
            &&& t.car(t.stack) == Object::Number(byte as u64)
            &&& !s.jumps() ==> t.cdr(t.stack) == s.stack
        }),
{
}

impl Machine {
    /// Whether what execution leaves alone is as it was: the program text, the
    /// symbol table, the false object and the end of the memory. No memory is
    /// taken back.
    pub open spec fn keeps_program_of(self, other: Machine) -> bool {
        &&& self.wf()
        &&& self.false_object == other.false_object
        &&& self.symbol_table == other.symbol_table
        &&& self.input == other.input
        &&& self.position == other.position
        &&& self.allocation_limit == other.allocation_limit
        &&& self.allocation_index >= other.allocation_index
    }
}

proof fn lemma_push_keeps_program(s: Machine, value: Object)
    requires
        s.wf(),
        s.push_value(value).ok,
    ensures
        s.push_value(value).keeps_program_of(s),
{
}

proof fn lemma_pop_keeps_program(s: Machine)
    requires
        s.wf(),
        s.pop().1.ok,
    ensures
        s.pop().1.keeps_program_of(s),
{
}

proof fn lemma_pop_into_keeps_program(s: Machine, rib: Object, field: int)
    requires
        s.wf(),
        0 <= field,
        s.pop_into(rib, field).ok,
    ensures
        s.pop_into(rib, field).keeps_program_of(s),
{
}

proof fn lemma_fields_keep_program(s: Machine, field: int)
    requires
        s.wf(),
        0 <= field,
    ensures
        s.get_field(field).ok ==> s.get_field(field).keeps_program_of(s),
        s.set_field(field).ok ==> s.set_field(field).keeps_program_of(s),
{
}

proof fn lemma_operators_keep_program(s: Machine, operator: Operator, comparison: Comparison)
    requires
        s.wf(),
    ensures
        s.operate_binary(operator).ok ==> s.operate_binary(operator).keeps_program_of(s),
        s.operate_comparison(comparison).ok ==> s.operate_comparison(comparison).keeps_program_of(
            s,
        ),
{
}

proof fn lemma_rib_primitive_keeps_program(s: Machine, byte: u8)
    requires
        s.wf(),
        s.operate_primitive(Primitive::Rib, byte).ok,
    ensures
        s.operate_primitive(Primitive::Rib, byte).keeps_program_of(s),
{
    let (rib, t) = s.allocate(zero(), zero(), zero());
    assert(t.keeps_program_of(s));
    let u = t.pop_into(rib, 0);
    lemma_pop_into_keeps_program(t, rib, 0);
    let v = u.pop_into(rib, 1);
    lemma_pop_into_keeps_program(u, rib, 1);
    let w = v.pop_into(rib, 2);
    lemma_pop_into_keeps_program(v, rib, 2);
    lemma_push_keeps_program(w, rib);
}

proof fn lemma_close_primitive_keeps_program(s: Machine, byte: u8)
    requires
        s.wf(),
        s.operate_primitive(Primitive::Close, byte).ok,
    ensures
        s.operate_primitive(Primitive::Close, byte).keeps_program_of(s),
{
}

pub(crate) proof fn lemma_primitive_keeps_program(s: Machine, primitive: Primitive, byte: u8)
    requires
        s.wf(),
        s.operate_primitive(primitive, byte).ok,
    ensures
        s.operate_primitive(primitive, byte).keeps_program_of(s),
{
    let (x, t) = s.pop();
    let (y, u) = t.pop();
    match primitive {
        Primitive::Rib => lemma_rib_primitive_keeps_program(s, byte),
        Primitive::Id => {
            lemma_pop_keeps_program(s);
            lemma_push_keeps_program(t, x);
        },
        Primitive::Pop => lemma_pop_keeps_program(s),
        Primitive::Skip => {
            lemma_pop_keeps_program(s);
            lemma_pop_keeps_program(t);
            lemma_push_keeps_program(u, x);
        },
        Primitive::Close => lemma_close_primitive_keeps_program(s, byte),
        Primitive::IsRib => {
            lemma_pop_keeps_program(s);
            lemma_push_keeps_program(t, t.boolean(x is Rib));
        },
        Primitive::Field0 => lemma_fields_keep_program(s, 0),
        Primitive::Field1 => lemma_fields_keep_program(s, 1),
        Primitive::Field2 => lemma_fields_keep_program(s, 2),
        Primitive::SetField0 => lemma_fields_keep_program(s, 0),
        Primitive::SetField1 => lemma_fields_keep_program(s, 1),
        Primitive::SetField2 => lemma_fields_keep_program(s, 2),
        Primitive::Equal => lemma_operators_keep_program(s, Operator::Add, Comparison::Equal),
        Primitive::LessThan => lemma_operators_keep_program(
            s,
            Operator::Add,
            Comparison::LessThan,
        ),
        Primitive::Add => lemma_operators_keep_program(s, Operator::Add, Comparison::Equal),
        Primitive::Subtract => lemma_operators_keep_program(
            s,
            Operator::Subtract,
            Comparison::Equal,
        ),
        Primitive::Multiply => lemma_operators_keep_program(
            s,
            Operator::Multiply,
            Comparison::Equal,
        ),
        Primitive::Divide => lemma_operators_keep_program(s, Operator::Divide, Comparison::Equal),
        Primitive::GetC => lemma_push_keeps_program(s, Object::Number(byte as u64)),
        Primitive::PutC => lemma_pop_keeps_program(s),
    }
}

proof fn lemma_leaving_keeps_program(s: Machine, jump: bool)
    requires
        s.wf(),
        s.leave_primitive(jump).ok,
    ensures
        s.leave_primitive(jump).keeps_program_of(s),
{
}

proof fn lemma_call_keeps_program(s: Machine, jump: bool)
    requires
        s.wf(),
        s.call(jump).ok,
    ensures
        s.call(jump).keeps_program_of(s),
{
    let code = s.code();
    let count = s.car(code).raw() as nat;
    let t = s.check(s.addressable(code)).write(s.program_counter, 0, code);
    let t = t.check(t.has_procedure());
    let (frame, t) = t.allocate(zero(), t.procedure(), Object::Number(PAIR_TAG));
    assert(t.ok ==> t.keeps_program_of(s));
    lemma_pop_arguments_frame(t, frame, count);
    let (arguments, t) = t.pop_arguments(frame, count);
    assert(t.ok ==> t.keeps_program_of(s));
    let t = t.check(t.has_tail(arguments, count));
    let t = t.link(t.tail(arguments, count), jump);
    assert(t.ok ==> t.keeps_program_of(s));
}

/// Execution changes nothing of the program text, the symbol table and the
/// false object, and takes back no memory.
pub proof fn law_step_keeps_program(s: Machine, input: Option<u8>)
    requires
        s.wf(),
        s.step(input).status !is Faulted,
    ensures
        s.step(input).machine.keeps_program_of(s),
{
    if s.step(input).status is Running {
        let instruction = s.car(s.program_counter).raw();
        if instruction == APPLY {
            if s.code() is Rib {
                lemma_call_keeps_program(s, s.jumps());
            } else {
                let primitive = Primitive::of(s.code().raw())->0;
                let byte = if input is Some {
                    input->0
                } else {
                    0
                };
                lemma_primitive_keeps_program(s, primitive, byte);
                lemma_leaving_keeps_program(s.operate_primitive(primitive, byte), s.jumps());
            }
        }
    } else {
        lemma_stop_changes_nothing(s, input);
    }
}

proof fn lemma_pop_arguments_frame(s: Machine, arguments: Object, count: nat)
    requires
        s.ok ==> s.wf(),
    ensures
        ({
            let (_, t) = s.pop_arguments(arguments, count);
            &&& t.ok ==> s.ok && t.wf()
            &&& t.allocation_index >= s.allocation_index
            &&& t == Machine {
                heap: t.heap,
                stack: t.stack,
                allocation_index: t.allocation_index,
                ok: t.ok,
                ..s
            }
        }),
    decreases count,
{
    if count > 0 && s.ok {
        let (x, t) = s.pop();
        let (list, t) = t.allocate(x, arguments, Object::Number(PAIR_TAG));
        lemma_pop_arguments_frame(t, list, (count - 1) as nat);
    }
}

// Instructions
/// A constant is pushed onto the stack, and no rib changes.
pub proof fn law_constant(s: Machine, input: Option<u8>)
    requires
        s.sound(),
        s.program_counter is Rib,
        s.car(s.program_counter).raw() == CONSTANT,
        s.has_room(),
    ensures
        ({
            let t = s.step(input).machine;
            &&& s.step(input).status is Running
            &&& t.pop().0 == s.cdr(s.program_counter)
            &&& t.pop().1.stack == s.stack
            &&& t.program_counter == s.tag(s.program_counter)
            &&& t.extends(s)
        }),
{
}

/// The value of a variable is pushed onto the stack, and no rib changes.
pub proof fn law_get(s: Machine, input: Option<u8>)
    requires
        s.sound(),
        s.program_counter is Rib,
        s.car(s.program_counter).raw() == GET,
        s.has_operand(s.cdr(s.program_counter)),
        s.has_room(),
    ensures
        ({
            let t = s.step(input).machine;
            &&& s.step(input).status is Running
            &&& t.pop().0 == s.operand(s.cdr(s.program_counter))
            &&& t.pop().1.stack == s.stack
            &&& t.program_counter == s.tag(s.program_counter)
            &&& t.extends(s)
        }),
{
}

/// A variable has the value that was assigned to it. A global variable is given
/// by its rib, a local one by its depth on the stack.
pub proof fn law_set(s: Machine, input: Option<u8>)
    requires
        s.sound(),
        s.program_counter is Rib,
        s.car(s.program_counter).raw() == SET,
        s.stack is Rib,
        ({
            let operand = s.cdr(s.program_counter);
            operand is Number ==> s.has_entries(
                s.cdr(s.stack),
                (operand.raw() + 1) as nat,
            )
        }),
    ensures
        ({
            let t = s.step(input).machine;
            let operand = s.cdr(s.program_counter);
            &&& s.step(input).status is Running
            &&& t.has_operand(operand)
            &&& t.operand(operand) == s.car(s.stack)
            &&& t.stack == s.cdr(s.stack)
            &&& t.program_counter == s.tag(s.program_counter)
            &&& t.allocation_index == s.allocation_index
        }),
{
    let operand = s.cdr(s.program_counter);
    let (x, u) = s.pop();
    lemma_field(s, s.program_counter, 1);
    lemma_field(s, s.stack, 1);
    if operand is Number {
        let depth = operand.raw() as nat;
        lemma_entry(s, s.cdr(s.stack), depth + 1, depth);
        lemma_entries_stay(s, s, s.cdr(s.stack), depth);
        lemma_same_tail(s, u, s.cdr(s.stack), depth);
        let v = u.write(u.operand_rib(operand), 0, x);
        lemma_entries_stay(s, v, s.cdr(s.stack), depth);
        lemma_same_tail(v, v.advance(), s.cdr(s.stack), depth);
    }
}

/// Machines with the same heap have the same lists.
pub(crate) proof fn lemma_same_tail(s: Machine, t: Machine, list: Object, count: nat)
    requires
        t.heap == s.heap,
    ensures
        t.tail(list, count) == s.tail(list, count),
        t.has_tail(list, count) == s.has_tail(list, count),
    decreases count,
{
    if count > 0 {
        lemma_same_tail(s, t, s.cdr(list), (count - 1) as nat);
    }
}

/// A branch pops the condition and goes one way or the other. It changes
/// nothing else.
pub proof fn law_if(s: Machine, input: Option<u8>)
    requires
        s.wf(),
        s.addressable(s.program_counter),
        s.car(s.program_counter).raw() == IF,
        s.addressable(s.stack),
    ensures
        s.step(input).status is Running,
        s.step(input).machine == (Machine {
            stack: s.cdr(s.stack),
            program_counter: if s.car(s.stack).raw() == s.false_object.raw() {
                s.tag(s.program_counter)
            } else {
                s.cdr(s.program_counter)
            },
            ..s
        }),
{
}

// Programs
/// What comes of a program does not depend on the number of steps that it is
/// given, once they are enough.
pub proof fn law_runs_agree(s: Machine, input: Seq<u8>, first: nat, second: nat)
    requires
        s.run(input, first) is Some,
        first <= second,
    ensures
        s.run(input, second) == s.run(input, first),
    decreases first,
{
    let transition = s.step_on(input);
    if transition.status is Running {
        law_runs_agree(
            transition.machine,
            input.skip(s.demand() as int),
            (first - 1) as nat,
            (second - 1) as nat,
        );
    }
}

/// Input that a program does not read has no effect on it.
pub proof fn law_unread_input_is_ignored(
    s: Machine,
    input: Seq<u8>,
    more: Seq<u8>,
    steps: nat,
)
    requires
        s.run(input, steps) is Some,
    ensures
        s.run(input + more, steps) == s.run(input, steps),
    decreases steps,
{
    let transition = s.step_on(input);
    assert(s.step_on(input + more) == transition) by {
        reveal(Machine::step_on);
    }
    if transition.status is Running {
        let demand = s.demand() as int;
        lemma_demand_is_met(s, input);
        assert((input + more).skip(demand) =~= input.skip(demand) + more);
        law_unread_input_is_ignored(
            transition.machine,
            input.skip(demand),
            more,
            (steps - 1) as nat,
        );
    }
}

/// An instruction that goes on finds the input that it asks for.
proof fn lemma_demand_is_met(s: Machine, input: Seq<u8>)
    requires
        s.step_on(input).status is Running,
    ensures
        s.demand() <= input.len(),
{
    reveal(Machine::step_on);
    reveal(Machine::demand);
}

/// A program ends without an error at a halt instruction. It ends with an error
/// where there is no instruction, or where the code of a procedure is the number
/// of no primitive. It reads no more than there is.
pub proof fn law_end_of_run(s: Machine, input: Seq<u8>, steps: nat)
    requires
        s.wf(),
        s.run(input, steps) is Some,
    ensures
        ({
            let run = s.run(input, steps)->0;
            let end = run.machine;
            &&& run.consumed <= input.len()
            &&& end.wf()
            &&& end.addressable(end.program_counter)
            &&& match run.result {
                Ok(_) => end.car(end.program_counter).raw() == HALT,
                Err(Error::IllegalInstruction) => end.car(end.program_counter).raw() > HALT,
                Err(Error::IllegalPrimitive) => {
                    &&& end.car(end.program_counter).raw() == APPLY
                    &&& end.has_code()
                    &&& end.code() is Number
                    &&& end.code().raw() >= PRIMITIVE_COUNT
                },
            }
        }),
    decreases steps,
{
    let transition = s.step_on(input);
    if transition.status is Running {
        lemma_demand_is_met(s, input);
        lemma_step_on_keeps_wf(s, input);
        law_end_of_run(
            transition.machine,
            input.skip(s.demand() as int),
            (steps - 1) as nat,
        );
    } else {
        lemma_end(s, input);
    }
}

proof fn lemma_step_on_keeps_wf(s: Machine, input: Seq<u8>)
    requires
        s.wf(),
        s.step_on(input).status is Running,
    ensures
        s.step_on(input).machine.wf(),
{
    reveal(Machine::step_on);
    law_step_keeps_program(s, None);
    if s.step(None).status is Reading {
        law_step_keeps_program(s, Some(input[0]));
    }
}

proof fn lemma_end(s: Machine, input: Seq<u8>)
    requires
        s.wf(),
    ensures
        ({
            let status = s.step_on(input).status;
            &&& status is Halted ==> s.addressable(s.program_counter) && s.car(
                s.program_counter,
            ).raw() == HALT
            &&& status == Status::Failed(Error::IllegalInstruction) ==> s.addressable(
                s.program_counter,
            ) && s.car(s.program_counter).raw() > HALT
            &&& status == Status::Failed(Error::IllegalPrimitive) ==> {
                &&& s.addressable(s.program_counter)
                &&& s.car(s.program_counter).raw() == APPLY
                &&& s.has_code()
                &&& s.code() is Number
                &&& s.code().raw() >= PRIMITIVE_COUNT
            }
        }),
{
    reveal(Machine::step_on);
    if s.addressable(s.program_counter) {
        law_where_programs_stop(s, None);
        if input.len() > 0 {
            law_where_programs_stop(s, Some(input[0]));
        }
    }
}

} // verus!
