//! Every address of a rib is the address of an allocated rib.
use crate::model::decoding::{
    blank, first_code, is_program, kind_of, lemma_decode_code_progress,
    lemma_read_integer_progress, loaded, CODE_KIND_COUNT, INSTRUCTION_WEIGHTS,
    LAST_OPERAND_CODE, NAME_SEPARATOR, SYMBOL_TABLE_END,
};
use crate::model::{zero, Machine, Walk};
use crate::object::{Object, CLOSURE_TAG, PAIR_TAG, SINGLETON_TAG, STRING_TAG, SYMBOL_TAG};
use crate::primitive::{Comparison, Operator, Primitive};
use vstd::prelude::*;

verus! {

impl Machine {
    /// Whether an object is a number or the address of an allocated rib.
    pub open spec fn knows(self, object: Object) -> bool {
        object matches Object::Rib(address) ==> address % 3 == 0 && address
            < self.allocation_index
    }

    /// Whether the machine knows all objects on the heap, and those that it
    /// holds itself.
    pub open spec fn sound(self) -> bool {
        &&& self.wf()
        &&& forall|i: int| 0 <= i < self.heap.len() ==> self.knows(#[trigger] self.heap[i])
        &&& self.knows(self.stack)
        &&& self.knows(self.program_counter)
        &&& self.knows(self.false_object)
        &&& self.knows(self.symbol_table)
    }

    /// Whether a machine is sound, or can do nothing any more.
    pub open spec fn safe(self) -> bool {
        self.ok ==> self.sound()
    }
}

/// A sound machine can read every rib that it knows.
pub proof fn law_known_ribs_are_on_the_heap(s: Machine, object: Object)
    requires
        s.sound(),
        s.knows(object),
        object is Rib,
    ensures
        s.addressable(object),
{
}

pub(crate) proof fn lemma_field(s: Machine, index: Object, field: int)
    requires
        s.sound(),
        s.addressable(index),
        0 <= field < 3,
    ensures
        s.knows(s.field(index, field)),
{
}

pub(crate) proof fn lemma_write(s: Machine, index: Object, field: int, value: Object)
    requires
        s.safe(),
        s.ok ==> s.knows(value),
        0 <= field,
    ensures
        s.write(index, field, value).safe(),
{
    let t = s.write(index, field, value);
    if t.ok {
        assert forall|i: int| 0 <= i < t.heap.len() implies t.knows(#[trigger] t.heap[i]) by {
            assert(s.knows(s.heap[i]));
        }
    }
}

pub(crate) proof fn lemma_allocate(s: Machine, car: Object, cdr: Object, tag: Object)
    requires
        s.safe(),
        s.ok ==> s.knows(car),
        s.ok ==> s.knows(cdr),
        s.ok ==> s.knows(tag),
    ensures
        s.allocate(car, cdr, tag).1.safe(),
        s.allocate(car, cdr, tag).1.ok ==> s.allocate(car, cdr, tag).1.knows(s.fresh()),
{
    let t = s.allocate(car, cdr, tag).1;
    if t.ok {
        assert forall|i: int| 0 <= i < t.heap.len() implies t.knows(#[trigger] t.heap[i]) by {
            assert(s.knows(s.heap[i]));
        }
    }
}

pub(crate) proof fn lemma_push(s: Machine, car: Object, tag: Object)
    requires
        s.safe(),
        s.ok ==> s.knows(car),
        s.ok ==> s.knows(tag),
    ensures
        s.push(car, tag).safe(),
{
    lemma_allocate(s, car, s.stack, tag);
    let t = s.push(car, tag);
    if t.ok {
        let u = s.allocate(car, s.stack, tag).1;
        assert forall|i: int| 0 <= i < t.heap.len() implies t.knows(#[trigger] t.heap[i]) by {
            assert(u.knows(u.heap[i]));
        }
    }
}

pub(crate) proof fn lemma_pop(s: Machine)
    requires
        s.safe(),
    ensures
        s.pop().1.safe(),
        s.pop().1.ok ==> s.pop().1.knows(s.pop().0),
{
    let t = s.pop().1;
    if t.ok {
        lemma_field(s, s.stack, 0);
        lemma_field(s, s.stack, 1);
        assert forall|i: int| 0 <= i < t.heap.len() implies t.knows(#[trigger] t.heap[i]) by {
            assert(s.knows(s.heap[i]));
        }
    }
}

pub(crate) proof fn lemma_tail(s: Machine, list: Object, count: nat)
    requires
        s.sound(),
        s.knows(list),
        s.has_tail(list, count),
    ensures
        s.knows(s.tail(list, count)),
    decreases count,
{
    if count > 0 {
        lemma_field(s, list, 1);
        lemma_tail(s, s.cdr(list), (count - 1) as nat);
    }
}

/// Where a walk ends, all ribs on the way are on the heap.
proof fn lemma_walk_has_tail(s: Machine, walk: Walk, index: Object, count: nat)
    requires
        s.ends_after(walk, index, count),
    ensures
        s.has_tail(index, count),
        s.reads(walk, s.tail(index, count)) ==> s.addressable(s.tail(index, count)),
    decreases count,
{
    if count > 0 {
        lemma_walk_has_tail(s, walk, s.cdr(index), (count - 1) as nat);
    }
}

pub(crate) proof fn lemma_continuation(s: Machine)
    requires
        s.sound(),
        s.continuation() is Some,
    ensures
        s.knows(s.continuation()->0),
        s.addressable(s.continuation()->0),
{
    let count = s.extent(Walk::Stack, s.stack)->0;
    lemma_walk_has_tail(s, Walk::Stack, s.stack, count);
    lemma_tail(s, s.stack, count);
}

pub(crate) proof fn lemma_procedure(s: Machine)
    requires
        s.sound(),
        s.has_procedure(),
    ensures
        s.knows(s.procedure()),
{
    let operand = s.cdr(s.program_counter);
    lemma_field(s, s.program_counter, 1);
    if operand is Number {
        lemma_tail(s, s.stack, operand.raw() as nat);
    }
    lemma_field(s, s.operand_rib(operand), 0);
}

proof fn lemma_advance(s: Machine)
    requires
        s.safe(),
    ensures
        s.advance().safe(),
{
    if s.advance().ok {
        lemma_field(s, s.program_counter, 2);
        lemma_same_heap(s, s.advance());
    }
}

/// Machines with the same heap and the same allocated ribs know the same
/// objects.
proof fn lemma_same_heap(s: Machine, t: Machine)
    requires
        s.sound(),
        t.heap == s.heap,
        t.allocation_index == s.allocation_index,
    ensures
        forall|i: int| 0 <= i < t.heap.len() ==> t.knows(#[trigger] t.heap[i]),
{
    assert forall|i: int| 0 <= i < t.heap.len() implies t.knows(#[trigger] t.heap[i]) by {
        assert(s.knows(s.heap[i]));
    }
}

proof fn lemma_pop_into(s: Machine, rib: Object, field: int)
    requires
        s.safe(),
        0 <= field,
    ensures
        s.pop_into(rib, field).safe(),
{
    lemma_pop(s);
    lemma_write(s.pop().1, rib, field, s.pop().0);
}

proof fn lemma_get_field(s: Machine, field: int)
    requires
        s.safe(),
        0 <= field < 3,
    ensures
        s.get_field(field).safe(),
{
    lemma_pop(s);
    let (x, t) = s.pop();
    let u = t.check(t.addressable(x));
    if u.ok {
        lemma_field(t, x, field);
        lemma_same_heap(t, u);
        lemma_push(u, t.field(x, field), Object::Number(PAIR_TAG));
    }
}

proof fn lemma_set_field(s: Machine, field: int)
    requires
        s.safe(),
        0 <= field,
    ensures
        s.set_field(field).safe(),
{
    lemma_pop(s);
    let (x, t) = s.pop();
    lemma_pop(t);
    let (y, t) = t.pop();
    lemma_write(t, x, field, y);
    lemma_push(t.write(x, field, y), y, Object::Number(PAIR_TAG));
}

proof fn lemma_operate_primitive(s: Machine, primitive: Primitive, byte: u8)
    requires
        s.sound(),
    ensures
        s.operate_primitive(primitive, byte).safe(),
{
    let pair = Object::Number(PAIR_TAG);
    lemma_pop(s);
    let (x, t) = s.pop();
    lemma_pop(t);
    let (y, u) = t.pop();
    match primitive {
        Primitive::Rib => {
            lemma_allocate(s, zero(), zero(), zero());
            let (rib, t) = s.allocate(zero(), zero(), zero());
            lemma_pop_into(t, rib, 0);
            lemma_pop_into(t.pop_into(rib, 0), rib, 1);
            lemma_pop_into(t.pop_into(rib, 0).pop_into(rib, 1), rib, 2);
            lemma_push(t.pop_into(rib, 0).pop_into(rib, 1).pop_into(rib, 2), rib, pair);
        },
        Primitive::Id => {
            lemma_push(t, x, pair);
        },
        Primitive::Skip => {
            lemma_push(u, x, pair);
        },
        Primitive::Close => {
            let top = s.car(s.stack);
            let t = s.check(s.addressable(s.stack) && s.addressable(top));
            if t.ok {
                lemma_same_heap(s, t);
                lemma_field(s, s.stack, 0);
                lemma_field(s, s.stack, 1);
                lemma_field(s, top, 0);
                let tag = Object::Number(CLOSURE_TAG);
                lemma_allocate(t, s.car(top), s.cdr(s.stack), tag);
                let (closure, u) = t.allocate(s.car(top), s.cdr(s.stack), tag);
                lemma_write(u, u.stack, 0, closure);
            }
        },
        Primitive::IsRib => {
            if t.ok {
                lemma_field(t, t.false_object, 0);
            }
            lemma_push(t, t.boolean(x is Rib), pair);
        },
        Primitive::Field0 => lemma_get_field(s, 0),
        Primitive::Field1 => lemma_get_field(s, 1),
        Primitive::Field2 => lemma_get_field(s, 2),
        Primitive::SetField0 => lemma_set_field(s, 0),
        Primitive::SetField1 => lemma_set_field(s, 1),
        Primitive::SetField2 => lemma_set_field(s, 2),
        Primitive::Equal => {
            if u.ok {
                lemma_field(u, u.false_object, 0);
            }
            lemma_push(u, u.boolean(Comparison::Equal.holds(x.raw(), y.raw())), pair);
        },
        Primitive::LessThan => {
            if u.ok {
                lemma_field(u, u.false_object, 0);
            }
            lemma_push(u, u.boolean(Comparison::LessThan.holds(x.raw(), y.raw())), pair);
        },
        Primitive::Add => {
            if let Some(result) = Operator::Add.result(x.raw(), y.raw()) {
                lemma_push(u, Object::Number(result), pair);
            }
        },
        Primitive::Subtract => {
            if let Some(result) = Operator::Subtract.result(x.raw(), y.raw()) {
                lemma_push(u, Object::Number(result), pair);
            }
        },
        Primitive::Multiply => {
            if let Some(result) = Operator::Multiply.result(x.raw(), y.raw()) {
                lemma_push(u, Object::Number(result), pair);
            }
        },
        Primitive::Divide => {
            if let Some(result) = Operator::Divide.result(x.raw(), y.raw()) {
                lemma_push(u, Object::Number(result), pair);
            }
        },
        Primitive::GetC => {
            lemma_push(s, Object::Number(byte as u64), pair);
        },
        Primitive::Pop => {},
        Primitive::PutC => {},
    }
}

proof fn lemma_leave_primitive(s: Machine, jump: bool)
    requires
        s.sound(),
    ensures
        s.leave_primitive(jump).safe(),
{
    if jump {
        if let Some(frame) = s.continuation() {
            let t = Machine { program_counter: frame, ..s };
            lemma_continuation(s);
            lemma_same_heap(s, t);
            lemma_field(t, frame, 0);
            lemma_write(t, t.stack, 1, t.car(frame));
            lemma_advance(t.write(t.stack, 1, t.car(frame)));
        }
    } else {
        lemma_advance(s);
    }
}

pub(crate) proof fn lemma_pop_arguments(s: Machine, arguments: Object, count: nat)
    requires
        s.safe(),
        s.ok ==> s.knows(arguments),
    ensures
        ({
            let (list, t) = s.pop_arguments(arguments, count);
            &&& t.safe()
            &&& t.ok ==> t.knows(list)
            &&& t.program_counter == s.program_counter
            &&& t.heap.len() == s.heap.len()
            &&& t.allocation_index >= s.allocation_index
        }),
    decreases count,
{
    if count > 0 && s.ok {
        lemma_pop(s);
        let (x, t) = s.pop();
        let pair = Object::Number(PAIR_TAG);
        lemma_allocate(t, x, arguments, pair);
        let (list, t) = t.allocate(x, arguments, pair);
        lemma_pop_arguments(t, list, (count - 1) as nat);
    }
}

proof fn lemma_link(s: Machine, frame: Object, jump: bool)
    requires
        s.sound(),
        s.addressable(s.program_counter),
    ensures
        s.link(frame, jump).safe(),
{
    if jump {
        if let Some(continuation) = s.continuation() {
            lemma_continuation(s);
            lemma_field(s, continuation, 0);
            lemma_write(s, frame, 0, s.car(continuation));
            let t = s.write(frame, 0, s.car(continuation));
            if t.ok {
                lemma_field(t, continuation, 2);
            }
            lemma_write(t, frame, 2, t.tag(continuation));
        }
    } else {
        lemma_write(s, frame, 0, s.stack);
        let t = s.write(frame, 0, s.stack);
        if t.ok {
            lemma_field(t, t.program_counter, 2);
        }
        lemma_write(t, frame, 2, t.tag(t.program_counter));
    }
}

proof fn lemma_call(s: Machine, jump: bool)
    requires
        s.sound(),
        s.has_code(),
    ensures
        s.call(jump).safe(),
{
    let instruction = s.car(s.program_counter);
    let code = s.code();
    let count = s.car(code).raw() as nat;
    let pair = Object::Number(PAIR_TAG);
    lemma_field(s, s.program_counter, 0);
    lemma_procedure(s);
    lemma_field(s, s.procedure(), 0);
    let t = s.check(s.addressable(code));
    if t.ok {
        lemma_same_heap(s, t);
        lemma_write(t, s.program_counter, 0, code);
        let t = t.write(s.program_counter, 0, code);
        assert(t.ok);
        let u = t.check(t.has_procedure());
        if u.ok {
            lemma_same_heap(t, u);
            lemma_procedure(u);
            lemma_allocate(u, zero(), u.procedure(), pair);
            let (frame, u) = u.allocate(zero(), u.procedure(), pair);
            lemma_pop_arguments(u, frame, count);
            let (arguments, u) = u.pop_arguments(frame, count);
            let v = u.check(u.has_tail(arguments, count));
            if v.ok {
                lemma_same_heap(u, v);
                lemma_link(v, v.tail(arguments, count), jump);
                let w = v.link(v.tail(arguments, count), jump);
                if w.ok {
                    let code = w.car(w.program_counter);
                    lemma_field(w, w.program_counter, 0);
                    assert(w.knows(instruction));
                    lemma_write(w, w.program_counter, 0, instruction);
                    let x = w.write(w.program_counter, 0, instruction);
                    if x.ok && x.addressable(code) {
                        lemma_field(x, code, 2);
                        lemma_same_heap(x, s.call(jump));
                    }
                }
            }
        }
    }
}

proof fn lemma_assign(s: Machine)
    requires
        s.sound(),
        s.addressable(s.program_counter),
    ensures
        s.assign().safe(),
{
    lemma_pop(s);
    let (x, t) = s.pop();
    let operand = t.cdr(t.program_counter);
    let u = t.check(t.has_operand_rib(operand));
    if u.ok {
        lemma_same_heap(t, u);
    }
    lemma_write(u, t.operand_rib(operand), 0, x);
    lemma_advance(u.write(t.operand_rib(operand), 0, x));
}

/// An instruction keeps a machine sound.
pub proof fn law_step_keeps_soundness(s: Machine, input: Option<u8>)
    requires
        s.sound(),
        s.step(input).status !is Faulted,
    ensures
        s.step(input).machine.sound(),
{
    let pair = Object::Number(PAIR_TAG);
    lemma_field(s, s.program_counter, 1);
    lemma_field(s, s.program_counter, 2);
    if s.has_code() {
        lemma_call(s, s.jumps());
        if let Some(primitive) = Primitive::of(s.code().raw()) {
            let byte = if input is Some {
                input->0
            } else {
                0
            };
            lemma_operate_primitive(s, primitive, byte);
            let t = s.operate_primitive(primitive, byte);
            if t.ok {
                lemma_leave_primitive(t, s.jumps());
            }
        }
    }
    lemma_assign(s);
    if s.has_procedure() {
        lemma_procedure(s);
        lemma_same_heap(s, s.check(s.has_procedure()));
        lemma_push(s.check(s.has_procedure()), s.procedure(), pair);
        lemma_advance(s.check(s.has_procedure()).push_value(s.procedure()));
    }
    lemma_push(s, s.cdr(s.program_counter), pair);
    lemma_advance(s.push_value(s.cdr(s.program_counter)));
    lemma_pop(s);
    if s.branch().ok {
        lemma_same_heap(s, s.branch());
    }
}

/// A program that ends leaves a sound machine behind.
pub proof fn law_run_keeps_soundness(s: Machine, input: Seq<u8>, steps: nat)
    requires
        s.sound(),
        s.run(input, steps) is Some,
    ensures
        (s.run(input, steps)->0).machine.sound(),
    decreases steps,
{
    let transition = s.step_on(input);
    if transition.status is Running {
        reveal(Machine::step_on);
        law_step_keeps_soundness(s, None);
        if s.step(None).status is Reading && input.len() > 0 {
            law_step_keeps_soundness(s, Some(input[0]));
        }
        law_run_keeps_soundness(
            transition.machine,
            input.skip(s.demand() as int),
            (steps - 1) as nat,
        );
    }
}

// Decoding
pub(crate) proof fn lemma_check(s: Machine, condition: bool)
    requires
        s.safe(),
    ensures
        s.check(condition).safe(),
{
    if s.check(condition).ok {
        lemma_same_heap(s, s.check(condition));
    }
}

pub(crate) proof fn lemma_read_byte(s: Machine)
    requires
        s.safe(),
    ensures
        s.read_byte().1.safe(),
{
    if s.read_byte().1.ok {
        lemma_same_heap(s, s.read_byte().1);
    }
}

pub(crate) proof fn lemma_read_integer(s: Machine, number: int)
    requires
        s.sound(),
    ensures
        s.read_integer(number).1.safe(),
{
    lemma_read_integer_progress(s, number);
    if s.read_integer(number).1.ok {
        lemma_same_heap(s, s.read_integer(number).1);
    }
}

pub(crate) proof fn lemma_initialize_symbol(s: Machine, name: Object)
    requires
        s.sound(),
        s.knows(name),
    ensures
        s.initialize_symbol(name).safe(),
{
    let t = s.check(s.list_length(name) is Some);
    lemma_check(s, s.list_length(name) is Some);
    let length = Object::Number(s.list_length(name).unwrap() as u64);
    lemma_allocate(t, name, length, Object::Number(STRING_TAG));
    let (string, t) = t.allocate(name, length, Object::Number(STRING_TAG));
    lemma_allocate(t, t.false_object, string, Object::Number(SYMBOL_TAG));
    let (symbol, t) = t.allocate(t.false_object, string, Object::Number(SYMBOL_TAG));
    lemma_allocate(t, symbol, t.symbol_table, Object::Number(PAIR_TAG));
    let (table, t) = t.allocate(symbol, t.symbol_table, Object::Number(PAIR_TAG));
    if t.ok {
        lemma_same_heap(t, Machine { symbol_table: table, ..t });
    }
}

proof fn lemma_initialize_anonymous_symbols(s: Machine, count: nat)
    requires
        s.safe(),
    ensures
        s.initialize_anonymous_symbols(count).safe(),
    decreases count,
{
    if count > 0 && s.ok {
        lemma_field(s, s.false_object, 1);
        lemma_initialize_symbol(s, s.nil());
        lemma_initialize_anonymous_symbols(
            s.initialize_symbol(s.nil()),
            (count - 1) as nat,
        );
    }
}

proof fn lemma_decode_names(s: Machine, name: Object)
    requires
        s.safe(),
        s.ok ==> s.knows(name),
    ensures
        s.decode_names(name).safe(),
    decreases s.input.len() - s.position,
{
    let (byte, t) = s.read_byte();
    lemma_read_byte(s);
    if t.ok {
        lemma_initialize_symbol(t, name);
        if byte == NAME_SEPARATOR {
            let t = t.initialize_symbol(name);
            if t.ok {
                lemma_field(t, t.false_object, 1);
            }
            lemma_decode_names(t, t.nil());
        } else if byte != SYMBOL_TABLE_END {
            let character = Object::Number(byte as u64);
            lemma_allocate(t, character, name, Object::Number(PAIR_TAG));
            let (name, t) = t.allocate(character, name, Object::Number(PAIR_TAG));
            lemma_decode_names(t, name);
        }
    }
}

proof fn lemma_decode_symbols(s: Machine)
    requires
        s.safe(),
    ensures
        s.decode_symbols().safe(),
{
    if s.ok {
        lemma_read_integer(s, 0);
    }
    let (count, t) = s.read_integer(0);
    lemma_initialize_anonymous_symbols(t, count as nat);
    let t = t.initialize_anonymous_symbols(count as nat);
    if t.ok {
        lemma_field(t, t.false_object, 1);
    }
    lemma_decode_names(t, t.nil());
}

proof fn lemma_symbol_ref(s: Machine, index: int)
    requires
        s.safe(),
    ensures
        s.symbol_ref(index).1.safe(),
        s.symbol_ref(index).1.ok ==> s.symbol_ref(index).1.knows(s.symbol_ref(index).0),
{
    let (_, t) = s.symbol_ref(index);
    if t.ok {
        lemma_tail(s, s.symbol_table, index as nat);
        lemma_same_heap(s, t);
    }
}

pub(crate) proof fn lemma_read_operand(s: Machine, kind: int, rest: int)
    requires
        s.safe(),
    ensures
        s.read_operand(kind, rest).1.safe(),
        s.read_operand(kind, rest).1.ok ==> s.read_operand(kind, rest).1.knows(
            s.read_operand(kind, rest).0,
        ),
{
    let weight = INSTRUCTION_WEIGHTS@[kind] as int;
    if s.ok {
        lemma_read_integer(s, 0);
        lemma_read_integer(s, rest - weight - 1);
    }
    let (integer, t) = s.read_integer(rest - weight - 1);
    lemma_symbol_ref(t, integer);
    lemma_symbol_ref(s, rest);
}

pub(crate) proof fn lemma_emit(s: Machine, instruction: u64, operand: Object)
    requires
        s.safe(),
        s.ok ==> s.knows(operand),
    ensures
        s.emit(instruction, operand).safe(),
{
    lemma_allocate(s, Object::Number(instruction), operand, zero());
    let (rib, t) = s.allocate(Object::Number(instruction), operand, zero());
    lemma_check(t, t.stack.raw() < t.heap.len());
    let t = t.check(t.stack.raw() < t.heap.len());
    if t.ok {
        assert(t.knows(t.heap[t.stack.raw() as int]));
    }
    lemma_write(t, rib, 2, t.car(t.stack));
    lemma_write(t.write(rib, 2, t.car(t.stack)), t.stack, 0, rib);
}

proof fn lemma_decode_code(s: Machine)
    requires
        s.safe(),
    ensures
        ({
            let (procedure, t) = s.decode_code();
            &&& t.safe()
            &&& t.ok && procedure is Some ==> t.knows(procedure->0)
        }),
{
    let (code, t) = s.read_code();
    lemma_read_byte(s);
    let kind = kind_of(code);
    if t.ok && code < first_code(CODE_KIND_COUNT as int) {
        if code > LAST_OPERAND_CODE {
            lemma_pop(t);
            let (operand, t) = t.pop();
            lemma_emit(t, crate::instruction::IF, operand);
        } else {
            lemma_push(t, zero(), zero());
            let t = if kind == 0 {
                t.push(zero(), zero())
            } else {
                t
            };
            let rest = code - first_code(kind);
            lemma_read_operand(t, kind, rest);
            let (operand, t) = t.read_operand(kind, rest);
            if kind > 4 {
                lemma_pop(t);
                let (body, t) = t.pop();
                lemma_allocate(t, operand, zero(), body);
                let (code, t) = t.allocate(operand, zero(), body);
                if t.ok {
                    lemma_field(t, t.false_object, 1);
                }
                let tag = Object::Number(CLOSURE_TAG);
                lemma_allocate(t, code, t.nil(), tag);
                let (procedure, t) = t.allocate(code, t.nil(), tag);
                lemma_emit(t, crate::instruction::CONSTANT, procedure);
            } else {
                lemma_emit(
                    t,
                    if kind == 0 {
                        0
                    } else {
                        (kind - 1) as u64
                    },
                    operand,
                );
            }
        }
    }
}

pub(crate) proof fn lemma_decode_codes(s: Machine)
    requires
        s.safe(),
    ensures
        s.decode_codes().safe(),
    decreases s.input.len() - s.position,
{
    lemma_decode_code_progress(s);
    lemma_decode_code(s);
    let (procedure, t) = s.decode_code();
    if t.ok {
        if let Some(procedure) = procedure {
            let u = s.decode_codes();
            if u.ok {
                lemma_field(t, procedure, 0);
                lemma_field(t, t.car(procedure), 2);
                lemma_same_heap(t, u);
            }
        } else {
            lemma_decode_codes(t);
        }
    }
}

pub(crate) proof fn lemma_initialize_global(s: Machine, object: Object)
    requires
        s.safe(),
        s.ok ==> s.knows(object),
    ensures
        s.initialize_global(object).safe(),
{
    let symbol = s.car(s.symbol_table);
    let t = s.check(s.addressable(s.symbol_table) && s.addressable(symbol));
    lemma_check(s, s.addressable(s.symbol_table) && s.addressable(symbol));
    lemma_write(t, symbol, 0, object);
    let t = t.write(symbol, 0, object);
    if t.ok {
        lemma_field(t, t.symbol_table, 1);
        lemma_same_heap(t, s.initialize_global(object));
    }
}

proof fn lemma_initialize_globals(s: Machine)
    requires
        s.safe(),
    ensures
        s.initialize_globals().safe(),
{
    let tag = Object::Number(CLOSURE_TAG);
    lemma_allocate(s, zero(), s.symbol_table, tag);
    let (rib, t) = s.allocate(zero(), s.symbol_table, tag);
    lemma_initialize_global(t, rib);
    let t = t.initialize_global(rib);
    lemma_initialize_global(t, t.false_object);
    let t = t.initialize_global(t.false_object);
    if t.ok {
        lemma_field(t, t.false_object, 0);
    }
    lemma_initialize_global(t, t.true_object());
    let t = t.initialize_global(t.true_object());
    if t.ok {
        lemma_field(t, t.false_object, 1);
    }
    lemma_initialize_global(t, t.nil());
}

proof fn lemma_initialize_stack(s: Machine)
    requires
        s.safe(),
    ensures
        s.initialize_stack().safe(),
{
    let pair = Object::Number(PAIR_TAG);
    lemma_push(s, zero(), pair);
    lemma_push(s.push_value(zero()), zero(), pair);
    let t = s.push_value(zero()).push_value(zero());
    let first = t.cdr(t.stack);
    if t.ok {
        lemma_field(t, t.stack, 1);
    }
    let halt = Object::Number(crate::instruction::HALT);
    lemma_write(t, t.stack, 1, zero());
    let u = t.write(t.stack, 1, zero());
    lemma_write(u, t.stack, 2, first);
    let u = u.write(t.stack, 2, first);
    lemma_write(u, first, 0, halt);
    let u = u.write(first, 0, halt);
    lemma_write(u, first, 1, zero());
    let u = u.write(first, 1, zero());
    lemma_write(u, first, 2, pair);
}

proof fn lemma_initialize_singletons(s: Machine)
    requires
        s.safe(),
    ensures
        s.initialize_singletons().safe(),
{
    let tag = Object::Number(SINGLETON_TAG);
    lemma_allocate(s, zero(), zero(), tag);
    let (true_object, t) = s.allocate(zero(), zero(), tag);
    lemma_allocate(t, zero(), zero(), tag);
    let (nil, t) = t.allocate(zero(), zero(), tag);
    lemma_allocate(t, true_object, nil, tag);
    let (false_object, t) = t.allocate(true_object, nil, tag);
    if t.ok {
        lemma_same_heap(t, Machine { false_object, ..t });
    }
}

/// An empty machine is sound, and is so with its false, true and nil objects.
pub(crate) proof fn lemma_blank(input: Seq<u8>)
    ensures
        blank(input).sound(),
        blank(input).initialize_singletons().sound(),
{
    lemma_initialize_singletons(blank(input));
}

/// The machine is sound before the stack is set up.
pub(crate) proof fn lemma_before_stack(input: Seq<u8>)
    ensures
        blank(input).initialize_singletons().decode_symbols().safe(),
        blank(input).initialize_singletons().decode_symbols().decode_codes().safe(),
        blank(input).initialize_singletons().decode_symbols().decode_codes().initialize_globals().safe(),
{
    lemma_blank(input);
    let s = blank(input).initialize_singletons();
    lemma_decode_symbols(s);
    let s = s.decode_symbols();
    lemma_decode_codes(s);
    let s = s.decode_codes();
    lemma_initialize_globals(s);
}

/// A program makes a sound machine.
pub proof fn law_loaded_machine_is_sound(input: Seq<u8>)
    requires
        is_program(input),
    ensures
        loaded(input).sound(),
{
    lemma_before_stack(input);
    lemma_initialize_stack(
        blank(input).initialize_singletons().decode_symbols().decode_codes().initialize_globals(),
    );
}

} // verus!
