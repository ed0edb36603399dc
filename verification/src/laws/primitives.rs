//! Primitives.
use crate::instruction::APPLY;
use crate::laws::integrity::{lemma_continuation, lemma_field};
use crate::laws::values::{law_differences, law_order, law_products, law_quotients, law_sums};
use crate::model::{zero, Machine};
use crate::object::{Object, CLOSURE_TAG};
use crate::primitive::{lemma_primitive_of, Comparison, Operator, Primitive};
use crate::rib::FIELD_COUNT;
use vstd::prelude::*;

verus! {

/// A rib that a program makes has the three fields that were on the stack, and
/// takes their place on it.
pub proof fn law_rib_primitive(s: Machine, byte: u8)
    requires
        s.sound(),
        s.has_entries(s.stack, 3),
        s.operate_primitive(Primitive::Rib, byte).ok,
    ensures
        ({
            let t = s.operate_primitive(Primitive::Rib, byte);
            let rib = t.car(t.stack);
            &&& rib == s.fresh()
            &&& t.car(rib) == s.car(s.stack)
            &&& t.cdr(rib) == s.car(s.tail(s.stack, 1))
            &&& t.tag(rib) == s.car(s.tail(s.stack, 2))
            &&& t.cdr(t.stack) == s.tail(s.stack, 3)
            &&& t.extends(s)
        }),
{
    reveal_with_fuel(Machine::tail, 4);
    reveal_with_fuel(Machine::has_entries, 4);
    lemma_field(s, s.stack, 1);
    lemma_field(s, s.cdr(s.stack), 1);
    lemma_field(s, s.cdr(s.cdr(s.stack)), 1);
    let (rib, t) = s.allocate(zero(), zero(), zero());
    let t1 = t.pop_into(rib, 0);
    assert(t1.stack == s.tail(s.stack, 1));
    assert(t1.extends(s));
    let t2 = t1.pop_into(rib, 1);
    assert(t2.stack == s.tail(s.stack, 2));
    assert(t2.extends(s));
    let t3 = t2.pop_into(rib, 2);
    assert(t3.stack == s.tail(s.stack, 3));
    assert(t3.extends(s));
}

/// A field has the value that was put into it: the primitive that sets a field
/// leaves a machine in which the primitive that gets it pushes that value.
pub proof fn law_set_field_then_get_field(s: Machine, field: int)
    requires
        s.sound(),
        0 <= field < FIELD_COUNT,
        s.has_entries(s.stack, 2),
        s.car(s.stack) is Rib,
        s.set_field(field).ok,
        s.set_field(field).has_room(),
    ensures
        ({
            let rib = s.car(s.stack);
            let value = s.car(s.cdr(s.stack));
            let t = s.set_field(field);
            let u = t.push_value(rib);
            &&& t.field(rib, field) == value
            &&& t.car(t.stack) == value
            &&& t.cdr(t.stack) == s.tail(s.stack, 2)
            &&& u.get_field(field).ok ==> u.get_field(field).pop().0 == value
        }),
{
    reveal_with_fuel(Machine::tail, 3);
    reveal_with_fuel(Machine::has_entries, 3);
    lemma_field(s, s.stack, 0);
    lemma_field(s, s.stack, 1);
    lemma_field(s, s.cdr(s.stack), 1);
}

/// A comparison pops two values and pushes the true or the false object.
pub proof fn law_comparison(s: Machine, comparison: Comparison)
    requires
        s.sound(),
        s.has_entries(s.stack, 2),
        s.has_room(),
    ensures
        ({
            let t = s.operate_comparison(comparison);
            let x = s.car(s.stack).raw();
            let y = s.car(s.tail(s.stack, 1)).raw();
            &&& t.ok
            &&& t.pop().0 == s.boolean(comparison.holds(x, y))
            &&& t.pop().1.stack == s.tail(s.stack, 2)
            &&& t.extends(s)
        }),
{
    reveal_with_fuel(Machine::tail, 3);
    reveal_with_fuel(Machine::has_entries, 3);
    lemma_field(s, s.stack, 1);
}

/// An arithmetic operation pops two values and pushes the result, if it has
/// one; the value that is popped first is the left operand.
pub proof fn law_arithmetic(s: Machine, operator: Operator)
    requires
        s.sound(),
        s.has_entries(s.stack, 2),
        s.has_room(),
    ensures
        ({
            let t = s.operate_binary(operator);
            let x = s.car(s.stack).raw();
            let y = s.car(s.tail(s.stack, 1)).raw();
            &&& t.ok <==> operator.result(x, y) is Some
            &&& t.ok ==> t.pop().0 == Object::Number(operator.result(x, y)->0)
            &&& t.ok ==> t.pop().1.stack == s.tail(s.stack, 2)
            &&& t.ok ==> t.extends(s)
        }),
{
    reveal_with_fuel(Machine::tail, 3);
    reveal_with_fuel(Machine::has_entries, 3);
    lemma_field(s, s.stack, 1);
}

/// The primitives that leave values as they are: one keeps the top of the
/// stack, one drops it, and one drops the value below it.
pub proof fn law_stack_primitives(s: Machine, byte: u8)
    requires
        s.sound(),
        s.has_entries(s.stack, 2),
        s.has_room(),
    ensures
        ({
            let t = s.operate_primitive(Primitive::Id, byte);
            &&& t.ok
            &&& t.pop().0 == s.car(s.stack)
            &&& t.pop().1.stack == s.cdr(s.stack)
            &&& t.extends(s)
        }),
        s.operate_primitive(Primitive::Pop, byte) == (Machine { stack: s.cdr(s.stack), ..s }),
        ({
            let t = s.operate_primitive(Primitive::Skip, byte);
            &&& t.ok
            &&& t.pop().0 == s.car(s.stack)
            &&& t.pop().1.stack == s.tail(s.stack, 2)
            &&& t.extends(s)
        }),
{
    reveal_with_fuel(Machine::tail, 3);
    reveal_with_fuel(Machine::has_entries, 3);
    lemma_field(s, s.stack, 1);
}

/// The procedure at the top of the stack is replaced by a new one with the same
/// code, which holds the rest of the stack. No other rib changes.
pub proof fn law_close_primitive(s: Machine, byte: u8)
    requires
        s.sound(),
        s.stack is Rib,
        s.car(s.stack) is Rib,
        s.has_room(),
    ensures
        ({
            let t = s.operate_primitive(Primitive::Close, byte);
            let closure = t.car(t.stack);
            &&& t.ok
            &&& t.stack == s.stack
            &&& closure == s.fresh()
            &&& t.car(closure) == s.car(s.car(s.stack))
            &&& t.cdr(closure) == s.cdr(s.stack)
            &&& t.tag(closure) == Object::Number(CLOSURE_TAG)
            &&& forall|i: int|
                0 <= i < s.allocation_index && i != s.stack.raw() ==> #[trigger] t.heap[i]
                    == s.heap[i]
        }),
{
    lemma_field(s, s.stack, 0);
}

/// Ribs are told from numbers.
pub proof fn law_is_rib_primitive(s: Machine, byte: u8)
    requires
        s.sound(),
        s.stack is Rib,
        s.has_room(),
    ensures
        ({
            let t = s.operate_primitive(Primitive::IsRib, byte);
            &&& t.ok
            &&& t.pop().0 == s.boolean(s.car(s.stack) is Rib)
            &&& t.pop().1.stack == s.cdr(s.stack)
            &&& t.extends(s)
        }),
{
}

/// A field of the rib at the top of the stack takes the place of the rib.
pub proof fn law_field_primitives(s: Machine, field: int)
    requires
        s.sound(),
        0 <= field < FIELD_COUNT,
        s.stack is Rib,
        s.car(s.stack) is Rib,
        s.has_room(),
    ensures
        ({
            let t = s.get_field(field);
            &&& t.ok
            &&& t.pop().0 == s.field(s.car(s.stack), field)
            &&& t.pop().1.stack == s.cdr(s.stack)
            &&& t.extends(s)
        }),
{
    lemma_field(s, s.stack, 0);
}

/// Only the primitive that writes has an output: the low byte of the top of the
/// stack.
pub proof fn law_output(s: Machine, input: Option<u8>)
    requires
        s.wf(),
    ensures
        s.step(input).output is Some ==> {
            &&& s.car(s.program_counter).raw() == APPLY
            &&& s.code() == Object::Number(Primitive::PutC.number())
            &&& s.step(input).output->0 == s.car(s.stack).raw() % 256
        },
        ({
            &&& s.step(input).status is Running
            &&& s.car(s.program_counter).raw() == APPLY
            &&& s.code() == Object::Number(Primitive::PutC.number())
        }) ==> s.step(input).output is Some,
{
    lemma_primitive_of(Primitive::PutC);
    if let Some(primitive) = Primitive::of(s.code().raw()) {
        assert(primitive.number() == s.code().raw());
    }
}

/// After a primitive in the place of a jump, execution goes on where the
/// continuation says: at its instruction, and with its stack below the top of
/// the stack.
pub proof fn law_primitives_return(s: Machine)
    requires
        s.sound(),
        s.stack is Rib,
        s.continuation() is Some,
        s.continuation()->0 is Rib,
    ensures
        ({
            let t = s.leave_primitive(true);
            let continuation = s.continuation()->0;
            &&& t.ok
            &&& t.program_counter == s.tag(continuation)
            &&& t.stack == s.stack
            &&& t.car(t.stack) == s.car(s.stack)
            &&& t.cdr(t.stack) == s.car(continuation)
        }),
{
    lemma_continuation(s);
}

// Effects
impl Machine {
    /// The value on top of the stack.
    pub open spec fn top(self) -> Object {
        self.heap[self.stack.raw() as int]
    }

    /// The stack below the top.
    pub open spec fn below(self) -> Object {
        self.heap[self.stack.raw() + 1]
    }

    /// The value below the top.
    pub open spec fn second(self) -> Object {
        self.heap[self.below().raw() as int]
    }

    /// The stack below that value.
    pub open spec fn below_second(self) -> Object {
        self.heap[self.below().raw() + 1]
    }

    /// Whether the two top entries of the stack are on the heap.
    pub open spec fn has_two(self) -> bool {
        self.holds_rib(self.stack) && self.holds_rib(self.below())
    }
}

/// The sum of the two top values takes their place.
pub proof fn law_add_primitive(s: Machine, byte: u8)
    requires
        s.wf(),
    ensures
        ({
            let t = s.operate_primitive(Primitive::Add, byte);
            let x = s.top().raw();
            let y = s.second().raw();
            &&& t.ok <==> s.has_two() && s.has_room_for(1) && x + y < 0x1_0000_0000_0000_0000
            &&& t.ok ==> t == s.with_entry(Object::Number((x + y) as u64), s.below_second())
        }),
{
    law_sums(s.top().raw(), s.second().raw());
}

/// The difference of the two top values takes their place.
pub proof fn law_subtract_primitive(s: Machine, byte: u8)
    requires
        s.wf(),
    ensures
        ({
            let t = s.operate_primitive(Primitive::Subtract, byte);
            let x = s.top().raw();
            let y = s.second().raw();
            &&& t.ok <==> s.has_two() && s.has_room_for(1) && y <= x
            &&& t.ok ==> t == s.with_entry(Object::Number((x - y) as u64), s.below_second())
        }),
{
    law_differences(s.top().raw(), s.second().raw());
}

/// The product of the two top values takes their place.
pub proof fn law_multiply_primitive(s: Machine, byte: u8)
    requires
        s.wf(),
    ensures
        ({
            let t = s.operate_primitive(Primitive::Multiply, byte);
            let x = s.top().raw();
            let y = s.second().raw();
            &&& t.ok <==> s.has_two() && s.has_room_for(1) && x * y < 0x1_0000_0000_0000_0000
            &&& t.ok ==> t == s.with_entry(Object::Number((x * y) as u64), s.below_second())
        }),
{
    law_products(s.top().raw(), s.second().raw());
}

/// The quotient of the two top values takes their place.
pub proof fn law_divide_primitive(s: Machine, byte: u8)
    requires
        s.wf(),
    ensures
        ({
            let t = s.operate_primitive(Primitive::Divide, byte);
            let x = s.top().raw();
            let y = s.second().raw();
            &&& t.ok <==> s.has_two() && s.has_room_for(1) && y != 0
            &&& t.ok ==> exists|quotient: u64|
                {
                    &&& quotient * y <= x
                    &&& x < (quotient + 1) * y
                    &&& t == #[trigger] s.with_entry(Object::Number(quotient), s.below_second())
                }
        }),
{
    let x = s.top().raw();
    let y = s.second().raw();
    law_quotients(x, y);
    let t = s.operate_primitive(Primitive::Divide, byte);
    if t.ok {
        let quotient = Operator::Divide.result(x, y)->0;
        assert(t == s.with_entry(Object::Number(quotient), s.below_second()));
    }
}

/// Whether the two top values are the same takes their place. Only the raw
/// values count.
pub proof fn law_equal_primitive(s: Machine, byte: u8)
    requires
        s.wf(),
    ensures
        ({
            let t = s.operate_primitive(Primitive::Equal, byte);
            let yes = s.heap[s.false_object.raw() as int];
            &&& t.ok <==> s.has_two() && s.has_room_for(1)
            &&& t.ok && s.top().raw() == s.second().raw() ==> t == s.with_entry(
                yes,
                s.below_second(),
            )
            &&& t.ok && s.top().raw() != s.second().raw() ==> t == s.with_entry(
                s.false_object,
                s.below_second(),
            )
        }),
{
    law_order(s.top().raw(), s.second().raw(), 0);
}

/// Whether the top value is less than the one below takes their place.
pub proof fn law_less_than_primitive(s: Machine, byte: u8)
    requires
        s.wf(),
    ensures
        ({
            let t = s.operate_primitive(Primitive::LessThan, byte);
            let yes = s.heap[s.false_object.raw() as int];
            &&& t.ok <==> s.has_two() && s.has_room_for(1)
            &&& t.ok && s.top().raw() < s.second().raw() ==> t == s.with_entry(
                yes,
                s.below_second(),
            )
            &&& t.ok && s.top().raw() >= s.second().raw() ==> t == s.with_entry(
                s.false_object,
                s.below_second(),
            )
        }),
{
    law_order(s.top().raw(), s.second().raw(), 0);
}

/// The identity renews the top of the stack, the next primitive drops it, and
/// another one drops the value below it.
pub proof fn law_id_pop_and_skip(s: Machine, byte: u8)
    requires
        s.wf(),
    ensures
        ({
            let t = s.operate_primitive(Primitive::Id, byte);
            &&& t.ok <==> s.holds_rib(s.stack) && s.has_room_for(1)
            &&& t.ok ==> t == s.with_entry(s.top(), s.below())
        }),
        ({
            let t = s.operate_primitive(Primitive::Pop, byte);
            &&& t.ok <==> s.holds_rib(s.stack)
            &&& t.ok ==> t == Machine { stack: s.below(), ..s }
        }),
        ({
            let t = s.operate_primitive(Primitive::Skip, byte);
            &&& t.ok <==> s.has_two() && s.has_room_for(1)
            &&& t.ok ==> t == s.with_entry(s.top(), s.below_second())
        }),
{
}

/// A new rib of the code of the procedure on top of the stack, the stack below
/// and the tag of procedures takes the place of that procedure.
pub proof fn law_close(s: Machine, byte: u8)
    requires
        s.wf(),
    ensures
        ({
            let t = s.operate_primitive(Primitive::Close, byte);
            let place = s.allocation_index;
            &&& t.ok <==> s.holds_rib(s.stack) && s.holds_rib(s.top()) && s.has_room_for(1)
            &&& t.ok ==> t == Machine {
                heap: s.heap.update(place, s.heap[s.top().raw() as int]).update(
                    place + 1,
                    s.below(),
                ).update(place + 2, Object::Number(1)).update(
                    s.stack.raw() as int,
                    Object::Rib(place as u64),
                ),
                allocation_index: place + 3,
                ..s
            }
        }),
{
}

/// Whether the top of the stack is a rib takes its place.
pub proof fn law_is_rib(s: Machine, byte: u8)
    requires
        s.wf(),
    ensures
        ({
            let t = s.operate_primitive(Primitive::IsRib, byte);
            &&& t.ok <==> s.holds_rib(s.stack) && s.has_room_for(1)
            &&& t.ok && s.top() is Rib ==> t == s.with_entry(
                s.heap[s.false_object.raw() as int],
                s.below(),
            )
            &&& t.ok && s.top() is Number ==> t == s.with_entry(s.false_object, s.below())
        }),
{
}

/// A field of the rib on top of the stack takes the place of the rib. There is
/// a primitive for each field.
pub proof fn law_get_fields(s: Machine, byte: u8, field: int)
    requires
        s.wf(),
        0 <= field < 3,
    ensures
        ({
            let primitive = if field == 0 {
                Primitive::Field0
            } else if field == 1 {
                Primitive::Field1
            } else {
                Primitive::Field2
            };
            let t = s.operate_primitive(primitive, byte);
            &&& t.ok <==> s.holds_rib(s.stack) && s.holds_rib(s.top()) && s.has_room_for(1)
            &&& t.ok ==> t == s.with_entry(s.heap[s.top().raw() + field], s.below())
        }),
{
}

/// The value below the top of the stack is written into a field of the rib on
/// top, and is left on the stack without the rib. There is a primitive for each
/// field.
pub proof fn law_set_fields(s: Machine, byte: u8, field: int)
    requires
        s.wf(),
        0 <= field < 3,
    ensures
        ({
            let primitive = if field == 0 {
                Primitive::SetField0
            } else if field == 1 {
                Primitive::SetField1
            } else {
                Primitive::SetField2
            };
            let t = s.operate_primitive(primitive, byte);
            let place = s.top().raw() + field;
            &&& t.ok <==> s.has_two() && place < s.heap.len() && s.has_room_for(1)
            &&& t.ok ==> t == (Machine {
                heap: s.heap.update(place, s.second()),
                ..s
            }).with_entry(s.second(), s.below_second())
        }),
{
}

/// The byte that is read is pushed, and what is written is popped.
pub proof fn law_reading_and_writing(s: Machine, byte: u8)
    requires
        s.wf(),
    ensures
        ({
            let t = s.operate_primitive(Primitive::GetC, byte);
            &&& t.ok <==> s.has_room_for(1)
            &&& t.ok ==> t == s.with_entry(Object::Number(byte as u64), s.stack)
        }),
        ({
            let t = s.operate_primitive(Primitive::PutC, byte);
            &&& t.ok <==> s.holds_rib(s.stack)
            &&& t.ok ==> t == Machine { stack: s.below(), ..s }
        }),
        s.written(Primitive::PutC) == Some((s.top().raw() % 256) as u8),
        forall|primitive: Primitive|
            primitive !is PutC ==> #[trigger] s.written(primitive) is None,
{
}

/// The three top values become the fields of a new rib, the first field from
/// the top. The rib takes their place. Two ribs are allocated: that one, and
/// the entry of the stack.
pub proof fn law_make_rib(s: Machine, byte: u8)
    requires
        s.wf(),
        s.stack.raw() + 3 <= s.allocation_index,
        s.below().raw() + 3 <= s.allocation_index,
        s.below_second().raw() + 3 <= s.allocation_index,
    ensures
        ({
            let t = s.operate_primitive(Primitive::Rib, byte);
            let place = s.allocation_index;
            let third = s.below_second();
            &&& t.ok <==> s.has_room_for(2)
            &&& t.ok ==> t == (Machine {
                heap: s.heap.update(place, s.top()).update(place + 1, s.second()).update(
                    place + 2,
                    s.heap[third.raw() as int],
                ),
                allocation_index: place + 3,
                ..s
            }).with_entry(Object::Rib(place as u64), s.heap[third.raw() + 1])
        }),
{
    let place = s.allocation_index;
    let third = s.below_second();
    let (rib, t) = s.allocate(zero(), zero(), zero());
    let t1 = t.pop_into(rib, 0);
    assert(t1.stack == s.below());
    let t2 = t1.pop_into(rib, 1);
    assert(t2.stack == third);
    let t3 = t2.pop_into(rib, 2);
    assert(t3.stack == s.heap[third.raw() + 1]);
    assert(t3.heap =~= s.heap.update(place, s.top()).update(place + 1, s.second()).update(
        place + 2,
        s.heap[third.raw() as int],
    ));
    assert(t3.ok <==> s.has_room_for(1));
}

} // verus!
