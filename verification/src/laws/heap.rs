//! Where things are on the heap.
use crate::model::walks::{lemma_extent, lemma_tail_add};
use crate::model::{Machine, Walk};
use crate::object::Object;
use vstd::prelude::*;

verus! {

impl Machine {
    /// Whether the three objects from an address on are on the heap.
    pub open spec fn holds_rib(self, index: Object) -> bool {
        index.raw() + 3 <= self.heap.len()
    }

    /// Whether there is memory for a number of ribs, and one to spare.
    pub open spec fn has_room_for(self, count: int) -> bool {
        self.allocation_index + 3 * (count + 1) <= self.allocation_limit
    }

    /// The machine with a new entry on top of a stack.
    pub open spec fn with_entry(self, value: Object, stack: Object) -> Machine {
        Machine {
            heap: self.heap.update(self.allocation_index, value).update(
                self.allocation_index + 1,
                stack,
            ).update(self.allocation_index + 2, Object::Number(0)),
            stack: Object::Rib(self.allocation_index as u64),
            allocation_index: self.allocation_index + 3,
            ..self
        }
    }
}

/// The fields of a rib are three objects in a row. A rib can be read if all of
/// them are on the heap.
pub proof fn law_fields(s: Machine, index: Object, field: int)
    ensures
        s.field(index, field) == s.heap[index.raw() + field],
        s.car(index) == s.heap[index.raw() as int],
        s.cdr(index) == s.heap[index.raw() + 1],
        s.tag(index) == s.heap[index.raw() + 2],
        s.addressable(index) <==> s.holds_rib(index),
{
}

/// The true and the nil object are where the false object says.
pub proof fn law_constants(s: Machine)
    ensures
        s.true_object() == s.heap[s.false_object.raw() as int],
        s.nil() == s.heap[s.false_object.raw() + 1],
        s.boolean(true) == s.true_object(),
        s.boolean(false) == s.false_object,
{
}

/// There is room for a rib as long as it is not the last one that fits.
pub proof fn law_room(s: Machine)
    requires
        s.wf(),
    ensures
        s.has_room() <==> s.allocation_index + 6 <= s.allocation_limit,
{
}

/// A rib is allocated at the end of the ribs that are there, and needs room.
pub proof fn law_place_of_allocation(s: Machine, car: Object, cdr: Object, tag: Object)
    requires
        s.wf(),
    ensures
        ({
            let (rib, t) = s.allocate(car, cdr, tag);
            &&& rib == Object::Rib(s.allocation_index as u64)
            &&& t.ok <==> s.allocation_index + 6 <= s.allocation_limit
            &&& t.allocation_index == s.allocation_index + 3
            &&& t.stack == s.stack
            &&& t.heap[s.allocation_index] == car
            &&& t.heap[s.allocation_index + 1] == cdr
            &&& t.heap[s.allocation_index + 2] == tag
        }),
{
}

/// An entry of the stack is a rib of the value, the stack below and a tag.
pub proof fn law_push(s: Machine, value: Object, tag: Object)
    requires
        s.wf(),
    ensures
        ({
            let t = s.push(value, tag);
            &&& t.ok <==> s.allocation_index + 6 <= s.allocation_limit
            &&& t.stack == Object::Rib(s.allocation_index as u64)
            &&& t.heap[s.allocation_index] == value
            &&& t.heap[s.allocation_index + 1] == s.stack
            &&& t.heap[s.allocation_index + 2] == tag
            &&& t == Machine {
                heap: t.heap,
                stack: t.stack,
                allocation_index: s.allocation_index + 3,
                ok: t.ok,
                ..s
            }
            &&& forall|i: int|
                0 <= i < s.heap.len() && !(s.allocation_index <= i < s.allocation_index + 3)
                    ==> #[trigger] t.heap[i] == s.heap[i]
        }),
        s.push_value(value) == s.push(value, Object::Number(0)),
{
}

/// Popping gives the value of the top entry, and the stack below it.
pub proof fn law_pop(s: Machine)
    requires
        s.wf(),
    ensures
        ({
            let (value, t) = s.pop();
            &&& t.ok <==> s.holds_rib(s.stack)
            &&& value == s.heap[s.stack.raw() as int]
            &&& t == Machine { stack: s.heap[s.stack.raw() + 1], ok: t.ok, ..s }
        }),
{
}

// Lists
/// A list without its first elements: each element that is dropped leads to the
/// second field of its rib.
pub proof fn law_tails(s: Machine, list: Object, count: nat)
    ensures
        s.tail(list, 0) == list,
        s.tail(list, count + 1) == s.heap[s.tail(list, count).raw() + 1],
        s.tail(list, count + 1) == s.tail(s.heap[list.raw() + 1], count),
        s.has_tail(list, 0),
        s.has_tail(list, count + 1) <==> s.has_tail(list, count) && s.holds_rib(
            s.tail(list, count),
        ),
{
    lemma_tail_add(s, list, count, 1);
    reveal_with_fuel(Machine::tail, 2);
    reveal_with_fuel(Machine::has_tail, 2);
}

/// What it means that a walk ends after a number of ribs.
proof fn lemma_ends_after(s: Machine, walk: Walk, index: Object, count: nat)
    ensures
        s.ends_after(walk, index, count) <==> {
            &&& forall|i: nat|
                i < count ==> {
                    &&& s.goes_on(walk, #[trigger] s.tail(index, i))
                    &&& s.reads(walk, s.tail(index, i)) ==> s.addressable(s.tail(index, i))
                }
            &&& !s.goes_on(walk, s.tail(index, count))
            &&& s.reads(walk, s.tail(index, count)) ==> s.addressable(s.tail(index, count))
        },
    decreases count,
{
    assert(s.tail(index, 0) == index);
    if count > 0 {
        let next = s.cdr(index);
        let rest = (count - 1) as nat;
        lemma_ends_after(s, walk, next, rest);
        assert(forall|i: nat| #[trigger] s.tail(next, i) == s.tail(index, i + 1));
        assert(s.tail(index, count) == s.tail(next, rest));
        if s.ends_after(walk, index, count) {
            assert forall|i: nat| i < count implies {
                &&& s.goes_on(walk, #[trigger] s.tail(index, i))
                &&& s.reads(walk, s.tail(index, i)) ==> s.addressable(s.tail(index, i))
            } by {
                if i > 0 {
                    assert(s.tail(next, (i - 1) as nat) == s.tail(index, i));
                }
            }
        }
    }
}

/// A list has a length if it is made of pairs up to something else. The length
/// is the number of the pairs.
pub proof fn law_length(s: Machine, list: Object, length: nat)
    ensures
        s.list_length(list) == Some(length) <==> {
            let end = s.tail(list, length);
            &&& forall|i: nat|
                i < length ==> {
                    let pair = #[trigger] s.tail(list, i);
                    &&& pair is Rib
                    &&& s.holds_rib(pair)
                    &&& s.heap[pair.raw() + 2].raw() == 0
                }
            &&& end is Rib ==> s.holds_rib(end) && s.heap[end.raw() + 2].raw() != 0
        },
{
    lemma_ends_after(s, Walk::List, list, length);
    if s.ends_after(Walk::List, list, length) {
        lemma_extent(s, Walk::List, list, length);
    }
}

/// The continuation is the first entry of the stack that has the tag zero.
pub proof fn law_continuation(s: Machine, depth: nat)
    requires
        forall|i: nat|
            i < depth ==> {
                let entry = #[trigger] s.tail(s.stack, i);
                s.holds_rib(entry) && s.heap[entry.raw() + 2].raw() != 0
            },
        s.holds_rib(s.tail(s.stack, depth)),
        s.heap[s.tail(s.stack, depth).raw() + 2].raw() == 0,
    ensures
        s.continuation() == Some(s.tail(s.stack, depth)),
{
    lemma_ends_after(s, Walk::Stack, s.stack, depth);
    lemma_extent(s, Walk::Stack, s.stack, depth);
}

/// There is no other continuation.
pub proof fn law_continuation_has_tag(s: Machine)
    ensures
        s.continuation() matches Some(entry) ==> {
            &&& s.holds_rib(entry)
            &&& s.heap[entry.raw() + 2].raw() == 0
        },
{
    if let Some(depth) = s.extent(Walk::Stack, s.stack) {
        lemma_ends_after(s, Walk::Stack, s.stack, depth);
    }
}

// Operands
/// A variable is a rib, or an entry of the stack that is given by its depth. Its
/// value is in the first field.
pub proof fn law_operands(s: Machine, depth: u64, address: u64)
    ensures
        s.operand(Object::Rib(address)) == s.heap[address as int],
        s.has_operand(Object::Rib(address)) <==> address + 3 <= s.heap.len(),
        s.operand(Object::Number(depth)) == s.heap[s.tail(s.stack, depth as nat).raw() as int],
        s.has_operand(Object::Number(depth)) <==> s.has_tail(s.stack, depth as nat + 1),
{
    law_tails(s, s.stack, depth as nat);
}

/// The procedure of an instruction is the value of its operand. The code is in
/// the first field of the procedure.
pub proof fn law_procedure(s: Machine)
    ensures
        s.procedure() == s.operand(s.heap[s.program_counter.raw() + 1]),
        s.has_procedure() <==> s.holds_rib(s.program_counter) && s.has_operand(
            s.heap[s.program_counter.raw() + 1],
        ),
        s.code() == s.heap[s.procedure().raw() as int],
        s.has_code() <==> s.has_procedure() && s.holds_rib(s.procedure()),
{
}

} // verus!
