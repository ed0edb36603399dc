//! Calls of procedures.
use crate::laws::execution::lemma_same_tail;
use crate::laws::integrity::{
    lemma_allocate, lemma_check, lemma_field, lemma_pop, lemma_procedure, lemma_write,
};
use crate::laws::memory::{lemma_entries_stay, lemma_entry};
use crate::model::walks::{lemma_extent, lemma_tail_add};
use crate::model::{zero, Machine, Walk};
use crate::object::{Object, PAIR_TAG};
use vstd::prelude::*;

verus! {

/// What popping arguments comes to: the ribs that were there stay, the
/// arguments leave the stack, and they stand in front of the given list in
/// reverse.
proof fn lemma_pop_arguments(s: Machine, arguments: Object, count: nat)
    requires
        s.sound(),
        s.knows(arguments),
        s.has_entries(s.stack, count),
        s.pop_arguments(arguments, count).1.ok,
    ensures
        ({
            let (list, t) = s.pop_arguments(arguments, count);
            &&& t.sound()
            &&& t.extends(s)
            &&& t.knows(list)
            &&& t.stack == s.tail(s.stack, count)
            &&& t.program_counter == s.program_counter
            &&& t.has_entries(list, count)
            &&& t.tail(list, count) == arguments
            &&& forall|i: int|
                0 <= i < count ==> (#[trigger] t.tail(list, i as nat)).raw() >= s.allocation_index
            &&& forall|i: int|
                0 <= i < count ==> #[trigger] t.car(t.tail(list, i as nat)) == s.car(
                    s.tail(s.stack, (count - 1 - i) as nat),
                )
            &&& forall|i: int| 0 <= i < count ==> #[trigger] t.tag(t.tail(list, i as nat)) == zero()
            &&& t.allocation_index == s.allocation_index + 3 * count
        }),
    decreases count,
{
    if count > 0 {
        let pair = Object::Number(PAIR_TAG);
        lemma_field(s, s.stack, 0);
        lemma_field(s, s.stack, 1);
        lemma_pop(s);
        let (x, u) = s.pop();
        assert(u.extends(s));
        lemma_allocate(u, x, arguments, pair);
        let (first, v) = u.allocate(x, arguments, pair);
        let rest = (count - 1) as nat;
        crate::laws::integrity::lemma_pop_arguments(v, first, rest);
        let (list, t) = v.pop_arguments(first, rest);
        assert(v.ok);
        assert(v.extends(s));
        lemma_entries_stay(s, v, s.cdr(s.stack), rest);
        lemma_pop_arguments(v, first, rest);
        assert(t.extends(s));
        assert(t.cdr(first) == arguments);
        assert(t.car(first) == x);
        lemma_tail_add(t, list, rest, 1);
        reveal_with_fuel(Machine::tail, 2);
        lemma_longer(t, list, rest);
        assert(t.tag(first) == pair);
        assert forall|i: int| 0 <= i < count implies #[trigger] t.tag(t.tail(list, i as nat))
            == zero() by {
            if i == rest {
                assert(t.tail(list, i as nat) == first);
            }
        }
        assert forall|i: int| 0 <= i < count implies #[trigger] t.car(t.tail(list, i as nat))
            == s.car(s.tail(s.stack, (count - 1 - i) as nat)) by {
            assert(t.tail(list, i as nat).raw() >= s.allocation_index);
            if i < rest {
                let depth = (rest - 1 - i) as nat;
                lemma_entry(s, s.cdr(s.stack), rest, depth);
                lemma_entries_stay(s, v, s.cdr(s.stack), depth);
                assert(t.car(t.tail(list, i as nat)) == v.car(v.tail(v.stack, depth)));
                assert(s.tail(s.stack, (count - 1 - i) as nat) == s.tail(s.cdr(s.stack), depth));
            }
        }
    }
}

/// A list of entries with one more entry at its end has one more.
proof fn lemma_longer(s: Machine, stack: Object, count: nat)
    requires
        s.has_entries(stack, count),
        s.tail(stack, count) is Rib,
    ensures
        s.has_entries(stack, count + 1),
    decreases count,
{
    reveal_with_fuel(Machine::has_entries, 2);
    if count > 0 {
        lemma_longer(s, s.cdr(stack), (count - 1) as nat);
    }
}

/// The continuation stays where it is while the second and third fields of ribs
/// stay.
proof fn lemma_continuation_stays(s: Machine, t: Machine, stack: Object, depth: nat)
    requires
        s.sound(),
        s.knows(stack),
        s.has_entries(stack, depth + 1),
        s.ends_after(Walk::Stack, stack, depth),
        t.heap.len() == s.heap.len(),
        forall|i: int|
            0 <= i < s.allocation_index && i % 3 != 0 ==> #[trigger] t.heap[i] == s.heap[i],
    ensures
        t.ends_after(Walk::Stack, stack, depth),
        t.tail(stack, depth) == s.tail(stack, depth),
    decreases depth,
{
    reveal_with_fuel(Machine::has_entries, 2);
    if depth > 0 {
        lemma_field(s, stack, 1);
        lemma_continuation_stays(s, t, s.cdr(stack), (depth - 1) as nat);
    }
}

impl Machine {
    /// The number of arguments of the procedure that is called.
    pub open spec fn argument_count(self) -> nat {
        self.car(self.code()).raw() as nat
    }

    /// The stack of the caller without the arguments.
    pub open spec fn stack_of_caller(self) -> Object {
        self.tail(self.stack, self.argument_count())
    }

    /// Whether an instruction calls a procedure with code of its own, with all
    /// arguments among the first entries of the stack. The procedure is in a
    /// variable, or is one of those entries. The instruction itself is neither
    /// the variable nor one of the entries.
    pub open spec fn calls(self, entries: nat) -> bool {
        let operand = self.cdr(self.program_counter);
        &&& self.program_counter is Rib
        &&& operand is Rib ==> operand != self.program_counter
        &&& operand is Number ==> operand.raw() < entries
        &&& self.has_code()
        &&& self.code() is Rib
        &&& self.argument_count() <= entries
        &&& self.has_entries(self.stack, entries)
        &&& forall|i: nat|
            i < entries ==> #[trigger] self.tail(self.stack, i) != self.program_counter
    }

    /// Whether a machine has just entered the procedure that another one calls.
    /// The arguments are, in reverse, on a new stack. Below them is a frame with
    /// the procedure and with what execution returns to. No rib of the other
    /// machine is changed.
    pub open spec fn has_entered(self, caller: Machine, stack: Object, next: Object) -> bool {
        let count = caller.argument_count();
        let frame = self.tail(self.stack, count);
        &&& self.extends(caller)
        &&& self.has_entries(self.stack, count)
        &&& forall|i: int|
            0 <= i < count ==> #[trigger] self.car(self.tail(self.stack, i as nat)) == caller.car(
                caller.tail(caller.stack, (count - 1 - i) as nat),
            )
        &&& forall|i: int|
            0 <= i < count ==> #[trigger] self.tag(self.tail(self.stack, i as nat)) == zero()
        &&& self.allocation_index == caller.allocation_index + 3 * (count + 1)
        &&& frame is Rib
        &&& self.car(frame) == stack
        &&& self.cdr(frame) == caller.procedure()
        &&& self.tag(frame) == next
        &&& self.program_counter == caller.tag(caller.code())
    }
}

/// The instruction does not decide on the procedure that it calls.
proof fn lemma_same_procedure(s: Machine, t: Machine, entries: nat)
    requires
        s.sound(),
        s.calls(entries),
        t == s.write(s.program_counter, 0, s.code()),
    ensures
        t.has_procedure(),
        t.procedure() == s.procedure(),
{
    let operand = s.cdr(s.program_counter);
    lemma_field(s, s.program_counter, 1);
    if operand is Number {
        let depth = operand.raw() as nat;
        lemma_entry(s, s.stack, entries, depth);
        lemma_entries_stay(s, t, s.stack, depth);
    }
}

#[verifier::rlimit(30)]
proof fn lemma_call(s: Machine, jump: bool, entries: nat, depth: nat)
    requires
        s.sound(),
        s.calls(entries),
        jump ==> s.argument_count() + depth < entries,
        jump ==> s.ends_after(Walk::Stack, s.stack_of_caller(), depth),
        s.call(jump).ok,
    ensures
        ({
            let continuation = s.tail(s.stack_of_caller(), depth);
            if jump {
                s.call(jump).has_entered(s, s.car(continuation), s.tag(continuation))
            } else {
                s.call(jump).has_entered(s, s.stack_of_caller(), s.tag(s.program_counter))
            }
        }),
{
    let pc = s.program_counter;
    let pair = Object::Number(PAIR_TAG);
    let instruction = s.car(pc);
    let code = s.code();
    let count = s.argument_count();
    let below = (entries - count) as nat;
    lemma_field(s, pc, 0);
    lemma_field(s, pc, 1);
    lemma_procedure(s);
    lemma_field(s, s.procedure(), 0);
    lemma_check(s, s.addressable(code));
    let a = s.check(s.addressable(code));
    lemma_write(a, pc, 0, code);
    let b = a.write(pc, 0, code);
    lemma_same_procedure(s, b, entries);
    lemma_check(b, b.has_procedure());
    let c = b.check(b.has_procedure());
    lemma_allocate(c, zero(), c.procedure(), pair);
    let (frame, d) = c.allocate(zero(), c.procedure(), pair);
    assert(d.ok);
    assert(forall|i: int|
        0 <= i < s.allocation_index && i != pc.raw() ==> #[trigger] d.heap[i] == s.heap[i]);
    lemma_split(s, s.stack, count, below);
    lemma_entries_stay(s, d, s.stack, count);
    lemma_pop_arguments(d, frame, count);
    let (arguments, e) = d.pop_arguments(frame, count);
    assert(e.tail(arguments, count) == frame);
    assert(forall|i: int|
        0 <= i < s.allocation_index && i != pc.raw() ==> #[trigger] e.heap[i] == s.heap[i]) by {
        assert forall|i: int| 0 <= i < s.allocation_index && i != pc.raw() implies
            #[trigger] e.heap[i] == s.heap[i] by {
            assert(e.heap[i] == d.heap[i]);
        }
    }
    let f = e.check(e.has_tail(arguments, count));
    lemma_same_tail(e, f, arguments, count);
    let continuation = s.tail(s.stack_of_caller(), depth);
    if jump {
        lemma_entries_stay(s, s, s.stack, count);
        lemma_split(s, s.stack_of_caller(), depth + 1, (below - depth - 1) as nat);
        lemma_continuation_stays(s, f, s.stack_of_caller(), depth);
        lemma_extent(f, Walk::Stack, f.stack, depth);
        assert(f.continuation() == Some(continuation));
        lemma_entry(s, s.stack_of_caller(), below, depth);
        lemma_entries_stay(s, s, s.stack_of_caller(), depth);
        lemma_tail_add(s, s.stack, count, depth);
        assert(continuation != pc);
    }
    let g = f.link(frame, jump);
    let resumed = if jump {
        s.car(continuation)
    } else {
        s.stack_of_caller()
    };
    let next = if jump {
        s.tag(continuation)
    } else {
        s.tag(pc)
    };
    assert(g.heap == e.heap.update(frame.raw() as int, resumed).update(frame.raw() + 2, next));
    let t = s.call(jump);
    assert(e.car(pc) == d.car(pc));
    assert(g.car(pc) == code);
    assert(t.heap == g.heap.update(pc.raw() as int, instruction));
    assert(t.extends(s)) by {
        assert forall|i: int| 0 <= i < s.allocation_index implies #[trigger] t.heap[i]
            == s.heap[i] by {
            assert(e.heap[i] == d.heap[i]);
        }
    }
    lemma_entries_stay(e, t, arguments, count);
    assert(e.cdr(frame) == d.cdr(frame));
    assert forall|i: int| 0 <= i < count implies #[trigger] t.car(t.tail(t.stack, i as nat))
        == s.car(s.tail(s.stack, (count - 1 - i) as nat)) by {
        let last = (count - 1 - i) as nat;
        lemma_entry(s, s.stack, count, last);
        lemma_entries_stay(s, d, s.stack, last);
        lemma_entry(e, arguments, count, i as nat);
        lemma_entries_stay(e, t, arguments, i as nat);
        assert(e.tail(arguments, i as nat).raw() >= d.allocation_index);
        assert(e.car(e.tail(arguments, i as nat)) == d.car(d.tail(d.stack, last)));
        assert(t.car(t.tail(arguments, i as nat)) == e.car(e.tail(arguments, i as nat)));
    }
    assert forall|i: int| 0 <= i < count implies #[trigger] t.tag(t.tail(t.stack, i as nat))
        == zero() by {
        lemma_entry(e, arguments, count, i as nat);
        lemma_entries_stay(e, t, arguments, i as nat);
        assert(e.tail(arguments, i as nat).raw() >= d.allocation_index);
        assert(e.tag(e.tail(arguments, i as nat)) == zero());
    }
}

/// Arguments can be popped if there is room for a list of them.
proof fn lemma_arguments_fit(s: Machine, arguments: Object, count: nat)
    requires
        s.sound(),
        s.knows(arguments),
        s.has_entries(s.stack, count),
        s.has_room_for(count as int),
    ensures
        s.pop_arguments(arguments, count).1.ok,
    decreases count,
{
    if count > 0 {
        let pair = Object::Number(PAIR_TAG);
        let rest = (count - 1) as nat;
        lemma_field(s, s.stack, 0);
        lemma_field(s, s.stack, 1);
        lemma_pop(s);
        let (x, u) = s.pop();
        lemma_allocate(u, x, arguments, pair);
        let (first, v) = u.allocate(x, arguments, pair);
        assert(v.extends(s));
        lemma_entries_stay(s, v, s.cdr(s.stack), rest);
        lemma_arguments_fit(v, first, rest);
    }
}

/// A call can be carried out if there is room for the arguments and the frame.
#[verifier::rlimit(30)]
proof fn lemma_call_fits(s: Machine, jump: bool, entries: nat, depth: nat)
    requires
        s.sound(),
        s.calls(entries),
        jump ==> s.argument_count() + depth < entries,
        jump ==> s.ends_after(Walk::Stack, s.stack_of_caller(), depth),
        s.has_room_for((s.argument_count() + 1) as int),
    ensures
        s.call(jump).ok,
{
    let pc = s.program_counter;
    let pair = Object::Number(PAIR_TAG);
    let code = s.code();
    let count = s.argument_count();
    let below = (entries - count) as nat;
    lemma_field(s, pc, 0);
    lemma_field(s, pc, 1);
    lemma_procedure(s);
    lemma_field(s, s.procedure(), 0);
    lemma_check(s, s.addressable(code));
    let a = s.check(s.addressable(code));
    lemma_write(a, pc, 0, code);
    let b = a.write(pc, 0, code);
    lemma_same_procedure(s, b, entries);
    lemma_check(b, b.has_procedure());
    let c = b.check(b.has_procedure());
    lemma_allocate(c, zero(), c.procedure(), pair);
    let (frame, d) = c.allocate(zero(), c.procedure(), pair);
    assert(d.ok);
    lemma_split(s, s.stack, count, below);
    lemma_entries_stay(s, d, s.stack, count);
    lemma_arguments_fit(d, frame, count);
    lemma_pop_arguments(d, frame, count);
    let (arguments, e) = d.pop_arguments(frame, count);
    assert(e.tail(arguments, count) == frame);
    lemma_entries_stay(e, e, arguments, count);
    let f = e.check(e.has_tail(arguments, count));
    assert(f.ok);
    lemma_same_tail(e, f, arguments, count);
    if jump {
        assert forall|i: int| 0 <= i < s.allocation_index && i % 3 != 0 implies
            #[trigger] f.heap[i] == s.heap[i] by {
            assert(e.heap[i] == d.heap[i]);
        }
        lemma_entries_stay(s, s, s.stack, count);
        lemma_split(s, s.stack_of_caller(), depth + 1, (below - depth - 1) as nat);
        lemma_continuation_stays(s, f, s.stack_of_caller(), depth);
        lemma_extent(f, Walk::Stack, f.stack, depth);
    }
    let g = f.link(frame, jump);
    assert(g.ok);
    assert(e.car(pc) == d.car(pc));
    assert(g.car(pc) == code);
}

/// The first entries of a stack, and the entries below them.
proof fn lemma_split(s: Machine, stack: Object, first: nat, second: nat)
    requires
        s.has_entries(stack, first + second),
    ensures
        s.has_entries(stack, first),
        s.has_entries(s.tail(stack, first), second),
    decreases first,
{
    if first > 0 {
        lemma_split(s, s.cdr(stack), (first - 1) as nat, second);
    }
}

/// A call that is no jump returns to the stack of the caller, and to the
/// instruction after the call.
pub proof fn law_call(s: Machine, entries: nat)
    requires
        s.sound(),
        s.calls(entries),
        s.call(false).ok,
    ensures
        s.call(false).has_entered(s, s.stack_of_caller(), s.tag(s.program_counter)),
{
    lemma_call(s, false, entries, 0);
}

/// A jump returns to where the caller returns to: the procedure takes over the
/// continuation, which is `depth` entries below the arguments.
pub proof fn law_jump(s: Machine, entries: nat, depth: nat)
    requires
        s.sound(),
        s.calls(entries),
        s.argument_count() + depth < entries,
        s.ends_after(Walk::Stack, s.stack_of_caller(), depth),
        s.call(true).ok,
    ensures
        ({
            let continuation = s.tail(s.stack_of_caller(), depth);
            s.call(true).has_entered(s, s.car(continuation), s.tag(continuation))
        }),
{
    lemma_call(s, true, entries, depth);
}

/// An instruction that has another one behind it calls: execution returns to
/// that instruction, and to the stack of the caller without the arguments.
/// There has to be room for the arguments and a frame.
pub proof fn law_call_instruction(s: Machine, input: Option<u8>, entries: nat)
    requires
        s.sound(),
        s.calls(entries),
        s.heap[s.program_counter.raw() as int].raw() == 0,
        s.heap[s.program_counter.raw() + 2] != Object::Number(0),
    ensures
        ({
            let transition = s.step(input);
            let stack = s.tail(s.stack, s.heap[s.code().raw() as int].raw() as nat);
            &&& transition.output is None
            &&& s.has_room_for(s.heap[s.code().raw() as int].raw() + 1)
                ==> transition.status is Running
            &&& transition.status is Running || transition.status is Faulted
            &&& transition.status is Running ==> transition.machine.has_entered(
                s,
                stack,
                s.heap[s.program_counter.raw() + 2],
            )
        }),
{
    if s.has_room_for((s.argument_count() + 1) as int) {
        lemma_call_fits(s, false, entries, 0);
    }
    if s.call(false).ok {
        lemma_call(s, false, entries, 0);
    }
}

/// An instruction that has nothing behind it jumps: execution returns to where
/// the continuation says, which is the first entry with the tag zero on the
/// stack without the arguments.
pub proof fn law_jump_instruction(s: Machine, input: Option<u8>, entries: nat, depth: nat)
    requires
        s.sound(),
        s.calls(entries),
        s.heap[s.program_counter.raw() as int].raw() == 0,
        s.heap[s.program_counter.raw() + 2] == Object::Number(0),
        ({
            let count = s.heap[s.code().raw() as int].raw() as nat;
            let stack = s.tail(s.stack, count);
            &&& count + depth < entries
            &&& forall|i: nat|
                i < depth ==> s.heap[(#[trigger] s.tail(stack, i)).raw() + 2].raw() != 0
            &&& s.heap[s.tail(stack, depth).raw() + 2].raw() == 0
        }),
    ensures
        ({
            let transition = s.step(input);
            let count = s.heap[s.code().raw() as int].raw() as nat;
            let continuation = s.tail(s.stack, count + depth);
            &&& transition.output is None
            &&& s.has_room_for((count + 1) as int) ==> transition.status is Running
            &&& transition.status is Running || transition.status is Faulted
            &&& transition.status is Running ==> transition.machine.has_entered(
                s,
                s.heap[continuation.raw() as int],
                s.heap[continuation.raw() + 2],
            )
        }),
{
    let count = s.argument_count();
    let stack = s.stack_of_caller();
    lemma_split(s, s.stack, count, (entries - count) as nat);
    lemma_entries_stay(s, s, s.stack, count);
    lemma_tail_add(s, s.stack, count, depth);
    lemma_continuation_depth(s, stack, (entries - count) as nat, depth);
    if s.has_room_for((count + 1) as int) {
        lemma_call_fits(s, true, entries, depth);
    }
    if s.call(true).ok {
        lemma_call(s, true, entries, depth);
    }
}

/// Entries up to the first one with the tag zero.
proof fn lemma_continuation_depth(s: Machine, stack: Object, entries: nat, depth: nat)
    requires
        s.sound(),
        s.knows(stack),
        s.has_entries(stack, entries),
        depth < entries,
        forall|i: nat| i < depth ==> s.tag(#[trigger] s.tail(stack, i)).raw() != 0,
        s.tag(s.tail(stack, depth)).raw() == 0,
    ensures
        s.ends_after(Walk::Stack, stack, depth),
    decreases depth,
{
    assert(s.tail(stack, 0) == stack);
    if depth > 0 {
        let next = s.cdr(stack);
        lemma_field(s, stack, 1);
        assert forall|i: nat| i < depth - 1 implies s.tag(#[trigger] s.tail(next, i)).raw()
            != 0 by {
            assert(s.tail(stack, i + 1) == s.tail(next, i));
        }
        lemma_continuation_depth(s, next, (entries - 1) as nat, (depth - 1) as nat);
    }
}

} // verus!
