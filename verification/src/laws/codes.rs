//! What each code of a program is decoded to.
use crate::laws::execution::lemma_same_tail;
use crate::model::decoding::{
    first_code, has_kind, kind_of, lemma_decode_code_progress, lemma_first_codes, lemma_kind_of,
    lemma_read_integer_progress, INSTRUCTION_WEIGHTS,
};
use crate::model::{Machine, HEAP_SIZE};
use crate::object::Object;
use vstd::prelude::*;

verus! {

impl Machine {
    /// Whether there is a byte of the program left.
    pub open spec fn has_byte(self) -> bool {
        0 <= self.position < self.input.len()
    }

    /// The next code: the distance of the next byte from the number sign. The
    /// bytes below that sign all stand for one code.
    pub open spec fn next_code(self) -> int {
        let byte = self.input[self.position];
        if byte < 35 {
            57
        } else {
            byte - 35
        }
    }

    /// The machine with one more byte read.
    pub open spec fn past_byte(self) -> Machine {
        Machine { position: self.position + 1, ..self }
    }

    /// The machine with an instruction in front of the code that the top entry
    /// of the stack holds.
    pub open spec fn with_instruction(self, instruction: u64, operand: Object) -> Machine {
        Machine {
            heap: self.heap.update(
                self.allocation_index,
                Object::Number(instruction),
            ).update(self.allocation_index + 1, operand).update(
                self.allocation_index + 2,
                self.heap[self.stack.raw() as int],
            ).update(self.stack.raw() as int, Object::Rib(self.allocation_index as u64)),
            allocation_index: self.allocation_index + 3,
            ..self
        }
    }

    /// Whether a machine is what comes of an instruction with a given operand,
    /// for which there has to be room.
    pub open spec fn gains(self, instruction: u64, operand: Object, after: Machine) -> bool {
        &&& after.ok <==> self.has_room_for(1)
        &&& after.ok ==> after == self.with_instruction(instruction, operand)
    }

    /// Whether a machine is what comes of an instruction on the symbol at an
    /// index of the symbol table.
    pub open spec fn gains_on_symbol(
        self,
        instruction: u64,
        index: int,
        after: Machine,
    ) -> bool {
        let symbol = self.tail(self.symbol_table, index as nat);
        &&& after.ok <==> self.has_tail(self.symbol_table, index as nat) && self.has_room_for(1)
        &&& after.ok ==> after == self.with_instruction(instruction, symbol)
    }

    /// Whether a machine is what comes of an instruction on the number that is
    /// read next.
    pub open spec fn gains_on_integer(self, instruction: u64, after: Machine) -> bool {
        let (integer, read) = self.read_integer(0);
        &&& after.ok <==> read.ok && self.has_room_for(1)
        &&& after.ok ==> after == read.with_instruction(
            instruction,
            Object::Number(integer as u64),
        )
    }

    /// Whether a machine is what comes of an instruction on the symbol whose
    /// index is read next, with its first digit given.
    pub open spec fn gains_on_far_symbol(
        self,
        instruction: u64,
        digit: int,
        after: Machine,
    ) -> bool {
        let (index, read) = self.read_integer(digit);
        let symbol = self.tail(self.symbol_table, index as nat);
        &&& after.ok <==> read.ok && self.has_tail(self.symbol_table, index as nat)
            && self.has_room_for(1)
        &&& after.ok ==> after == read.with_instruction(instruction, symbol)
    }
}

// Bytes and integers
/// A byte is read if there is one, and is then no longer there.
pub proof fn law_read_byte(s: Machine)
    requires
        s.wf(),
    ensures
        ({
            let (byte, t) = s.read_byte();
            &&& t.ok <==> s.has_byte()
            &&& byte == s.input[s.position]
            &&& t == Machine { position: s.position + 1, ok: t.ok, ..s }
        }),
        s.read_code().0 == s.next_code(),
        s.read_code().1 == s.read_byte().1,
{
}

/// An integer is read digit by digit. A digit of 46 or more has others behind
/// it. All numbers on the way have to be signed ones of 64 bits.
pub proof fn law_read_integer(s: Machine, number: int)
    requires
        s.wf(),
    ensures
        ({
            let (integer, t) = s.read_integer(number);
            let code = s.next_code();
            let sum = 46 * number + code;
            if !s.has_byte() || 46 * number < -0x8000_0000_0000_0000 || sum
                >= 0x8000_0000_0000_0000 {
                !t.ok
            } else if code < 46 {
                integer == sum && t == s.past_byte()
            } else {
                (integer, t) == s.past_byte().read_integer(sum - 46)
            }
        }),
{
}

/// Reading an integer changes nothing but the position, and gives no negative
/// number.
pub proof fn law_integers_are_natural(s: Machine, number: int)
    requires
        s.wf(),
        0 <= number,
        s.read_integer(number).1.ok,
    ensures
        0 <= s.read_integer(number).0 < 0x8000_0000_0000_0000,
        s.read_integer(number).1 == (Machine {
            position: s.read_integer(number).1.position,
            ..s
        }),
        s.position < s.read_integer(number).1.position <= s.input.len(),
    decreases s.input.len() - s.position,
{
    law_read_integer(s, number);
    let code = s.next_code();
    if code >= 46 {
        law_integers_are_natural(s.past_byte(), 46 * number + code - 46);
    }
}

// Codes
/// An instruction is put in front of the code at the top of the stack.
proof fn lemma_emit(s: Machine, instruction: u64, operand: Object)
    requires
        s.heap.len() == HEAP_SIZE,
        0 <= s.allocation_index < s.allocation_limit <= s.heap.len(),
        s.allocation_index % 3 == 0,
        s.allocation_limit % 3 == 0,
        s.stack.raw() < s.allocation_index,
    ensures
        s.emit(instruction, operand).ok <==> s.ok && s.has_room_for(1),
        s.ok && s.has_room_for(1) ==> s.emit(instruction, operand) == s.with_instruction(
            instruction,
            operand,
        ),
{
    let t = s.emit(instruction, operand);
    if t.ok {
        assert(t.heap =~= s.with_instruction(instruction, operand).heap);
    }
}

/// The kinds of codes begin at certain codes.
proof fn lemma_kinds(code: int)
    requires
        0 <= code < 93,
    ensures
        ({
            let kind = kind_of(code);
            let rest = code - first_code(kind);
            if code < 23 {
                kind == 0 && rest == code
            } else if code < 56 {
                kind == 1 && rest == code - 23
            } else if code < 59 {
                kind == 2 && rest == code - 56
            } else if code < 72 {
                kind == 3 && rest == code - 59
            } else if code < 86 {
                kind == 4 && rest == code - 72
            } else {
                kind == 5 && rest == code - 86
            }
        }),
        first_code(6) == 93,
{
    lemma_first_codes();
    let kind: int = if code < 23 {
        0
    } else if code < 56 {
        1
    } else if code < 59 {
        2
    } else if code < 72 {
        3
    } else if code < 86 {
        4
    } else {
        5
    };
    assert(has_kind(code, kind));
    lemma_kind_of(code, kind);
}

proof fn lemma_symbol_operand(s: Machine, t: Machine, index: int)
    requires
        t.heap == s.heap,
        t.symbol_table == s.symbol_table,
    ensures
        t.symbol_ref(index).0 == s.tail(s.symbol_table, index as nat),
        t.symbol_ref(index).1 == t.check(s.has_tail(s.symbol_table, index as nat)),
{
    lemma_same_tail(s, t, s.symbol_table, index as nat);
}

/// What an instruction with an operand comes to.
proof fn lemma_operand_code(s: Machine, kind: int, rest: int, instruction: u64)
    requires
        s.wf(),
        s.stack.raw() < s.allocation_index,
        0 <= kind < 5,
        0 <= rest <= INSTRUCTION_WEIGHTS@[kind] + 2,
    ensures
        ({
            let weight = INSTRUCTION_WEIGHTS@[kind] as int;
            let (operand, t) = s.read_operand(kind, rest);
            let after = t.emit(instruction, operand);
            if rest == weight {
                s.gains_on_integer(instruction, after)
            } else if rest > weight {
                s.gains_on_far_symbol(instruction, rest - weight - 1, after)
            } else if kind < 3 {
                s.gains_on_symbol(instruction, rest, after)
            } else {
                s.gains(instruction, Object::Number(rest as u64), after)
            }
        }),
{
    let weight = INSTRUCTION_WEIGHTS@[kind] as int;
    let (operand, t) = s.read_operand(kind, rest);
    lemma_read_integer_progress(s, 0);
    lemma_read_integer_progress(s, rest - weight - 1);
    let (index, read) = s.read_integer(rest - weight - 1);
    lemma_symbol_operand(s, read, index);
    lemma_symbol_operand(s, s, rest);
    lemma_emit(t, instruction, operand);
}

/// Codes from 23 on call a procedure and go on: the procedure is the value of a
/// symbol that the code tells, of a variable that a number tells, or of a
/// symbol that a number tells.
pub proof fn law_call_codes(s: Machine)
    requires
        s.wf(),
        s.has_byte(),
        s.stack.raw() < s.allocation_index,
    ensures
        ({
            let code = s.next_code();
            let (procedure, t) = s.decode_code();
            &&& 23 <= code < 53 ==> procedure is None && s.past_byte().gains_on_symbol(
                0,
                code - 23,
                t,
            )
            &&& code == 53 ==> procedure is None && s.past_byte().gains_on_integer(0, t)
            &&& 54 <= code < 56 ==> procedure is None && s.past_byte().gains_on_far_symbol(
                0,
                code - 54,
                t,
            )
        }),
{
    let code = s.next_code();
    law_read_byte(s);
    if 23 <= code < 56 {
        lemma_kinds(code);
        lemma_operand_code(s.past_byte(), 1, code - 23, 0);
    }
}

/// Codes below 23 call a procedure in the same ways, but begin a new code: the
/// instruction has nothing behind it.
pub proof fn law_jump_codes(s: Machine)
    requires
        s.wf(),
        s.has_byte(),
        s.next_code() < 23,
    ensures
        ({
            let code = s.next_code();
            let (procedure, t) = s.decode_code();
            let u = s.past_byte().with_entry(Object::Number(0), s.stack);
            &&& procedure is None
            &&& !s.has_room_for(2) ==> !t.ok
            &&& s.has_room_for(2) && code < 20 ==> u.gains_on_symbol(0, code, t)
            &&& s.has_room_for(2) && code == 20 ==> u.gains_on_integer(0, t)
            &&& s.has_room_for(2) && code > 20 ==> u.gains_on_far_symbol(0, code - 21, t)
            &&& t.ok ==> t.heap[s.allocation_index + 5] == Object::Number(0)
        }),
{
    let code = s.next_code();
    law_read_byte(s);
    lemma_kinds(code);
    let u = s.past_byte().push(Object::Number(0), Object::Number(0));
    let (operand, v) = u.read_operand(0, code);
    let t = v.emit(0, operand);
    lemma_read_integer_progress(u, 0);
    lemma_read_integer_progress(u, code - 21);
    assert(s.decode_code() == (None::<Object>, t));
    if s.has_room_for(1) {
        assert(u == s.past_byte().with_entry(Object::Number(0), s.stack));
        lemma_operand_code(u, 0, code, 0);
    } else {
        assert(!u.ok);
        assert(!v.ok);
    }
}

/// Codes from 56 on assign to a variable that a number tells, or to one of a
/// symbol that a number tells.
pub proof fn law_set_codes(s: Machine)
    requires
        s.wf(),
        s.has_byte(),
        s.stack.raw() < s.allocation_index,
    ensures
        ({
            let code = s.next_code();
            let (procedure, t) = s.decode_code();
            &&& code == 56 ==> procedure is None && s.past_byte().gains_on_integer(1, t)
            &&& 57 <= code < 59 ==> procedure is None && s.past_byte().gains_on_far_symbol(
                1,
                code - 57,
                t,
            )
        }),
{
    let code = s.next_code();
    law_read_byte(s);
    if 56 <= code < 59 {
        lemma_kinds(code);
        lemma_operand_code(s.past_byte(), 2, code - 56, 1);
    }
}

/// Codes from 59 on push the value of a variable: one on the stack whose depth
/// the code or a number tells, or one of a symbol that a number tells.
pub proof fn law_get_codes(s: Machine)
    requires
        s.wf(),
        s.has_byte(),
        s.stack.raw() < s.allocation_index,
    ensures
        ({
            let code = s.next_code();
            let (procedure, t) = s.decode_code();
            &&& 59 <= code < 69 ==> procedure is None && s.past_byte().gains(
                2,
                Object::Number((code - 59) as u64),
                t,
            )
            &&& code == 69 ==> procedure is None && s.past_byte().gains_on_integer(2, t)
            &&& 70 <= code < 72 ==> procedure is None && s.past_byte().gains_on_far_symbol(
                2,
                code - 70,
                t,
            )
        }),
{
    let code = s.next_code();
    law_read_byte(s);
    if 59 <= code < 72 {
        lemma_kinds(code);
        lemma_operand_code(s.past_byte(), 3, code - 59, 2);
    }
}

/// Codes from 72 on push a constant: a number that the code tells or that
/// follows, or the symbol that a number tells.
pub proof fn law_constant_codes(s: Machine)
    requires
        s.wf(),
        s.has_byte(),
        s.stack.raw() < s.allocation_index,
    ensures
        ({
            let code = s.next_code();
            let (procedure, t) = s.decode_code();
            &&& 72 <= code < 83 ==> procedure is None && s.past_byte().gains(
                3,
                Object::Number((code - 72) as u64),
                t,
            )
            &&& code == 83 ==> procedure is None && s.past_byte().gains_on_integer(3, t)
            &&& 84 <= code < 86 ==> procedure is None && s.past_byte().gains_on_far_symbol(
                3,
                code - 84,
                t,
            )
        }),
{
    let code = s.next_code();
    law_read_byte(s);
    if 72 <= code < 86 {
        lemma_kinds(code);
        lemma_operand_code(s.past_byte(), 4, code - 72, 3);
    }
}

/// The codes 91 and 92 branch between two codes: the one on top of the stack,
/// which is popped, and the one below, which the branch is put in front of.
/// Larger codes are none.
pub proof fn law_branch_codes(s: Machine)
    requires
        s.wf(),
        s.has_byte(),
        s.stack.raw() + 3 <= s.allocation_index,
        s.heap[s.stack.raw() + 1].raw() < s.allocation_index,
    ensures
        ({
            let code = s.next_code();
            let (procedure, t) = s.decode_code();
            let below = Machine { stack: s.heap[s.stack.raw() + 1], ..s.past_byte() };
            &&& 91 <= code < 93 ==> procedure is None && below.gains(
                4,
                s.heap[s.stack.raw() as int],
                t,
            )
            &&& code >= 93 ==> !t.ok
        }),
{
    let code = s.next_code();
    law_read_byte(s);
    lemma_first_codes();
    if 91 <= code < 93 {
        let below = s.past_byte().pop().1;
        lemma_emit(below, 4, s.heap[s.stack.raw() as int]);
    }
}

/// The machine with a procedure that has the code on top of the stack as its
/// body, which is popped. The procedure is two ribs: the number of arguments
/// with the body, and that rib with an empty environment.
pub open spec fn with_procedure(s: Machine, argument_count: Object) -> Machine {
    let place = s.allocation_index;
    Machine {
        heap: s.heap.update(place, argument_count).update(place + 1, Object::Number(0)).update(
            place + 2,
            s.heap[s.stack.raw() as int],
        ).update(place + 3, Object::Rib(place as u64)).update(
            place + 4,
            s.heap[s.false_object.raw() + 1],
        ).update(place + 5, Object::Number(1)),
        stack: s.heap[s.stack.raw() + 1],
        allocation_index: place + 6,
        ..s
    }
}

/// Codes from 86 to 90 make a procedure of the code on top of the stack. The
/// number of arguments is told by the code, or follows. The procedure is the
/// program if nothing is left on the stack, and otherwise a constant that is
/// pushed.
pub proof fn law_procedure_codes(s: Machine)
    requires
        s.wf(),
        s.has_byte(),
        86 <= s.next_code() < 91,
        s.stack.raw() + 3 <= s.allocation_index,
        s.heap[s.stack.raw() + 1].raw() < s.allocation_index,
        s.false_object.raw() + 3 <= s.allocation_index,
    ensures
        ({
            let code = s.next_code();
            let (procedure, t) = s.decode_code();
            let (count, read) = if code < 90 {
                (code - 86, s.past_byte())
            } else {
                s.past_byte().read_integer(0)
            };
            let made = with_procedure(read, Object::Number(count as u64));
            let rib = Object::Rib((s.allocation_index + 3) as u64);
            if s.heap[s.stack.raw() + 1].raw() == 0 {
                &&& t.ok <==> read.ok && s.has_room_for(2)
                &&& t.ok ==> procedure == Some(rib) && t == made
            } else {
                &&& procedure is None
                &&& t.ok <==> read.ok && s.has_room_for(3)
                &&& t.ok ==> t == made.with_instruction(3, rib)
            }
        }),
{
    let code = s.next_code();
    law_read_byte(s);
    lemma_kinds(code);
    let u = s.past_byte();
    lemma_read_integer_progress(u, 0);
    let (operand, read) = u.read_operand(5, code - 86);
    let (body, v) = read.pop();
    let (rib, w) = v.allocate(operand, Object::Number(0), body);
    let nil = w.nil();
    assert(w.heap[s.false_object.raw() + 1] == s.heap[s.false_object.raw() + 1]);
    let (procedure, x) = w.allocate(rib, nil, Object::Number(1));
    if x.stack.raw() != 0 {
        if x.allocation_index < x.allocation_limit {
            lemma_emit(x, 3, procedure);
        }
    }
}

/// Codes are read one after the other up to the one that completes the program.
/// Execution then starts at the body of the program.
pub proof fn law_sequence_of_codes(s: Machine)
    requires
        s.wf(),
    ensures
        ({
            let (procedure, t) = s.decode_code();
            &&& !t.ok ==> !s.decode_codes().ok
            &&& t.ok && procedure is None ==> s.decode_codes() == t.decode_codes()
            &&& t.ok && procedure is Some ==> {
                let code = t.heap[(procedure->0).raw() as int];
                let u = s.decode_codes();
                &&& u.ok <==> t.holds_rib(procedure->0) && t.holds_rib(code)
                &&& u == Machine { program_counter: t.heap[code.raw() + 2], ok: u.ok, ..t }
            }
        }),
        !s.has_byte() ==> !s.decode_codes().ok,
{
    lemma_decode_code_progress(s);
}

} // verus!
