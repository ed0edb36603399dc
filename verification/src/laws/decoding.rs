//! Integers, codes and the start of programs.
use crate::instruction::{HALT, IF};
use crate::laws::execution::{law_where_programs_stop, lemma_same_tail};
use crate::laws::integrity::lemma_before_stack;
use crate::model::decoding::{
    blank, first_code, has_kind, is_program, kind_of, lemma_decode_code_progress,
    lemma_first_codes, lemma_read_integer_progress, loaded, CODE_KIND_COUNT, CODE_ORIGIN,
    INSTRUCTION_WEIGHTS, INTEGER_BASE, LAST_OPERAND_CODE, NAME_SEPARATOR, SYMBOL_TABLE_END,
};
use crate::model::walks::lemma_extent;
use crate::model::{zero, Machine, Walk};
use crate::object::{Object, PAIR_TAG};
use vstd::prelude::*;

verus! {

// Integers
/// The byte of a digit. The digits before the last one are marked.
pub open spec fn digit_byte(digit: int, last: bool) -> u8 {
    (digit + CODE_ORIGIN + if last {
        0
    } else {
        INTEGER_BASE as int
    }) as u8
}

/// The bytes of an integer.
pub open spec fn integer_bytes(integer: int, last: bool) -> Seq<u8>
    decreases integer,
{
    let base = INTEGER_BASE as int;
    let digit = digit_byte(integer % base, last);
    if integer < base {
        seq![digit]
    } else {
        integer_bytes(integer / base, false).push(digit)
    }
}

impl Machine {
    /// Whether the next bytes of the program are the given ones.
    pub open spec fn is_at(self, bytes: Seq<u8>) -> bool {
        &&& 0 <= self.position
        &&& self.position + bytes.len() <= self.input.len()
        &&& forall|i: int|
            0 <= i < bytes.len() ==> #[trigger] self.input[self.position + i] == bytes[i]
    }

    /// The machine with more of the program read.
    pub open spec fn after(self, count: int) -> Machine {
        Machine { position: self.position + count, ..self }
    }
}

/// Marked digits are read into the number that they stand for.
proof fn lemma_read_marked_digits(s: Machine, integer: int)
    requires
        s.ok,
        0 <= integer <= i64::MAX / 46,
        s.is_at(integer_bytes(integer, false)),
    ensures
        s.read_integer(0) == s.after(integer_bytes(integer, false).len() as int).read_integer(
            integer,
        ),
    decreases integer,
{
    let bytes = integer_bytes(integer, false);
    let digit = digit_byte(integer % 46, false);
    if integer < 46 {
        assert(s.input[s.position + 0] == digit);
        assert(s.read_code().1 == s.after(1));
    } else {
        let prefix = integer_bytes(integer / 46, false);
        assert forall|i: int| 0 <= i < prefix.len() implies #[trigger] s.input[s.position + i]
            == prefix[i] by {
            assert(bytes[i] == prefix[i]);
        }
        lemma_read_marked_digits(s, integer / 46);
        let t = s.after(prefix.len() as int);
        assert(s.input[s.position + prefix.len()] == bytes[prefix.len() as int]);
        assert(t.read_code().1 == t.after(1));
        assert(t.after(1) == s.after(bytes.len() as int));
    }
}

/// Every integer of the machine can be encoded, and reading the bytes gives the
/// integer back.
pub proof fn law_integers_can_be_read_back(s: Machine, integer: int)
    requires
        s.ok,
        0 <= integer <= i64::MAX,
        s.is_at(integer_bytes(integer, true)),
    ensures
        s.read_integer(0) == (integer, s.after(integer_bytes(integer, true).len() as int)),
{
    let bytes = integer_bytes(integer, true);
    let digit = digit_byte(integer % 46, true);
    if integer < 46 {
        assert(s.input[s.position + 0] == digit);
        assert(s.read_code().1 == s.after(1));
    } else {
        let prefix = integer_bytes(integer / 46, false);
        assert forall|i: int| 0 <= i < prefix.len() implies #[trigger] s.input[s.position + i]
            == prefix[i] by {
            assert(bytes[i] == prefix[i]);
        }
        lemma_read_marked_digits(s, integer / 46);
        let t = s.after(prefix.len() as int);
        assert(s.input[s.position + prefix.len()] == bytes[prefix.len() as int]);
        assert(t.read_code().1 == t.after(1));
        assert(t.after(1) == s.after(bytes.len() as int));
    }
}

// Codes
/// Every code below the end of the last kind is of exactly one kind, and is one
/// of the codes that the kind has.
pub proof fn law_codes_have_kinds(code: int)
    requires
        0 <= code < first_code(CODE_KIND_COUNT as int),
    ensures
        has_kind(code, kind_of(code)),
        forall|kind: int| has_kind(code, kind) ==> kind == kind_of(code),
        0 <= code - first_code(kind_of(code)) <= INSTRUCTION_WEIGHTS@[kind_of(code)] + 2,
{
    lemma_first_codes();
    assert(exists|kind: int| has_kind(code, kind)) by {
        if code < 23 {
            assert(has_kind(code, 0));
        } else if code < 56 {
            assert(has_kind(code, 1));
        } else if code < 59 {
            assert(has_kind(code, 2));
        } else if code < 72 {
            assert(has_kind(code, 3));
        } else if code < 86 {
            assert(has_kind(code, 4));
        } else {
            assert(has_kind(code, 5));
        }
    }
}

/// An instruction comes in front of the code at the top of the stack. No other
/// rib changes.
pub proof fn law_emit(s: Machine, instruction: u64, operand: Object)
    requires
        s.sound(),
        s.stack is Rib,
        s.has_room(),
    ensures
        ({
            let t = s.emit(instruction, operand);
            let rib = t.car(t.stack);
            &&& t.ok
            &&& t.stack == s.stack
            &&& rib == s.fresh()
            &&& t.car(rib) == Object::Number(instruction)
            &&& t.cdr(rib) == operand
            &&& t.tag(rib) == s.car(s.stack)
            &&& forall|i: int|
                0 <= i < s.allocation_index && i != s.stack.raw() ==> #[trigger] t.heap[i]
                    == s.heap[i]
        }),
{
}

// Start
/// Setting up the stack makes a frame that leads to a halt instruction.
proof fn lemma_bottom_frame(s: Machine)
    requires
        s.sound(),
        s.initialize_stack().ok,
    ensures
        ({
            let t = s.initialize_stack();
            let next = t.tag(t.stack);
            &&& t.wf()
            &&& t.stack is Rib
            &&& t.car(t.stack) == zero()
            &&& t.cdr(t.stack) == zero()
            &&& next is Rib
            &&& t.addressable(next)
            &&& t.car(next) == Object::Number(HALT)
        }),
{
    let t = s.push_value(zero()).push_value(zero());
    assert(t.ok);
    assert(t.cdr(t.stack) == s.fresh());
}

/// When a program returns, it halts: the bottom of the stack is a frame that
/// leads to a halt instruction.
pub proof fn law_programs_return_to_halt(input: Seq<u8>)
    requires
        is_program(input),
    ensures
        ({
            let s = loaded(input);
            let next = s.tag(s.stack);
            &&& s.stack is Rib
            &&& s.car(s.stack) == zero()
            &&& s.cdr(s.stack) == zero()
            &&& next is Rib
            &&& s.car(next) == Object::Number(HALT)
            &&& (Machine { program_counter: next, ..s }).step(None).status is Halted
        }),
{
    let s = blank(input).initialize_singletons().decode_symbols().decode_codes();
    lemma_before_stack(input);
    let t = s.initialize_globals();
    assert(t.ok);
    lemma_bottom_frame(t);
    law_where_programs_stop(
        Machine { program_counter: loaded(input).tag(loaded(input).stack), ..loaded(input) },
        None,
    );
}

// What is left
impl Machine {
    /// The same machine with more bytes after the program.
    pub open spec fn followed_by(self, bytes: Seq<u8>) -> Machine {
        Machine { input: self.input + bytes, ..self }
    }
}

proof fn lemma_integer_followed(s: Machine, number: int, bytes: Seq<u8>)
    requires
        0 <= s.position,
        s.read_integer(number).1.ok,
    ensures
        s.followed_by(bytes).read_integer(number) == ({
            let (integer, t) = s.read_integer(number);
            (integer, t.followed_by(bytes))
        }),
    decreases s.input.len() - s.position,
{
    let (code, t) = s.read_code();
    let scaled = number * INTEGER_BASE;
    let t = t.check(i64::MIN <= scaled <= i64::MAX && scaled + code <= i64::MAX);
    if t.ok && code >= INTEGER_BASE {
        lemma_integer_followed(t, scaled + code - INTEGER_BASE, bytes);
    }
}

proof fn lemma_walk_followed(s: Machine, walk: Walk, index: Object, count: nat, bytes: Seq<u8>)
    requires
        s.ends_after(walk, index, count),
    ensures
        s.followed_by(bytes).ends_after(walk, index, count),
    decreases count,
{
    if count > 0 {
        lemma_walk_followed(s, walk, s.cdr(index), (count - 1) as nat, bytes);
    }
}

proof fn lemma_symbol_followed(s: Machine, name: Object, bytes: Seq<u8>)
    requires
        s.initialize_symbol(name).ok,
    ensures
        s.followed_by(bytes).initialize_symbol(name) == s.initialize_symbol(name).followed_by(
            bytes,
        ),
{
    let length = s.list_length(name)->0;
    lemma_walk_followed(s, Walk::List, name, length, bytes);
    lemma_extent(s.followed_by(bytes), Walk::List, name, length);
}

proof fn lemma_anonymous_symbols_followed(s: Machine, count: nat, bytes: Seq<u8>)
    requires
        s.initialize_anonymous_symbols(count).ok,
    ensures
        s.followed_by(bytes).initialize_anonymous_symbols(count)
            == s.initialize_anonymous_symbols(count).followed_by(bytes),
    decreases count,
{
    if count > 0 {
        let t = s.initialize_symbol(s.nil());
        assert(t.ok) by {
            reveal_with_fuel(Machine::initialize_anonymous_symbols, 2);
        }
        lemma_symbol_followed(s, s.nil(), bytes);
        lemma_anonymous_symbols_followed(t, (count - 1) as nat, bytes);
    }
}

proof fn lemma_names_followed(s: Machine, name: Object, bytes: Seq<u8>)
    requires
        0 <= s.position,
        s.decode_names(name).ok,
    ensures
        s.followed_by(bytes).decode_names(name) == s.decode_names(name).followed_by(bytes),
        s.decode_names(name).position >= 0,
    decreases s.input.len() - s.position,
{
    let (byte, t) = s.read_byte();
    assert(t.ok);
    assert(s.followed_by(bytes).read_byte() == (byte, t.followed_by(bytes)));
    if byte == NAME_SEPARATOR {
        let u = t.initialize_symbol(name);
        assert(u.ok) by {
            reveal_with_fuel(Machine::decode_names, 2);
        }
        lemma_symbol_followed(t, name, bytes);
        lemma_names_followed(u, u.nil(), bytes);
    } else if byte == SYMBOL_TABLE_END {
        lemma_symbol_followed(t, name, bytes);
    } else {
        let (name, u) = t.allocate(
            Object::Number(byte as u64),
            name,
            Object::Number(PAIR_TAG),
        );
        lemma_names_followed(u, name, bytes);
    }
}

proof fn lemma_anonymous_symbols_position(s: Machine, count: nat)
    ensures
        s.initialize_anonymous_symbols(count).position == s.position,
        s.initialize_anonymous_symbols(count).ok ==> s.ok,
    decreases count,
{
    if count > 0 && s.ok {
        lemma_anonymous_symbols_position(s.initialize_symbol(s.nil()), (count - 1) as nat);
    }
}

proof fn lemma_symbols_followed(s: Machine, bytes: Seq<u8>)
    requires
        0 <= s.position <= s.input.len(),
        s.decode_symbols().ok,
    ensures
        s.followed_by(bytes).decode_symbols() == s.decode_symbols().followed_by(bytes),
        s.decode_symbols().position >= 0,
{
    let (count, t) = s.read_integer(0);
    lemma_read_integer_progress(s, 0);
    let u = t.initialize_anonymous_symbols(count as nat);
    lemma_anonymous_symbols_position(t, count as nat);
    assert(u.ok) by {
        if !u.ok {
            assert(!u.read_byte().1.ok);
        }
    }
    lemma_integer_followed(s, 0, bytes);
    lemma_anonymous_symbols_followed(t, count as nat, bytes);
    lemma_names_followed(u, u.nil(), bytes);
}

proof fn lemma_symbol_ref_followed(s: Machine, index: int, bytes: Seq<u8>)
    ensures
        s.followed_by(bytes).symbol_ref(index) == ({
            let (operand, t) = s.symbol_ref(index);
            (operand, t.followed_by(bytes))
        }),
{
    lemma_same_tail(s, s.followed_by(bytes), s.symbol_table, index as nat);
}

proof fn lemma_operand_followed(s: Machine, kind: int, rest: int, bytes: Seq<u8>)
    requires
        0 <= s.position,
        s.read_operand(kind, rest).1.ok,
    ensures
        s.followed_by(bytes).read_operand(kind, rest) == ({
            let (operand, t) = s.read_operand(kind, rest);
            (operand, t.followed_by(bytes))
        }),
{
    let weight = INSTRUCTION_WEIGHTS@[kind] as int;
    if rest == weight {
        lemma_integer_followed(s, 0, bytes);
    } else if rest > weight {
        let (integer, t) = s.read_integer(rest - weight - 1);
        lemma_integer_followed(s, rest - weight - 1, bytes);
        lemma_symbol_ref_followed(t, integer, bytes);
    } else if kind < 3 {
        lemma_symbol_ref_followed(s, rest, bytes);
    }
}

proof fn lemma_emit_followed(s: Machine, instruction: u64, operand: Object, bytes: Seq<u8>)
    ensures
        s.followed_by(bytes).emit(instruction, operand) == s.emit(
            instruction,
            operand,
        ).followed_by(bytes),
{
}

proof fn lemma_code_followed(s: Machine, bytes: Seq<u8>)
    requires
        0 <= s.position,
        s.decode_code().1.ok,
    ensures
        s.followed_by(bytes).decode_code() == ({
            let (procedure, t) = s.decode_code();
            (procedure, t.followed_by(bytes))
        }),
{
    let (code, t) = s.read_code();
    assert(t.ok);
    assert(s.followed_by(bytes).read_code() == (code, t.followed_by(bytes)));
    let kind = kind_of(code);
    if code > LAST_OPERAND_CODE {
        let (operand, t) = t.pop();
        lemma_emit_followed(t, IF, operand, bytes);
    } else {
        let t = if kind == 0 {
            t.push(zero(), zero())
        } else {
            t
        };
        let rest = code - first_code(kind);
        let (operand, u) = t.read_operand(kind, rest);
        assert(u.ok);
        lemma_operand_followed(t, kind, rest, bytes);
    }
}

proof fn lemma_codes_followed(s: Machine, bytes: Seq<u8>)
    requires
        0 <= s.position,
        s.decode_codes().ok,
    ensures
        s.followed_by(bytes).decode_codes() == s.decode_codes().followed_by(bytes),
    decreases s.input.len() - s.position,
{
    lemma_decode_code_progress(s);
    let (procedure, t) = s.decode_code();
    assert(t.ok);
    lemma_code_followed(s, bytes);
    if procedure is None {
        lemma_codes_followed(t, bytes);
    }
}

/// The bytes after a program have no effect on it.
pub proof fn law_bytes_after_program_are_ignored(input: Seq<u8>, bytes: Seq<u8>)
    requires
        is_program(input),
    ensures
        is_program(input + bytes),
        loaded(input + bytes) == loaded(input).followed_by(bytes),
{
    let s = blank(input).initialize_singletons();
    let t = s.decode_symbols();
    let u = t.decode_codes();
    assert(u.ok);
    assert(t.ok) by {
        lemma_decode_code_progress(t);
    }
    assert(blank(input + bytes) == blank(input).followed_by(bytes));
    assert(blank(input + bytes).initialize_singletons() == s.followed_by(bytes));
    lemma_symbols_followed(s, bytes);
    lemma_codes_followed(t, bytes);
    let v = u.initialize_globals();
    assert(u.followed_by(bytes).initialize_globals() == v.followed_by(bytes));
    assert(v.followed_by(bytes).initialize_stack() == v.initialize_stack().followed_by(bytes));
}

} // verus!
