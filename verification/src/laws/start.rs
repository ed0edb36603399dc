//! How symbols are made and a program is set up.
use crate::laws::codes::law_read_byte;
use crate::laws::integrity::lemma_before_stack;
use crate::model::decoding::{
    blank, first_code, is_program, kind_of, lemma_decode_code_progress,
    lemma_read_integer_progress, loaded, INSTRUCTION_WEIGHTS,
};
use crate::model::Machine;
use crate::object::Object;
use vstd::prelude::*;

verus! {

// Symbols
/// A symbol is three ribs: a string of the name and its length, the symbol with
/// the false object for its value, and an entry in front of the symbol table.
pub proof fn law_symbols_are_made_of_ribs(s: Machine, name: Object)
    requires
        s.wf(),
    ensures
        ({
            let t = s.initialize_symbol(name);
            let length = s.list_length(name);
            let place = s.allocation_index;
            &&& t.ok <==> length is Some && s.has_room_for(3)
            &&& t.ok ==> t == Machine {
                heap: s.heap.update(place, name).update(
                    place + 1,
                    Object::Number(length->0 as u64),
                ).update(place + 2, Object::Number(3)).update(place + 3, s.false_object).update(
                    place + 4,
                    Object::Rib(place as u64),
                ).update(place + 5, Object::Number(2)).update(
                    place + 6,
                    Object::Rib((place + 3) as u64),
                ).update(place + 7, s.symbol_table).update(place + 8, Object::Number(0)),
                symbol_table: Object::Rib((place + 6) as u64),
                allocation_index: place + 9,
                ..s
            }
        }),
{
}

/// Symbols without names are added one by one.
pub proof fn law_anonymous_symbols(s: Machine, count: nat)
    requires
        s.wf(),
    ensures
        s.initialize_anonymous_symbols(0) == s,
        ({
            let t = s.initialize_symbol(s.heap[s.false_object.raw() + 1]);
            &&& t.ok ==> s.initialize_anonymous_symbols(count + 1)
                == t.initialize_anonymous_symbols(count)
            &&& !t.ok ==> !s.initialize_anonymous_symbols(count + 1).ok
        }),
{
    reveal_with_fuel(Machine::initialize_anonymous_symbols, 2);
}

/// Names are read byte by byte. A comma adds a symbol and begins another name, a
/// semicolon adds the last symbol, and any other byte comes in front of the
/// name.
pub proof fn law_bytes_of_names(s: Machine, name: Object)
    requires
        s.wf(),
    ensures
        ({
            let byte = s.input[s.position];
            let t = s.past_byte();
            let u = t.initialize_symbol(name);
            let place = s.allocation_index;
            let v = Machine {
                heap: s.heap.update(place, Object::Number(byte as u64)).update(
                    place + 1,
                    name,
                ).update(place + 2, Object::Number(0)),
                allocation_index: place + 3,
                ..t
            };
            if !s.has_byte() {
                !s.decode_names(name).ok
            } else if byte == 44 {
                &&& u.ok ==> s.decode_names(name) == u.decode_names(
                    u.heap[u.false_object.raw() + 1],
                )
                &&& !u.ok ==> !s.decode_names(name).ok
            } else if byte == 59 {
                s.decode_names(name) == u
            } else {
                &&& s.has_room_for(1) ==> s.decode_names(name) == v.decode_names(
                    Object::Rib(place as u64),
                )
                &&& !s.has_room_for(1) ==> !s.decode_names(name).ok
            }
        }),
{
    law_read_byte(s);
    reveal_with_fuel(Machine::decode_names, 2);
}

/// The symbol table is the number of symbols without names, and then the names.
pub proof fn law_text_of_symbol_table(s: Machine)
    requires
        s.wf(),
    ensures
        ({
            let (count, t) = s.read_integer(0);
            let u = t.initialize_anonymous_symbols(count as nat);
            &&& t.ok && u.ok ==> s.decode_symbols() == u.decode_names(
                u.heap[u.false_object.raw() + 1],
            )
            &&& !t.ok || !u.ok ==> !s.decode_symbols().ok
        }),
{
    let (count, t) = s.read_integer(0);
    let u = t.initialize_anonymous_symbols(count as nat);
    if !t.ok {
        assert(u == t);
    }
    if !u.ok {
        assert(!u.read_byte().1.ok);
    }
}

// Start
/// A machine starts with the true, the nil and the false object on a heap of
/// which one half can be used, and nothing else.
pub proof fn law_empty_machine(input: Seq<u8>)
    ensures
        ({
            let s = blank(input).initialize_singletons();
            &&& s.ok
            &&& s.heap.len() == 98304
            &&& s.allocation_index == 9
            &&& s.allocation_limit == 49152
            &&& s.false_object == Object::Rib(6)
            &&& s.heap[0] == Object::Number(0)
            &&& s.heap[1] == Object::Number(0)
            &&& s.heap[2] == Object::Number(5)
            &&& s.heap[3] == Object::Number(0)
            &&& s.heap[4] == Object::Number(0)
            &&& s.heap[5] == Object::Number(5)
            &&& s.heap[6] == Object::Rib(0)
            &&& s.heap[7] == Object::Rib(3)
            &&& s.heap[8] == Object::Number(5)
            &&& forall|i: int| 9 <= i < 98304 ==> #[trigger] s.heap[i] == Object::Number(0)
            &&& s.stack == Object::Number(0)
            &&& s.program_counter == Object::Number(0)
            &&& s.symbol_table == Object::Number(0)
            &&& s.input == input
            &&& s.position == 0
        }),
{
}

/// A global variable is the value of the first symbol of the table, which is
/// then dropped from the table.
pub proof fn law_one_global(s: Machine, object: Object)
    requires
        s.wf(),
    ensures
        ({
            let t = s.initialize_global(object);
            let symbol = s.heap[s.symbol_table.raw() as int];
            &&& t.ok <==> s.holds_rib(s.symbol_table) && s.holds_rib(symbol)
            &&& t.ok ==> t == Machine {
                heap: s.heap.update(symbol.raw() as int, object),
                symbol_table: t.heap[s.symbol_table.raw() + 1],
                ..s
            }
        }),
{
}

/// The global variables are the procedure that makes ribs, which is the
/// primitive zero with the symbol table for its environment, then the false,
/// the true and the nil object.
pub proof fn law_order_of_globals(s: Machine)
    requires
        s.wf(),
    ensures
        ({
            let place = s.allocation_index;
            let t = Machine {
                heap: s.heap.update(place, Object::Number(0)).update(
                    place + 1,
                    s.symbol_table,
                ).update(place + 2, Object::Number(1)),
                allocation_index: place + 3,
                ..s
            };
            let u = t.initialize_global(Object::Rib(place as u64));
            let v = u.initialize_global(u.false_object);
            let w = v.initialize_global(v.heap[v.false_object.raw() as int]);
            let x = w.initialize_global(w.heap[w.false_object.raw() + 1]);
            &&& s.initialize_globals().ok <==> s.has_room_for(1) && x.ok
            &&& s.has_room_for(1) ==> s.initialize_globals() == x
        }),
{
}

/// The stack starts with a frame. Its tag is a halt instruction that was
/// allocated before it, and there is nothing below.
pub proof fn law_first_frame(s: Machine)
    requires
        s.wf(),
    ensures
        ({
            let t = s.initialize_stack();
            let place = s.allocation_index;
            &&& t.ok <==> s.has_room_for(2)
            &&& t.ok ==> t == Machine {
                heap: s.heap.update(place, Object::Number(5)).update(
                    place + 1,
                    Object::Number(0),
                ).update(place + 2, Object::Number(0)).update(
                    place + 3,
                    Object::Number(0),
                ).update(place + 4, Object::Number(0)).update(
                    place + 5,
                    Object::Rib(place as u64),
                ),
                stack: Object::Rib((place + 3) as u64),
                allocation_index: place + 6,
                ..s
            }
        }),
{
    let t = s.initialize_stack();
    let place = s.allocation_index;
    let u = s.push_value(Object::Number(0)).push_value(Object::Number(0));
    if t.ok {
        assert(u.heap[place + 4] == s.fresh());
        assert(t.heap =~= s.heap.update(place, Object::Number(5)).update(
            place + 1,
            Object::Number(0),
        ).update(place + 2, Object::Number(0)).update(place + 3, Object::Number(0)).update(
            place + 4,
            Object::Number(0),
        ).update(place + 5, Object::Rib(place as u64)));
    }
}

/// Bytes are a program if they hold a symbol table and codes, and there is room
/// for what the machine adds. Execution starts where the codes say, and nothing
/// of the text is read but those two.
pub proof fn law_loading(input: Seq<u8>)
    ensures
        ({
            let s = blank(input).initialize_singletons().decode_symbols();
            let t = s.decode_codes();
            let u = t.initialize_globals();
            let end = loaded(input);
            &&& is_program(input) <==> t.ok && u.ok && u.has_room_for(2)
            &&& is_program(input) ==> {
                &&& s.ok
                &&& end.program_counter == t.program_counter
                &&& end.position == t.position
                &&& end.input == input
                &&& end.symbol_table == u.symbol_table
                &&& end.stack == Object::Rib((u.allocation_index + 3) as u64)
                &&& end.allocation_index == t.allocation_index + 9
                &&& end.allocation_limit == 49152
                &&& end.false_object == Object::Rib(6)
                &&& forall|i: int|
                    0 <= i < u.allocation_index ==> #[trigger] end.heap[i] == u.heap[i]
            }
        }),
{
    let s = blank(input).initialize_singletons().decode_symbols();
    let t = s.decode_codes();
    let u = t.initialize_globals();
    lemma_before_stack(input);
    lemma_decode_code_progress(s);
    if u.ok {
        law_first_frame(u);
        lemma_kept_by_decoding(input);
    }
}

/// The symbols and the codes change neither the text of a program, nor the
/// end of the memory, nor the false object.
proof fn lemma_kept_by_decoding(input: Seq<u8>)
    ensures
        ({
            let s = blank(input).initialize_singletons();
            let t = s.decode_symbols().decode_codes();
            &&& t.input == input
            &&& t.allocation_limit == s.allocation_limit
            &&& t.false_object == s.false_object
        }),
{
    let s = blank(input).initialize_singletons();
    let (count, t) = s.read_integer(0);
    lemma_read_integer_progress(s, 0);
    lemma_kept_by_anonymous_symbols(t, count as nat);
    let u = t.initialize_anonymous_symbols(count as nat);
    lemma_kept_by_names(u, u.nil());
    lemma_kept_by_codes(s.decode_symbols());
}

impl Machine {
    spec fn keeps_text_of(self, other: Machine) -> bool {
        &&& self.input == other.input
        &&& self.allocation_limit == other.allocation_limit
        &&& self.false_object == other.false_object
    }
}

proof fn lemma_kept_by_anonymous_symbols(s: Machine, count: nat)
    ensures
        s.initialize_anonymous_symbols(count).keeps_text_of(s),
    decreases count,
{
    if count > 0 && s.ok {
        lemma_kept_by_anonymous_symbols(s.initialize_symbol(s.nil()), (count - 1) as nat);
    }
}

proof fn lemma_kept_by_names(s: Machine, name: Object)
    ensures
        s.decode_names(name).keeps_text_of(s),
    decreases s.input.len() - s.position,
{
    let (byte, t) = s.read_byte();
    if t.ok {
        if byte == 44 {
            let u = t.initialize_symbol(name);
            lemma_kept_by_names(u, u.nil());
        } else if byte != 59 {
            let (longer, u) = t.allocate(Object::Number(byte as u64), name, Object::Number(0));
            lemma_kept_by_names(u, longer);
        }
    }
}

proof fn lemma_kept_by_codes(s: Machine)
    ensures
        s.decode_codes().keeps_text_of(s),
    decreases s.input.len() - s.position,
{
    lemma_decode_code_progress(s);
    lemma_kept_by_code(s);
    let (procedure, t) = s.decode_code();
    if t.ok && procedure is None {
        lemma_kept_by_codes(t);
    }
}

proof fn lemma_kept_by_code(s: Machine)
    ensures
        s.decode_code().1.keeps_text_of(s),
{
    let (code, t) = s.read_code();
    let kind = kind_of(code);
    let t = if kind == 0 {
        t.push(Object::Number(0), Object::Number(0))
    } else {
        t
    };
    let rest = code - first_code(kind);
    if t.position <= t.input.len() {
        lemma_read_integer_progress(t, 0);
        lemma_read_integer_progress(t, rest - INSTRUCTION_WEIGHTS@[kind] - 1);
    }
}

} // verus!
