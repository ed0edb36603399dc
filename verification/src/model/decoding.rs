//! How a program is decoded.
use super::{zero, Machine, HEAP_BOTTOM, HEAP_MIDDLE, HEAP_SIZE};
use crate::instruction::{CONSTANT, HALT, IF};
use crate::object::{Object, CLOSURE_TAG, PAIR_TAG, SINGLETON_TAG, STRING_TAG, SYMBOL_TAG};
use vstd::prelude::*;

verus! {

/// The byte that ends a name: a comma.
pub const NAME_SEPARATOR: u8 = 44;

/// The byte that ends the symbol table: a semicolon.
pub const SYMBOL_TABLE_END: u8 = 59;

/// The byte that stands for the code zero: a number sign.
pub const CODE_ORIGIN: u8 = 35;

/// The code that the bytes below the origin stand for.
pub const LOW_BYTE_CODE: i64 = 57;

/// The last code that has an operand. The ones above are branches.
pub const LAST_OPERAND_CODE: i64 = 90;

/// The base of encoded integers.
pub const INTEGER_BASE: i64 = 46;

/// The number of kinds of codes.
pub const CODE_KIND_COUNT: usize = 6;

/// For each kind of codes, how many of them hold their operand in themselves.
pub const INSTRUCTION_WEIGHTS: [u64; 6] = [20, 30, 0, 10, 11, 4];

/// The first code of a kind. Each kind has three codes more than its weight:
/// one for an integer operand and two for a symbol operand.
pub open spec fn first_code(kind: int) -> int
    decreases kind,
{
    if kind <= 0 {
        0
    } else {
        first_code(kind - 1) + INSTRUCTION_WEIGHTS@[kind - 1] + 3
    }
}

/// Whether a code is of a kind.
pub open spec fn has_kind(code: int, kind: int) -> bool {
    0 <= kind < CODE_KIND_COUNT && first_code(kind) <= code < first_code(kind + 1)
}

/// The kind of a code.
pub open spec fn kind_of(code: int) -> int {
    choose|kind: int| has_kind(code, kind)
}

/// A machine with an empty heap.
pub open spec fn blank(input: Seq<u8>) -> Machine {
    Machine {
        heap: Seq::new(HEAP_SIZE as nat, |i: int| zero()),
        stack: zero(),
        program_counter: zero(),
        false_object: zero(),
        symbol_table: zero(),
        allocation_index: HEAP_BOTTOM as int,
        allocation_limit: HEAP_MIDDLE as int,
        input,
        position: 0,
        ok: true,
    }
}

/// The machine that an encoded program makes.
pub open spec fn loaded(input: Seq<u8>) -> Machine {
    blank(input).initialize()
}

/// Whether bytes are an encoded program that fits on the heap.
pub open spec fn is_program(input: Seq<u8>) -> bool {
    loaded(input).ok
}

impl Machine {
    // Bytes and integers
    pub open spec fn read_byte(self) -> (u8, Machine) {
        (
            self.input[self.position],
            Machine {
                position: self.position + 1,
                ok: self.ok && self.position < self.input.len(),
                ..self
            },
        )
    }

    /// Reads a code: the distance of a byte from the origin.
    pub open spec fn read_code(self) -> (int, Machine) {
        let (byte, s) = self.read_byte();
        (
            if byte < CODE_ORIGIN {
                LOW_BYTE_CODE as int
            } else {
                byte - CODE_ORIGIN
            },
            s,
        )
    }

    /// Reads the rest of an integer whose first digits are read already. All
    /// digits but the last are marked by codes from the base upwards.
    pub open spec fn read_integer(self, number: int) -> (int, Machine)
        decreases self.input.len() - self.position,
    {
        let (code, s) = self.read_code();
        let scaled = number * INTEGER_BASE;
        let s = s.check(
            i64::MIN <= scaled <= i64::MAX && scaled + code <= i64::MAX,
        );
        if !s.ok {
            (0, s)
        } else if code < INTEGER_BASE {
            (scaled + code, s)
        } else {
            s.read_integer(scaled + code - INTEGER_BASE)
        }
    }

    // Symbols
    /// Adds a symbol with the given name to the symbol table.
    pub open spec fn initialize_symbol(self, name: Object) -> Machine {
        let s = self.check(self.list_length(name) is Some);
        let length = Object::Number(self.list_length(name).unwrap() as u64);
        let (string, s) = s.allocate(name, length, Object::Number(STRING_TAG));
        let (symbol, s) = s.allocate(s.false_object, string, Object::Number(SYMBOL_TAG));
        let (table, s) = s.allocate(symbol, s.symbol_table, Object::Number(PAIR_TAG));
        Machine { symbol_table: table, ..s }
    }

    /// Adds symbols that have no names.
    pub open spec fn initialize_anonymous_symbols(self, count: nat) -> Machine
        decreases count,
    {
        if count == 0 || !self.ok {
            self
        } else {
            self.initialize_symbol(self.nil()).initialize_anonymous_symbols((count - 1) as nat)
        }
    }

    /// Reads names up to a semicolon and adds a symbol for each. A comma ends a
    /// name. `name` is what is read of the current name; its characters come
    /// last to first.
    pub open spec fn decode_names(self, name: Object) -> Machine
        decreases self.input.len() - self.position,
    {
        let (byte, s) = self.read_byte();
        if !s.ok {
            s
        } else if byte == NAME_SEPARATOR {
            let s = s.initialize_symbol(name);
            s.decode_names(s.nil())
        } else if byte == SYMBOL_TABLE_END {
            s.initialize_symbol(name)
        } else {
            let (name, s) = s.allocate(
                Object::Number(byte as u64),
                name,
                Object::Number(PAIR_TAG),
            );
            s.decode_names(name)
        }
    }

    /// Reads the symbol table.
    pub open spec fn decode_symbols(self) -> Machine {
        let (count, s) = self.read_integer(0);
        let s = s.initialize_anonymous_symbols(count as nat);
        s.decode_names(s.nil())
    }

    // Codes
    /// The part of the symbol table that starts at an index.
    pub open spec fn symbol_ref(self, index: int) -> (Object, Machine) {
        (
            self.tail(self.symbol_table, index as nat),
            self.check(self.has_tail(self.symbol_table, index as nat)),
        )
    }

    /// Reads the operand of a code of a kind. `rest` is the distance of the
    /// code from the first one of its kind.
    pub open spec fn read_operand(self, kind: int, rest: int) -> (Object, Machine) {
        let weight = INSTRUCTION_WEIGHTS@[kind] as int;
        if rest == weight {
            let (integer, s) = self.read_integer(0);
            (Object::Number(integer as u64), s)
        } else if rest > weight {
            let (integer, s) = self.read_integer(rest - weight - 1);
            s.symbol_ref(integer)
        } else if kind < 3 {
            self.symbol_ref(rest)
        } else {
            (Object::Number(rest as u64), self)
        }
    }

    /// Puts an instruction in front of the code at the top of the stack.
    pub open spec fn emit(self, instruction: u64, operand: Object) -> Machine {
        let (rib, s) = self.allocate(Object::Number(instruction), operand, zero());
        let s = s.check(s.stack.raw() < s.heap.len());
        s.write(rib, 2, s.car(s.stack)).write(s.stack, 0, rib)
    }

    /// Reads one code. The result is the procedure that the program consists
    /// of, if the code completes it.
    pub open spec fn decode_code(self) -> (Option<Object>, Machine) {
        let (code, s) = self.read_code();
        let kind = kind_of(code);
        if !s.ok || code >= first_code(CODE_KIND_COUNT as int) {
            (None, s.check(false))
        } else if code > LAST_OPERAND_CODE {
            let (operand, s) = s.pop();
            (None, s.emit(IF, operand))
        } else {
            let s = if kind == 0 {
                s.push(zero(), zero())
            } else {
                s
            };
            let (operand, s) = s.read_operand(kind, code - first_code(kind));
            if kind > 4 {
                let (body, s) = s.pop();
                let (code, s) = s.allocate(operand, zero(), body);
                let (procedure, s) = s.allocate(code, s.nil(), Object::Number(CLOSURE_TAG));
                if s.stack.raw() == 0 {
                    (Some(procedure), s)
                } else {
                    (None, s.emit(CONSTANT, procedure))
                }
            } else {
                (
                    None,
                    s.emit(
                        if kind == 0 {
                            0
                        } else {
                            (kind - 1) as u64
                        },
                        operand,
                    ),
                )
            }
        }
    }

    /// Reads codes up to the one that completes the program.
    pub open spec fn decode_codes(self) -> Machine
        decreases self.input.len() - self.position,
    {
        proof {
            lemma_decode_code_progress(self);
        }
        let (procedure, s) = self.decode_code();
        if !s.ok {
            s
        } else if let Some(procedure) = procedure {
            let code = s.car(procedure);
            Machine {
                program_counter: s.tag(code),
                ok: s.addressable(procedure) && s.addressable(code),
                ..s
            }
        } else {
            s.decode_codes()
        }
    }

    // Start
    /// Assigns an object to the first symbol of the symbol table and drops the
    /// symbol from the table.
    pub open spec fn initialize_global(self, object: Object) -> Machine {
        let symbol = self.car(self.symbol_table);
        let s = self.check(self.addressable(self.symbol_table) && self.addressable(symbol));
        let s = s.write(symbol, 0, object);
        Machine { symbol_table: s.cdr(s.symbol_table), ..s }
    }

    /// Pushes the frame that the program returns to. Its continuation is a halt
    /// instruction.
    pub open spec fn initialize_stack(self) -> Machine {
        let s = self.push_value(zero()).push_value(zero());
        let first = s.cdr(s.stack);
        s.write(s.stack, 1, zero()).write(s.stack, 2, first).write(
            first,
            0,
            Object::Number(HALT),
        ).write(first, 1, zero()).write(first, 2, Object::Number(PAIR_TAG))
    }

    /// Allocates the false, the true and the nil object.
    pub open spec fn initialize_singletons(self) -> Machine {
        let tag = Object::Number(SINGLETON_TAG);
        let (true_object, s) = self.allocate(zero(), zero(), tag);
        let (nil, s) = s.allocate(zero(), zero(), tag);
        let (false_object, s) = s.allocate(true_object, nil, tag);
        Machine { false_object, ..s }
    }

    /// Defines the global variables that the machine provides: the procedure
    /// that allocates ribs, false, true and nil.
    pub open spec fn initialize_globals(self) -> Machine {
        let (rib, s) = self.allocate(zero(), self.symbol_table, Object::Number(CLOSURE_TAG));
        let s = s.initialize_global(rib);
        let s = s.initialize_global(s.false_object);
        let s = s.initialize_global(s.true_object());
        s.initialize_global(s.nil())
    }

    /// Decodes the program and prepares the machine for it.
    pub open spec fn initialize(self) -> Machine {
        self.initialize_singletons().decode_symbols().decode_codes().initialize_globals().initialize_stack()
    }
}

/// The first codes of the kinds, and the end of the last kind.
pub proof fn lemma_first_codes()
    ensures
        first_code(0) == 0,
        first_code(1) == 23,
        first_code(2) == 56,
        first_code(3) == 59,
        first_code(4) == 72,
        first_code(5) == 86,
        first_code(6) == 93,
{
    reveal_with_fuel(first_code, 7);
}

/// A code is of one kind only.
pub proof fn lemma_kind_of(code: int, kind: int)
    requires
        has_kind(code, kind),
    ensures
        kind_of(code) == kind,
{
    lemma_first_codes();
    assert(has_kind(code, kind_of(code)));
}

/// Reading an integer changes nothing but the position, which moves forward.
pub proof fn lemma_read_integer_progress(s: Machine, number: int)
    requires
        s.position <= s.input.len(),
    ensures
        ({
            let (_, t) = s.read_integer(number);
            &&& t == Machine { position: t.position, ok: t.ok, ..s }
            &&& t.position > s.position
            &&& t.ok ==> s.ok && t.position <= s.input.len()
        }),
    decreases s.input.len() - s.position,
{
    let (code, t) = s.read_code();
    let scaled = number * INTEGER_BASE;
    let t = t.check(i64::MIN <= scaled <= i64::MAX && scaled + code <= i64::MAX);
    if t.ok && code >= INTEGER_BASE {
        lemma_read_integer_progress(t, scaled + code - INTEGER_BASE);
    }
}

/// Reading a code moves the position forward.
pub proof fn lemma_decode_code_progress(s: Machine)
    ensures
        ({
            let (_, t) = s.decode_code();
            &&& t.input == s.input
            &&& t.position > s.position
            &&& t.ok ==> s.ok && t.position <= s.input.len()
        }),
{
    let (code, t) = s.read_code();
    let kind = kind_of(code);
    let t = if kind == 0 {
        t.push(zero(), zero())
    } else {
        t
    };
    let rest = code - first_code(kind);
    if t.position <= t.input.len() {
        lemma_read_integer_progress(t, 0);
        lemma_read_integer_progress(t, rest - INSTRUCTION_WEIGHTS@[kind] - 1);
    }
}

} // verus!
