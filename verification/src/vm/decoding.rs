//! Decoding of programs.
use super::Vm;
use crate::instruction::{CONSTANT, HALT, IF};
use crate::model::decoding::{
    blank, first_code, has_kind, is_program, lemma_decode_code_progress, lemma_first_codes,
    lemma_kind_of, loaded, CODE_KIND_COUNT, CODE_ORIGIN, INSTRUCTION_WEIGHTS, INTEGER_BASE,
    LAST_OPERAND_CODE, LOW_BYTE_CODE, NAME_SEPARATOR, SYMBOL_TABLE_END,
};
use crate::model::{Machine, HEAP_BOTTOM, HEAP_MIDDLE, HEAP_SIZE};
use crate::object::{Object, CLOSURE_TAG, PAIR_TAG, SINGLETON_TAG, STRING_TAG, SYMBOL_TAG};
use vstd::prelude::*;

verus! {

/// Returns the kind of a code, and the distance of the code from the first one
/// of that kind.
fn split_code(code: i64) -> (split: (usize, u64))
    requires
        0 <= code < first_code(CODE_KIND_COUNT as int),
    ensures
        has_kind(code as int, split.0 as int),
        split.1 == code - first_code(split.0 as int),
{
    let mut kind: usize = 0;
    let mut rest: u64 = code as u64;
    proof {
        lemma_first_codes();
    }
    while rest > INSTRUCTION_WEIGHTS[kind] + 2
        invariant
            kind < CODE_KIND_COUNT,
            rest == code - first_code(kind as int),
            code < first_code(CODE_KIND_COUNT as int),
        decreases CODE_KIND_COUNT - kind,
    {
        proof {
            lemma_first_codes();
        }
        rest = rest - INSTRUCTION_WEIGHTS[kind] - 3;
        kind = kind + 1;
    }
    (kind, rest)
}

impl<'a> Vm<'a> {
    // Bytes and integers
    /// Reads a byte of the program.
    pub fn read_byte(&mut self) -> (byte: u8)
        requires
            old(self)@.wf(),
            old(self)@.position < old(self)@.input.len(),
        ensures
            (byte, final(self)@) == old(self)@.read_byte(),
            final(self)@.wf(),
    {
        let byte = self.input[self.position];
        self.position = self.position + 1;
        byte
    }

    /// Reads a byte of the program, if there is one left.
    fn checked_read_byte(&mut self) -> (byte: Option<u8>)
        requires
            old(self)@.wf(),
        ensures
            byte is Some <==> old(self)@.read_byte().1.ok,
            byte is Some ==> (byte->0, final(self)@) == old(self)@.read_byte(),
            final(self)@.wf(),
    {
        if self.position < self.input.len() {
            Some(self.read_byte())
        } else {
            None
        }
    }

    /// Reads a code.
    pub fn read_code(&mut self) -> (code: i64)
        requires
            old(self)@.wf(),
            old(self)@.position < old(self)@.input.len(),
        ensures
            (code as int, final(self)@) == old(self)@.read_code(),
            final(self)@.wf(),
    {
        let x = self.read_byte() as i64 - CODE_ORIGIN as i64;

        if x < 0 {
            LOW_BYTE_CODE
        } else {
            x
        }
    }

    /// Reads a code, if there is one left.
    fn checked_read_code(&mut self) -> (code: Option<i64>)
        requires
            old(self)@.wf(),
        ensures
            code is Some <==> old(self)@.read_code().1.ok,
            code is Some ==> (code->0 as int, final(self)@) == old(self)@.read_code(),
            code is Some ==> 0 <= code->0 < 256,
            final(self)@.wf(),
    {
        if self.position < self.input.len() {
            Some(self.read_code())
        } else {
            None
        }
    }

    /// Reads the rest of an integer whose first digits are read already. There
    /// is none if the program ends before or the integer is too large.
    pub fn read_integer(&mut self, n: i64) -> (integer: Option<i64>)
        requires
            old(self)@.wf(),
        ensures
            integer is Some <==> old(self)@.read_integer(n as int).1.ok,
            integer is Some ==> (integer->0 as int, final(self)@) == old(self)@.read_integer(
                n as int,
            ),
            integer is Some && n >= 0 ==> integer->0 >= 0,
            final(self)@.wf(),
    {
        let mut number: i64 = n;
        loop
            invariant
                self@.wf(),
                n >= 0 ==> number >= 0,
                self@.read_integer(number as int) == old(self)@.read_integer(n as int),
            decreases self@.input.len() - self@.position,
        {
            let code = self.checked_read_code()?;
            let scaled = number.checked_mul(INTEGER_BASE)?;
            let sum = scaled.checked_add(code)?;

            if code < INTEGER_BASE {
                return Some(sum);
            }
            number = sum - INTEGER_BASE;
        }
    }

    // Symbols
    /// Adds a symbol with the given name to the symbol table.
    pub fn initialize_symbol(&mut self, name: Object) -> (done: Option<()>)
        requires
            old(self)@.wf(),
        ensures
            done is Some <==> old(self)@.initialize_symbol(name).ok,
            done is Some ==> final(self)@ == old(self)@.initialize_symbol(name),
            final(self)@.wf(),
    {
        let length = self.get_list_length(name)?;
        let string = self.checked_allocate_rib(name, length, Object::Number(STRING_TAG))?;
        let symbol = self.checked_allocate_rib(
            self.false_object,
            string,
            Object::Number(SYMBOL_TAG),
        )?;
        self.symbol_table =
        self.checked_allocate_rib(symbol, self.symbol_table, Object::Number(PAIR_TAG))?;
        Some(())
    }

    /// Reads the symbol table.
    pub fn decode_symbols(&mut self) -> (done: Option<()>)
        requires
            old(self)@.wf(),
        ensures
            done is Some <==> old(self)@.decode_symbols().ok,
            done is Some ==> final(self)@ == old(self)@.decode_symbols(),
            final(self)@.wf(),
    {
        // Initialize non-printable symbols.
        let count = self.read_integer(0)?;
        let ghost start = self@;
        let mut rest: i64 = count;
        while rest > 0
            invariant
                self@.wf(),
                rest >= 0,
                self@.initialize_anonymous_symbols(rest as nat)
                    == start.initialize_anonymous_symbols(count as nat),
                old(self)@.read_integer(0) == (count as int, start),
            decreases rest,
        {
            proof {
                reveal_with_fuel(Machine::initialize_anonymous_symbols, 2);
            }
            self.initialize_symbol(self.get_nil())?;
            rest = rest - 1;
        }

        // Symbol names are encoded in a reversed order.
        let mut name = self.get_nil();
        loop
            invariant
                self@.wf(),
                self@.decode_names(name) == old(self)@.decode_symbols(),
            decreases self@.input.len() - self@.position,
        {
            proof {
                reveal_with_fuel(Machine::decode_names, 2);
            }
            let byte = self.checked_read_byte()?;
            if byte == NAME_SEPARATOR {
                self.initialize_symbol(name)?;
                name = self.get_nil();
            } else if byte == SYMBOL_TABLE_END {
                return self.initialize_symbol(name);
            } else {
                name =
                self.checked_allocate_rib(
                    Object::Number(byte as u64),
                    name,
                    Object::Number(PAIR_TAG),
                )?;
            }
        }
    }

    // Codes
    /// Reads the operand of a code of a kind. `rest` is the distance of the
    /// code from the first one of its kind.
    fn read_operand(&mut self, kind: usize, rest: u64) -> (operand: Option<Object>)
        requires
            old(self)@.wf(),
            kind < CODE_KIND_COUNT,
            rest <= INSTRUCTION_WEIGHTS@[kind as int] + 2,
        ensures
            operand is Some <==> old(self)@.read_operand(kind as int, rest as int).1.ok,
            operand is Some ==> (operand->0, final(self)@) == old(self)@.read_operand(
                kind as int,
                rest as int,
            ),
            final(self)@.wf(),
    {
        let weight = INSTRUCTION_WEIGHTS[kind];
        if rest == weight {
            let integer = self.read_integer(0)?;
            Some(Object::Number(integer as u64))
        } else if rest > weight {
            let integer = self.read_integer((rest - weight - 1) as i64)?;
            self.get_symbol_ref(Object::Number(integer as u64))
        } else if kind < 3 {
            self.get_symbol_ref(Object::Number(rest))
        } else {
            Some(Object::Number(rest))
        }
    }

    /// Puts an instruction in front of the code at the top of the stack.
    fn emit(&mut self, instruction: u64, operand: Object) -> (done: Option<()>)
        requires
            old(self)@.wf(),
        ensures
            done is Some <==> old(self)@.emit(instruction, operand).ok,
            done is Some ==> final(self)@ == old(self)@.emit(instruction, operand),
            final(self)@.wf(),
    {
        let rib = self.checked_allocate_rib(
            Object::Number(instruction),
            operand,
            Object::Number(0),
        )?;
        if self.stack.to_raw() >= HEAP_SIZE as u64 {
            return None;
        }
        let next = self.heap[self.get_tos_index()];
        self.checked_set_tag(rib, next)?;
        self.checked_set_car(self.stack, rib)
    }

    /// Reads one code. The result is the procedure that the program consists
    /// of, if the code completes it.
    fn decode_code(&mut self) -> (procedure: Option<Option<Object>>)
        requires
            old(self)@.wf(),
        ensures
            procedure is Some <==> old(self)@.decode_code().1.ok,
            procedure is Some ==> (procedure->0, final(self)@) == old(self)@.decode_code(),
            final(self)@.wf(),
    {
        let code = self.checked_read_code()?;
        proof {
            lemma_first_codes();
        }
        if code > LAST_OPERAND_CODE {
            if code > LAST_OPERAND_CODE + 2 {
                return None;
            }
            let operand = self.checked_pop()?;
            self.emit(IF, operand)?;
            return Some(None);
        }
        let (kind, rest) = split_code(code);
        proof {
            lemma_kind_of(code as int, kind as int);
        }
        if kind == 0 {
            self.checked_push(Object::Number(0), Object::Number(0))?;
        }
        let operand = self.read_operand(kind, rest)?;
        if kind > 4 {
            let body = self.checked_pop()?;
            if !self.has_room() {
                return None;
            }
            let code = self.allocate_rib2(operand, Object::Number(0), body);
            let procedure = self.checked_allocate_rib(
                code,
                self.get_nil(),
                Object::Number(CLOSURE_TAG),
            )?;
            if self.stack.to_raw() == 0 {
                return Some(Some(procedure));
            }
            self.emit(CONSTANT, procedure)?;
        } else if kind > 0 {
            self.emit((kind - 1) as u64, operand)?;
        } else {
            self.emit(0, operand)?;
        }
        Some(None)
    }

    /// Reads codes up to the one that completes the program.
    pub fn decode_codes(&mut self) -> (done: Option<()>)
        requires
            old(self)@.wf(),
        ensures
            done is Some <==> old(self)@.decode_codes().ok,
            done is Some ==> final(self)@ == old(self)@.decode_codes(),
            final(self)@.wf(),
    {
        loop
            invariant
                self@.wf(),
                self@.decode_codes() == old(self)@.decode_codes(),
            decreases self@.input.len() - self@.position,
        {
            proof {
                lemma_decode_code_progress(self@);
            }
            if let Some(procedure) = self.decode_code()? {
                let code = self.checked_get_car(procedure)?;
                self.program_counter = self.checked_get_tag(code)?;
                return Some(());
            }
        }
    }

    // Start
    /// Loads a program. Bytes that are no program, or one that does not fit on
    /// the heap, are not to be loaded this way.
    pub fn new(input: &'a [u8]) -> (vm: Vm<'a>)
        requires
            is_program(input@),
        ensures
            vm@ == loaded(input@),
            vm@.wf(),
    {
        match Vm::try_new(input) {
            Some(vm) => vm,
            None => vstd::pervasive::unreached(),
        }
    }

    /// Loads a program, if the bytes are one and it fits on the heap.
    pub fn try_new(input: &'a [u8]) -> (vm: Option<Vm<'a>>)
        ensures
            vm is Some <==> is_program(input@),
            vm is Some ==> vm->0@ == loaded(input@),
            vm is Some ==> vm->0@.wf(),
    {
        let mut vm = Vm {
            stack: Object::Number(0),
            program_counter: Object::Number(0),
            false_object: Object::Number(0),
            position: 0,
            input,
            heap: vec![Object::Number(0); HEAP_SIZE],
            symbol_table: Object::Number(0),
            allocation_index: HEAP_BOTTOM,
            allocation_limit: HEAP_MIDDLE,
        };
        proof {
            assert(vm@ =~= blank(input@));
        }
        match vm.initialize() {
            Some(()) => Some(vm),
            None => None,
        }
    }

    /// Assigns an object to the first symbol of the symbol table and drops the
    /// symbol from the table.
    pub fn initialize_global(&mut self, object: Object) -> (done: Option<()>)
        requires
            old(self)@.wf(),
        ensures
            done is Some <==> old(self)@.initialize_global(object).ok,
            done is Some ==> final(self)@ == old(self)@.initialize_global(object),
            final(self)@.wf(),
    {
        let symbol = self.checked_get_car(self.symbol_table)?;
        if !self.is_addressable(symbol) {
            return None;
        }
        *self.get_car_mut(symbol) = object;
        self.symbol_table = self.get_cdr(self.symbol_table);
        Some(())
    }

    /// Pushes the frame that the program returns to.
    pub fn initialize_stack(&mut self) -> (done: Option<()>)
        requires
            old(self)@.wf(),
        ensures
            done is Some <==> old(self)@.initialize_stack().ok,
            done is Some ==> final(self)@ == old(self)@.initialize_stack(),
            final(self)@.wf(),
    {
        self.checked_push(Object::Number(0), Object::Number(PAIR_TAG))?;
        self.checked_push(Object::Number(0), Object::Number(PAIR_TAG))?;

        let first = self.get_cdr(self.stack);
        self.checked_set_cdr(self.stack, Object::Number(0))?;
        self.checked_set_tag(self.stack, first)?;

        self.checked_set_car(first, Object::Number(HALT))?;
        self.checked_set_cdr(first, Object::Number(0))?;
        self.checked_set_tag(first, Object::Number(PAIR_TAG))
    }

    /// Decodes the program and prepares the machine for it.
    pub fn initialize(&mut self) -> (done: Option<()>)
        requires
            old(self)@.wf(),
        ensures
            done is Some <==> old(self)@.initialize().ok,
            done is Some ==> final(self)@ == old(self)@.initialize(),
            final(self)@.wf(),
    {
        let tag = Object::Number(SINGLETON_TAG);
        let true_object = self.checked_allocate_rib(Object::Number(0), Object::Number(0), tag)?;
        let nil = self.checked_allocate_rib(Object::Number(0), Object::Number(0), tag)?;
        self.false_object = self.checked_allocate_rib(true_object, nil, tag)?;

        self.decode_symbols()?;
        self.decode_codes()?;

        // Primitive 0
        let rib = self.checked_allocate_rib(
            Object::Number(0),
            self.symbol_table,
            Object::Number(CLOSURE_TAG),
        )?;

        // The symbol initialization order is important as they are listed in a
        // symbol table in encoded bytecodes.
        self.initialize_global(rib)?;
        self.initialize_global(self.false_object)?;
        self.initialize_global(self.get_true())?;
        self.initialize_global(self.get_nil())?;

        self.initialize_stack()
    }
}

} // verus!
