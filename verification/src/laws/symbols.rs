//! Symbols and the global variables that they name.
use crate::instruction::{CONSTANT, IF};
use crate::laws::codes::law_integers_are_natural;
use crate::laws::integrity::{
    law_loaded_machine_is_sound, lemma_allocate, lemma_blank, lemma_decode_codes, lemma_emit,
    lemma_field, lemma_initialize_global, lemma_initialize_symbol, lemma_pop, lemma_push,
    lemma_read_byte, lemma_read_integer, lemma_read_operand,
};
use crate::laws::memory::{lemma_entries_stay, lemma_entry};
use crate::model::decoding::{
    blank, first_code, is_program, kind_of, lemma_decode_code_progress,
    lemma_read_integer_progress, loaded, INSTRUCTION_WEIGHTS, LAST_OPERAND_CODE, NAME_SEPARATOR,
    SYMBOL_TABLE_END,
};
use crate::model::walks::lemma_extent;
use crate::model::{zero, Machine, Walk};
use crate::object::{Object, CLOSURE_TAG, PAIR_TAG, SINGLETON_TAG, STRING_TAG, SYMBOL_TAG};
use crate::primitive::Primitive;
use vstd::prelude::*;

verus! {

impl Machine {
    /// Whether a list of characters is a name.
    pub open spec fn spells(self, list: Object, name: Seq<u8>) -> bool
        decreases name.len(),
    {
        if name.len() == 0 {
            list == self.nil()
        } else {
            &&& list is Rib
            &&& self.car(list) == Object::Number(name[0] as u64)
            &&& self.tag(list) == Object::Number(PAIR_TAG)
            &&& self.spells(self.cdr(list), name.drop_first())
        }
    }

    /// Whether a list is one of symbols with the given names. Each symbol is
    /// undefined, and comes after the ones behind it on the heap.
    pub open spec fn lists_symbols(self, table: Object, names: Seq<Seq<u8>>) -> bool
        decreases names.len(),
    {
        if names.len() == 0 {
            table == zero()
        } else {
            let symbol = self.car(table);
            let string = self.cdr(symbol);
            &&& table is Rib
            &&& self.tag(table) == Object::Number(PAIR_TAG)
            &&& symbol is Rib
            &&& self.cdr(table).raw() < symbol.raw() < table.raw()
            &&& self.car(symbol) == self.false_object
            &&& self.tag(symbol) == Object::Number(SYMBOL_TAG)
            &&& string is Rib
            &&& self.cdr(string) == Object::Number(names[0].len() as u64)
            &&& self.tag(string) == Object::Number(STRING_TAG)
            &&& self.spells(self.car(string), names[0])
            &&& self.lists_symbols(self.cdr(table), names.drop_first())
        }
    }

    /// Whether the machine is sound and has its false, true and nil objects.
    pub open spec fn has_singletons(self) -> bool {
        &&& self.sound()
        &&& self.false_object == Object::Rib(6)
        &&& self.true_object() == Object::Rib(0)
        &&& self.nil() == Object::Rib(3)
        &&& self.tag(self.true_object()) == Object::Number(SINGLETON_TAG)
        &&& self.tag(self.nil()) == Object::Number(SINGLETON_TAG)
        &&& self.tag(self.false_object) == Object::Number(SINGLETON_TAG)
        &&& self.cdr(self.true_object()) == zero()
    }
}

/// The names in the text of a symbol table, in the order in which they come.
/// The characters of a name come last to first. `name` is what is read of the
/// current one.
pub open spec fn names_in(text: Seq<u8>, name: Seq<u8>) -> Option<Seq<Seq<u8>>>
    decreases text.len(),
{
    if text.len() == 0 {
        None
    } else if text[0] == NAME_SEPARATOR {
        match names_in(text.drop_first(), Seq::empty()) {
            Some(names) => Some(seq![name] + names),
            None => None,
        }
    } else if text[0] == SYMBOL_TABLE_END {
        Some(seq![name])
    } else {
        names_in(text.drop_first(), seq![text[0]] + name)
    }
}

impl Machine {
    /// Whether the objects on the heap that belong to ribs of another machine
    /// are the same here, but for the first object on the heap.
    pub open spec fn keeps_ribs_of(self, other: Machine) -> bool {
        &&& self.heap.len() == other.heap.len()
        &&& self.allocation_index >= other.allocation_index
        &&& self.false_object == other.false_object
        &&& forall|i: int|
            0 < i < other.allocation_index ==> #[trigger] self.heap[i] == other.heap[i]
    }
}

/// A machine that keeps ribs has the same names.
proof fn lemma_names_stay(s: Machine, t: Machine, list: Object, name: Seq<u8>)
    requires
        s.has_singletons(),
        s.knows(list),
        s.spells(list, name),
        t.keeps_ribs_of(s),
    ensures
        t.spells(list, name),
    decreases name.len(),
{
    if name.len() > 0 {
        lemma_field(s, list, 1);
        lemma_names_stay(s, t, s.cdr(list), name.drop_first());
    }
}

/// A machine that keeps ribs has the same symbols.
proof fn lemma_symbols_stay(s: Machine, t: Machine, table: Object, names: Seq<Seq<u8>>)
    requires
        s.has_singletons(),
        s.knows(table),
        s.lists_symbols(table, names),
        t.keeps_ribs_of(s),
    ensures
        t.lists_symbols(table, names),
    decreases names.len(),
{
    if names.len() > 0 {
        let symbol = s.car(table);
        let string = s.cdr(symbol);
        lemma_field(s, table, 0);
        lemma_field(s, table, 1);
        lemma_field(s, symbol, 1);
        lemma_field(s, string, 0);
        lemma_names_stay(s, t, s.car(string), names[0]);
        lemma_symbols_stay(s, t, s.cdr(table), names.drop_first());
    }
}

/// The length of a list of characters is that of the name.
proof fn lemma_length_of_name(s: Machine, list: Object, name: Seq<u8>)
    requires
        s.has_singletons(),
        s.knows(list),
        s.spells(list, name),
    ensures
        s.ends_after(Walk::List, list, name.len()),
    decreases name.len(),
{
    if name.len() > 0 {
        lemma_field(s, list, 1);
        lemma_length_of_name(s, s.cdr(list), name.drop_first());
    }
}

proof fn lemma_singletons_stay(s: Machine, t: Machine)
    requires
        s.has_singletons(),
        t.sound(),
        t.keeps_ribs_of(s),
    ensures
        t.has_singletons(),
{
}

/// A new symbol comes first in the symbol table.
#[verifier::rlimit(30)]
pub proof fn law_new_symbol(s: Machine, list: Object, name: Seq<u8>, names: Seq<Seq<u8>>)
    requires
        s.has_singletons(),
        s.knows(list),
        s.spells(list, name),
        s.lists_symbols(s.symbol_table, names),
        s.initialize_symbol(list).ok,
    ensures
        ({
            let t = s.initialize_symbol(list);
            &&& t.has_singletons()
            &&& t.extends(s)
            &&& t.stack == s.stack
            &&& t.position == s.position
            &&& t.input == s.input
            &&& t.lists_symbols(t.symbol_table, seq![name] + names)
        }),
{
    lemma_length_of_name(s, list, name);
    lemma_extent(s, Walk::List, list, name.len());
    lemma_initialize_symbol(s, list);
    let t = s.initialize_symbol(list);
    assert(s.allocation_index >= 9);
    assert(t.extends(s));
    lemma_singletons_stay(s, t);
    lemma_names_stay(s, t, list, name);
    lemma_symbols_stay(s, t, s.symbol_table, names);
    assert((seq![name] + names).drop_first() =~= names);
    assert(s.knows(s.symbol_table));
    if names.len() == 0 {
        assert(s.symbol_table.raw() == 0);
    }
    assert(t.cdr(t.symbol_table) == s.symbol_table);
    assert(t.car(t.symbol_table).raw() == s.allocation_index + 3);
}

proof fn lemma_anonymous_symbols(s: Machine, count: nat, names: Seq<Seq<u8>>)
    requires
        s.has_singletons(),
        s.lists_symbols(s.symbol_table, names),
        s.initialize_anonymous_symbols(count).ok,
    ensures
        ({
            let t = s.initialize_anonymous_symbols(count);
            &&& t.has_singletons()
            &&& t.stack == s.stack
            &&& t.position == s.position
            &&& t.input == s.input
            &&& t.lists_symbols(
                t.symbol_table,
                Seq::new(count, |i: int| Seq::<u8>::empty()) + names,
            )
        }),
    decreases count,
{
    let empty = Seq::<u8>::empty();
    if count > 0 {
        let t = s.initialize_symbol(s.nil());
        reveal_with_fuel(Machine::initialize_anonymous_symbols, 2);
        assert(t.ok);
        lemma_field(s, s.false_object, 1);
        law_new_symbol(s, s.nil(), empty, names);
        lemma_anonymous_symbols(t, (count - 1) as nat, seq![empty] + names);
        assert(Seq::new((count - 1) as nat, |i: int| empty) + (seq![empty] + names) =~= Seq::new(
            count,
            |i: int| empty,
        ) + names);
    } else {
        assert(Seq::new(0, |i: int| empty) + names =~= names);
    }
}

/// Reading a byte changes neither names nor symbols.
proof fn lemma_byte_keeps_symbols(s: Machine, list: Object, name: Seq<u8>, names: Seq<Seq<u8>>)
    requires
        s.has_singletons(),
        s.knows(list),
        s.spells(list, name),
        s.lists_symbols(s.symbol_table, names),
        s.read_byte().1.ok,
    ensures
        ({
            let (byte, t) = s.read_byte();
            let text = s.input.skip(s.position);
            &&& t.has_singletons()
            &&& t.knows(list)
            &&& t.spells(list, name)
            &&& t.lists_symbols(t.symbol_table, names)
            &&& t.stack == s.stack
            &&& t.input == s.input
            &&& t.position == s.position + 1
            &&& 0 <= s.position < s.input.len()
            &&& text.len() > 0
            &&& text[0] == byte
            &&& text.drop_first() == t.input.skip(t.position)
        }),
{
    let (byte, t) = s.read_byte();
    lemma_read_byte(s);
    assert(s.input.skip(s.position).drop_first() =~= t.input.skip(t.position));
    assert(t.extends(s));
    lemma_singletons_stay(s, t);
    lemma_names_stay(s, t, list, name);
    lemma_symbols_stay(s, t, s.symbol_table, names);
}

/// A character comes first in a name.
proof fn lemma_new_character(
    s: Machine,
    byte: u8,
    list: Object,
    name: Seq<u8>,
    names: Seq<Seq<u8>>,
)
    requires
        s.has_singletons(),
        s.knows(list),
        s.spells(list, name),
        s.lists_symbols(s.symbol_table, names),
        s.has_room(),
    ensures
        ({
            let (longer, t) = s.allocate(
                Object::Number(byte as u64),
                list,
                Object::Number(PAIR_TAG),
            );
            &&& t.has_singletons()
            &&& t.knows(longer)
            &&& t.spells(longer, seq![byte] + name)
            &&& t.lists_symbols(t.symbol_table, names)
            &&& t.stack == s.stack
            &&& t.input == s.input
            &&& t.position == s.position
        }),
{
    let character = Object::Number(byte as u64);
    let pair = Object::Number(PAIR_TAG);
    lemma_allocate(s, character, list, pair);
    let (longer, t) = s.allocate(character, list, pair);
    assert(t.extends(s));
    lemma_singletons_stay(s, t);
    lemma_names_stay(s, t, list, name);
    lemma_symbols_stay(s, t, s.symbol_table, names);
    assert((seq![byte] + name).drop_first() =~= name);
}

#[verifier::rlimit(30)]
proof fn lemma_decoded_names(s: Machine, list: Object, name: Seq<u8>, names: Seq<Seq<u8>>)
    requires
        s.has_singletons(),
        s.knows(list),
        s.spells(list, name),
        s.lists_symbols(s.symbol_table, names),
        s.decode_names(list).ok,
    ensures
        ({
            let t = s.decode_names(list);
            let text = s.input.skip(s.position);
            &&& t.has_singletons()
            &&& t.stack == s.stack
            &&& names_in(text, name) is Some
            &&& t.lists_symbols(t.symbol_table, (names_in(text, name)->0).reverse() + names)
        }),
    decreases s.input.len() - s.position,
{
    let (byte, t) = s.read_byte();
    let text = s.input.skip(s.position);
    let empty = Seq::<u8>::empty();
    assert(t.ok);
    lemma_byte_keeps_symbols(s, list, name, names);
    if byte == NAME_SEPARATOR {
        let u = t.initialize_symbol(list);
        assert(u.ok) by {
            reveal_with_fuel(Machine::decode_names, 2);
        }
        law_new_symbol(t, list, name, names);
        lemma_field(u, u.false_object, 1);
        lemma_decoded_names(u, u.nil(), empty, seq![name] + names);
        let rest = names_in(text.drop_first(), empty)->0;
        assert((seq![name] + rest).reverse() + names =~= rest.reverse() + (seq![name] + names));
    } else if byte == SYMBOL_TABLE_END {
        law_new_symbol(t, list, name, names);
        assert(seq![name].reverse() + names =~= seq![name] + names);
    } else {
        let (longer, u) = t.allocate(
            Object::Number(byte as u64),
            list,
            Object::Number(PAIR_TAG),
        );
        assert(u.ok) by {
            reveal_with_fuel(Machine::decode_names, 2);
        }
        lemma_new_character(t, byte, list, name, names);
        lemma_decoded_names(u, longer, seq![byte] + name, names);
    }
}

proof fn lemma_blank_singletons(input: Seq<u8>)
    ensures
        blank(input).initialize_singletons().has_singletons(),
        blank(input).initialize_singletons().lists_symbols(zero(), Seq::empty()),
        blank(input).initialize_singletons().symbol_table == zero(),
        blank(input).initialize_singletons().stack == zero(),
        blank(input).initialize_singletons().input == input,
        blank(input).initialize_singletons().position == 0,
{
    lemma_blank(input);
}

/// The names of the symbols of a program, in the order of the symbol table: the
/// last name comes first, and the symbols without names come last.
pub open spec fn symbol_names(input: Seq<u8>) -> Option<Seq<Seq<u8>>> {
    let (count, s) = blank(input).initialize_singletons().read_integer(0);
    match names_in(input.skip(s.position), Seq::empty()) {
        Some(names) => Some(
            names.reverse() + Seq::new(count as nat, |i: int| Seq::<u8>::empty()),
        ),
        None => None,
    }
}

/// The symbol table of a program lists the symbols whose names the program
/// gives.
pub proof fn law_symbol_table(input: Seq<u8>)
    requires
        blank(input).initialize_singletons().decode_symbols().ok,
    ensures
        ({
            let s = blank(input).initialize_singletons().decode_symbols();
            &&& s.has_singletons()
            &&& s.stack == zero()
            &&& symbol_names(input) is Some
            &&& s.lists_symbols(s.symbol_table, symbol_names(input)->0)
        }),
{
    let s = blank(input).initialize_singletons();
    let empty = Seq::<u8>::empty();
    lemma_blank_singletons(input);
    let (count, t) = s.read_integer(0);
    lemma_read_integer_progress(s, 0);
    lemma_read_integer(s, 0);
    let u = t.initialize_anonymous_symbols(count as nat);
    assert(u.ok) by {
        if !u.ok {
            assert(!u.read_byte().1.ok);
        }
    }
    assert(t.ok) by {
        if !t.ok {
            assert(u == t);
        }
    }
    assert(t.extends(s));
    lemma_singletons_stay(s, t);
    lemma_symbols_stay(s, t, zero(), Seq::empty());
    lemma_anonymous_symbols(t, count as nat, Seq::empty());
    let anonymous = Seq::new(count as nat, |i: int| empty);
    assert(anonymous + Seq::<Seq<u8>>::empty() =~= anonymous);
    lemma_field(u, u.false_object, 1);
    lemma_decoded_names(u, u.nil(), empty, anonymous);
}

/// The number of ribs that the names in the text of a symbol table take: one
/// for each character, and three for each symbol.
pub open spec fn ribs_of_names(text: Seq<u8>) -> int
    decreases text.len(),
{
    if text.len() == 0 {
        0
    } else if text[0] == 59 {
        3
    } else if text[0] == 44 {
        3 + ribs_of_names(text.drop_first())
    } else {
        1 + ribs_of_names(text.drop_first())
    }
}

proof fn lemma_ribs_of_names(text: Seq<u8>)
    ensures
        ribs_of_names(text) >= 0,
    decreases text.len(),
{
    if text.len() > 0 {
        lemma_ribs_of_names(text.drop_first());
    }
}

proof fn lemma_symbol_fits(s: Machine, list: Object, name: Seq<u8>)
    requires
        s.has_singletons(),
        s.knows(list),
        s.spells(list, name),
        s.has_room_for(3),
    ensures
        s.initialize_symbol(list).ok,
        s.initialize_symbol(list).allocation_index == s.allocation_index + 9,
        s.initialize_symbol(list).allocation_limit == s.allocation_limit,
{
    lemma_length_of_name(s, list, name);
    lemma_extent(s, Walk::List, list, name.len());
}

proof fn lemma_anonymous_symbols_fit(s: Machine, count: nat, names: Seq<Seq<u8>>)
    requires
        s.has_singletons(),
        s.lists_symbols(s.symbol_table, names),
        s.has_room_for((3 * count) as int),
    ensures
        s.initialize_anonymous_symbols(count).ok,
        s.initialize_anonymous_symbols(count).allocation_index == s.allocation_index + 9 * count,
        s.initialize_anonymous_symbols(count).allocation_limit == s.allocation_limit,
    decreases count,
{
    if count > 0 {
        let empty = Seq::<u8>::empty();
        lemma_field(s, s.false_object, 1);
        lemma_symbol_fits(s, s.nil(), empty);
        law_new_symbol(s, s.nil(), empty, names);
        lemma_anonymous_symbols_fit(
            s.initialize_symbol(s.nil()),
            (count - 1) as nat,
            seq![empty] + names,
        );
    }
}

#[verifier::rlimit(30)]
proof fn lemma_names_fit(s: Machine, list: Object, name: Seq<u8>, names: Seq<Seq<u8>>)
    requires
        s.has_singletons(),
        s.knows(list),
        s.spells(list, name),
        s.lists_symbols(s.symbol_table, names),
        names_in(s.input.skip(s.position), name) is Some,
        s.has_room_for(ribs_of_names(s.input.skip(s.position))),
    ensures
        ({
            let t = s.decode_names(list);
            &&& t.ok
            &&& t.allocation_index == s.allocation_index + 3 * ribs_of_names(
                s.input.skip(s.position),
            )
            &&& s.position < t.position <= s.input.len()
            &&& s.input[t.position - 1] == 59
            &&& forall|i: int| s.position <= i < t.position - 1 ==> #[trigger] s.input[i] != 59
        }),
    decreases s.input.len() - s.position,
{
    let (byte, t) = s.read_byte();
    let text = s.input.skip(s.position);
    let empty = Seq::<u8>::empty();
    assert(text.len() > 0);
    lemma_ribs_of_names(text.drop_first());
    lemma_byte_keeps_symbols(s, list, name, names);
    if byte == NAME_SEPARATOR {
        let u = t.initialize_symbol(list);
        lemma_symbol_fits(t, list, name);
        law_new_symbol(t, list, name, names);
        lemma_field(u, u.false_object, 1);
        lemma_names_fit(u, u.nil(), empty, seq![name] + names);
    } else if byte == SYMBOL_TABLE_END {
        lemma_symbol_fits(t, list, name);
        law_new_symbol(t, list, name, names);
    } else {
        let (longer, u) = t.allocate(
            Object::Number(byte as u64),
            list,
            Object::Number(PAIR_TAG),
        );
        lemma_new_character(t, byte, list, name, names);
        lemma_names_fit(u, longer, seq![byte] + name, names);
    }
}

/// Every symbol table that there is room for is read, up to its semicolon.
pub proof fn law_symbol_tables_are_read(input: Seq<u8>)
    requires
        ({
            let (count, s) = blank(input).initialize_singletons().read_integer(0);
            let text = input.skip(s.position);
            &&& s.ok
            &&& names_in(text, Seq::empty()) is Some
            &&& 9 + 9 * count + 3 * ribs_of_names(text) + 3 <= 49152
        }),
    ensures
        ({
            let (count, s) = blank(input).initialize_singletons().read_integer(0);
            let t = blank(input).initialize_singletons().decode_symbols();
            &&& t.ok
            &&& t.allocation_index == 9 + 9 * count + 3 * ribs_of_names(input.skip(s.position))
            &&& s.position < t.position <= input.len()
            &&& input[t.position - 1] == 59
            &&& forall|i: int| s.position <= i < t.position - 1 ==> #[trigger] input[i] != 59
        }),
{
    let s = blank(input).initialize_singletons();
    let empty = Seq::<u8>::empty();
    lemma_blank_singletons(input);
    assert(s.allocation_index == 9 && s.allocation_limit == 49152);
    let (count, t) = s.read_integer(0);
    law_integers_are_natural(s, 0);
    lemma_read_integer(s, 0);
    lemma_ribs_of_names(input.skip(t.position));
    assert(t.extends(s));
    lemma_singletons_stay(s, t);
    lemma_symbols_stay(s, t, zero(), Seq::empty());
    lemma_anonymous_symbols_fit(t, count as nat, Seq::empty());
    lemma_anonymous_symbols(t, count as nat, Seq::empty());
    let u = t.initialize_anonymous_symbols(count as nat);
    let anonymous = Seq::new(count as nat, |i: int| empty);
    assert(anonymous + Seq::<Seq<u8>>::empty() =~= anonymous);
    lemma_field(u, u.false_object, 1);
    lemma_names_fit(u, u.nil(), empty, anonymous);
}

// Codes
impl Machine {
    /// Whether all entries of a stack are ribs from an address on.
    pub open spec fn is_stack_from(self, start: int, stack: Object, depth: nat) -> bool
        decreases depth,
    {
        if depth == 0 {
            stack == zero()
        } else {
            &&& stack is Rib
            &&& stack.raw() >= start
            &&& self.is_stack_from(start, self.cdr(stack), (depth - 1) as nat)
        }
    }

    /// Whether the machine has a stack of which all entries are ribs from an
    /// address on.
    pub open spec fn has_stack_from(self, start: int) -> bool {
        exists|depth: nat| self.is_stack_from(start, self.stack, depth)
    }

    /// Whether a machine has decoded codes since another one, whose ribs end
    /// at an address.
    pub open spec fn has_decoded_since(self, other: Machine, start: int) -> bool {
        &&& self.sound()
        &&& self.has_stack_from(start)
        &&& self.symbol_table == other.symbol_table
        &&& self.allocation_index >= start
        &&& self.heap.len() == other.heap.len()
        &&& self.false_object == other.false_object
        &&& forall|i: int| 0 < i < start ==> #[trigger] self.heap[i] == other.heap[i]
    }
}

/// Stacks stay while the second fields of ribs stay.
proof fn lemma_stack_stays(s: Machine, t: Machine, start: int, stack: Object, depth: nat)
    requires
        s.sound(),
        s.knows(stack),
        s.is_stack_from(start, stack, depth),
        forall|i: int|
            0 <= i < s.allocation_index && i % 3 == 1 ==> #[trigger] t.heap[i] == s.heap[i],
    ensures
        t.is_stack_from(start, stack, depth),
    decreases depth,
{
    if depth > 0 {
        lemma_field(s, stack, 1);
        lemma_stack_stays(s, t, start, s.cdr(stack), (depth - 1) as nat);
    }
}

proof fn lemma_position_since(s: Machine, t: Machine, o: Machine, start: int)
    requires
        s.has_decoded_since(o, start),
        t.sound(),
        t == (Machine { position: t.position, ..s }),
    ensures
        t.has_decoded_since(o, start),
{
    let depth = choose|depth: nat| s.is_stack_from(start, s.stack, depth);
    lemma_stack_stays(s, t, start, s.stack, depth);
}

proof fn lemma_allocate_since(
    s: Machine,
    o: Machine,
    start: int,
    car: Object,
    cdr: Object,
    tag: Object,
)
    requires
        s.has_decoded_since(o, start),
        s.has_room(),
        s.knows(car),
        s.knows(cdr),
        s.knows(tag),
    ensures
        s.allocate(car, cdr, tag).1.has_decoded_since(o, start),
        s.allocate(car, cdr, tag).1.knows(s.fresh()),
{
    let t = s.allocate(car, cdr, tag).1;
    lemma_allocate(s, car, cdr, tag);
    let depth = choose|depth: nat| s.is_stack_from(start, s.stack, depth);
    lemma_stack_stays(s, t, start, s.stack, depth);
}

proof fn lemma_push_since(s: Machine, o: Machine, start: int, car: Object, tag: Object)
    requires
        s.has_decoded_since(o, start),
        s.has_room(),
        s.knows(car),
        s.knows(tag),
    ensures
        s.push(car, tag).has_decoded_since(o, start),
{
    let t = s.push(car, tag);
    lemma_push(s, car, tag);
    let depth = choose|depth: nat| s.is_stack_from(start, s.stack, depth);
    lemma_stack_stays(s, t, start, s.stack, depth);
    assert(t.is_stack_from(start, t.stack, (depth + 1) as nat));
}

proof fn lemma_pop_since(s: Machine, o: Machine, start: int)
    requires
        o.has_singletons(),
        start >= 9,
        s.has_decoded_since(o, start),
        s.pop().1.ok,
    ensures
        s.pop().1.has_decoded_since(o, start),
        s.pop().1.knows(s.pop().0),
{
    let t = s.pop().1;
    lemma_pop(s);
    let depth = choose|depth: nat| s.is_stack_from(start, s.stack, depth);
    lemma_stack_stays(s, t, start, s.stack, depth);
    if depth == 0 {
        assert(t.stack == o.heap[1]);
        assert(t.is_stack_from(start, t.stack, 0));
    } else {
        assert(t.is_stack_from(start, t.stack, (depth - 1) as nat));
    }
}

proof fn lemma_emit_since(s: Machine, o: Machine, start: int, instruction: u64, operand: Object)
    requires
        start >= 9,
        s.has_decoded_since(o, start),
        s.knows(operand),
        s.emit(instruction, operand).ok,
    ensures
        s.emit(instruction, operand).has_decoded_since(o, start),
{
    let t = s.emit(instruction, operand);
    lemma_emit(s, instruction, operand);
    let depth = choose|depth: nat| s.is_stack_from(start, s.stack, depth);
    assert(s.stack.raw() == 0 || s.stack.raw() >= start);
    lemma_stack_stays(s, t, start, s.stack, depth);
}

proof fn lemma_operand_since(s: Machine, o: Machine, start: int, kind: int, rest: int)
    requires
        s.has_decoded_since(o, start),
        s.read_operand(kind, rest).1.ok,
    ensures
        s.read_operand(kind, rest).1.has_decoded_since(o, start),
        s.read_operand(kind, rest).1.knows(s.read_operand(kind, rest).0),
{
    let weight = INSTRUCTION_WEIGHTS@[kind] as int;
    let (operand, t) = s.read_operand(kind, rest);
    lemma_read_operand(s, kind, rest);
    lemma_read_integer_progress(s, 0);
    lemma_read_integer_progress(s, rest - weight - 1);
    lemma_position_since(s, t, o, start);
}

proof fn lemma_code_since(s: Machine, o: Machine, start: int)
    requires
        o.has_singletons(),
        start >= 9,
        s.has_decoded_since(o, start),
        s.decode_code().1.ok,
    ensures
        s.decode_code().1.has_decoded_since(o, start),
{
    let (code, t) = s.read_code();
    assert(t.ok);
    lemma_read_byte(s);
    lemma_position_since(s, t, o, start);
    let kind = kind_of(code);
    if code > LAST_OPERAND_CODE {
        lemma_pop_since(t, o, start);
        let (operand, t) = t.pop();
        lemma_emit_since(t, o, start, IF, operand);
    } else {
        let u = if kind == 0 {
            t.push(zero(), zero())
        } else {
            t
        };
        let rest = code - first_code(kind);
        let (operand, v) = u.read_operand(kind, rest);
        assert(v.ok);
        assert(u.ok) by {
            lemma_read_integer_progress(u, 0);
            lemma_read_integer_progress(u, rest - INSTRUCTION_WEIGHTS@[kind] - 1);
        }
        if kind == 0 {
            lemma_push_since(t, o, start, zero(), zero());
        }
        lemma_operand_since(u, o, start, kind, rest);
        if kind > 4 {
            let (body, w) = v.pop();
            assert(w.ok);
            lemma_pop_since(v, o, start);
            lemma_allocate_since(w, o, start, operand, zero(), body);
            let (code, x) = w.allocate(operand, zero(), body);
            lemma_field(x, x.false_object, 1);
            let tag = Object::Number(CLOSURE_TAG);
            lemma_allocate_since(x, o, start, code, x.nil(), tag);
            let (procedure, y) = x.allocate(code, x.nil(), tag);
            if y.stack.raw() != 0 {
                lemma_emit_since(y, o, start, CONSTANT, procedure);
            }
        } else {
            lemma_emit_since(
                v,
                o,
                start,
                if kind == 0 {
                    0
                } else {
                    (kind - 1) as u64
                },
                operand,
            );
        }
    }
}

proof fn lemma_codes_since(s: Machine, o: Machine, start: int)
    requires
        o.has_singletons(),
        start >= 9,
        s.has_decoded_since(o, start),
        s.decode_codes().ok,
    ensures
        s.decode_codes().has_decoded_since(o, start),
    decreases s.input.len() - s.position,
{
    let (procedure, t) = s.decode_code();
    assert(t.ok);
    lemma_decode_code_progress(s);
    lemma_code_since(s, o, start);
    if procedure is None {
        lemma_codes_since(t, o, start);
    } else {
        let u = s.decode_codes();
        lemma_decode_codes(s);
        let depth = choose|depth: nat| t.is_stack_from(start, t.stack, depth);
        lemma_stack_stays(t, u, start, t.stack, depth);
    }
}

/// Decoding the codes of a program leaves its symbols as they are.
pub proof fn law_codes_keep_symbols(s: Machine, names: Seq<Seq<u8>>)
    requires
        s.has_singletons(),
        s.stack == zero(),
        s.lists_symbols(s.symbol_table, names),
        s.decode_codes().ok,
    ensures
        s.decode_codes().has_singletons(),
        s.decode_codes().symbol_table == s.symbol_table,
        s.decode_codes().lists_symbols(s.symbol_table, names),
{
    let t = s.decode_codes();
    let start = s.allocation_index;
    assert(start >= 9) by {
        assert(s.knows(s.false_object));
    }
    assert(s.is_stack_from(start, s.stack, 0));
    lemma_codes_since(s, s, start);
    assert(t.keeps_ribs_of(s));
    lemma_singletons_stay(s, t);
    lemma_symbols_stay(s, t, s.symbol_table, names);
}

// Global variables
/// A name stays when a symbol is assigned to.
proof fn lemma_name_stays_on_assignment(
    s: Machine,
    symbol: Object,
    value: Object,
    list: Object,
    name: Seq<u8>,
)
    requires
        s.has_singletons(),
        s.knows(symbol),
        symbol is Rib,
        s.tag(symbol) == Object::Number(SYMBOL_TAG),
        s.knows(list),
        s.spells(list, name),
    ensures
        s.write(symbol, 0, value).spells(list, name),
    decreases name.len(),
{
    if name.len() > 0 {
        lemma_field(s, list, 1);
        lemma_name_stays_on_assignment(s, symbol, value, s.cdr(list), name.drop_first());
    }
}

/// The other symbols stay when a symbol is assigned to.
proof fn lemma_symbols_stay_on_assignment(
    s: Machine,
    symbol: Object,
    value: Object,
    table: Object,
    names: Seq<Seq<u8>>,
)
    requires
        s.has_singletons(),
        s.knows(symbol),
        symbol is Rib,
        s.tag(symbol) == Object::Number(SYMBOL_TAG),
        s.knows(table),
        table.raw() < symbol.raw(),
        s.lists_symbols(table, names),
    ensures
        s.write(symbol, 0, value).lists_symbols(table, names),
    decreases names.len(),
{
    if names.len() > 0 {
        let other = s.car(table);
        let string = s.cdr(other);
        lemma_field(s, table, 0);
        lemma_field(s, table, 1);
        lemma_field(s, other, 1);
        lemma_field(s, string, 0);
        lemma_name_stays_on_assignment(s, symbol, value, s.car(string), names[0]);
        lemma_symbols_stay_on_assignment(s, symbol, value, s.cdr(table), names.drop_first());
    }
}

/// A global variable is that of the first symbol. The table goes on with the
/// next one.
proof fn lemma_global(s: Machine, object: Object, names: Seq<Seq<u8>>)
    requires
        s.has_singletons(),
        s.knows(object),
        s.lists_symbols(s.symbol_table, names),
        names.len() > 0,
    ensures
        ({
            let t = s.initialize_global(object);
            let symbol = s.car(s.symbol_table);
            &&& t.has_singletons()
            &&& t.symbol_table == s.cdr(s.symbol_table)
            &&& t.symbol_table.raw() < symbol.raw() < s.symbol_table.raw()
            &&& t.lists_symbols(t.symbol_table, names.drop_first())
            &&& t == Machine {
                heap: s.heap.update(symbol.raw() as int, object),
                symbol_table: t.symbol_table,
                ..s
            }
            &&& symbol.raw() % 3 == 0
            &&& s.symbol_table.raw() % 3 == 0
            &&& s.symbol_table is Rib
            &&& s.symbol_table.raw() < s.allocation_index
        }),
{
    let symbol = s.car(s.symbol_table);
    lemma_field(s, s.symbol_table, 0);
    lemma_field(s, s.symbol_table, 1);
    lemma_initialize_global(s, object);
    lemma_symbols_stay_on_assignment(
        s,
        symbol,
        object,
        s.cdr(s.symbol_table),
        names.drop_first(),
    );
    let t = s.write(symbol, 0, object);
    let u = s.initialize_global(object);
    lemma_same_symbols(t, u, u.symbol_table, names.drop_first());
}

proof fn lemma_same_name(s: Machine, t: Machine, list: Object, name: Seq<u8>)
    requires
        s.spells(list, name),
        t.heap == s.heap,
        t.false_object == s.false_object,
    ensures
        t.spells(list, name),
    decreases name.len(),
{
    if name.len() > 0 {
        lemma_same_name(s, t, s.cdr(list), name.drop_first());
    }
}

/// Machines with the same heap have the same symbols.
proof fn lemma_same_symbols(s: Machine, t: Machine, table: Object, names: Seq<Seq<u8>>)
    requires
        s.lists_symbols(table, names),
        t.heap == s.heap,
        t.false_object == s.false_object,
    ensures
        t.lists_symbols(table, names),
    decreases names.len(),
{
    if names.len() > 0 {
        lemma_same_name(s, t, s.car(s.cdr(s.car(table))), names[0]);
        lemma_same_symbols(s, t, s.cdr(table), names.drop_first());
    }
}

/// The value of the symbol at an index of a list.
pub open spec fn value_at(s: Machine, table: Object, index: nat) -> Object {
    s.car(s.car(s.tail(table, index)))
}

/// The first four symbols are the procedure that allocates ribs, false, true
/// and nil. The others are undefined, and the symbol table is left with them.
#[verifier::rlimit(30)]
proof fn lemma_globals(s: Machine, names: Seq<Seq<u8>>)
    requires
        s.has_singletons(),
        s.lists_symbols(s.symbol_table, names),
        names.len() >= 4,
        s.has_room(),
    ensures
        ({
            let t = s.initialize_globals();
            let rib = value_at(t, s.symbol_table, 0);
            &&& t.has_singletons()
            &&& t.knows(s.symbol_table)
            &&& t.has_entries(s.symbol_table, 4)
            &&& forall|i: nat| i < 4 ==> t.car(#[trigger] t.tail(s.symbol_table, i)) is Rib
            &&& rib is Rib
            &&& t.car(rib) == Object::Number(Primitive::Rib.number())
            &&& t.cdr(rib) == s.symbol_table
            &&& t.tag(rib) == Object::Number(CLOSURE_TAG)
            &&& value_at(t, s.symbol_table, 1) == t.false_object
            &&& value_at(t, s.symbol_table, 2) == t.true_object()
            &&& value_at(t, s.symbol_table, 3) == t.nil()
            &&& t.symbol_table == t.tail(s.symbol_table, 4)
            &&& t.lists_symbols(t.symbol_table, names.skip(4))
        }),
{
    let table = s.symbol_table;
    let tag = Object::Number(CLOSURE_TAG);
    lemma_allocate(s, zero(), table, tag);
    let (rib, t) = s.allocate(zero(), table, tag);
    assert(t.keeps_ribs_of(s));
    lemma_singletons_stay(s, t);
    lemma_symbols_stay(s, t, table, names);
    lemma_global(t, rib, names);
    let u = t.initialize_global(rib);
    lemma_global(u, u.false_object, names.drop_first());
    let v = u.initialize_global(u.false_object);
    lemma_field(v, v.false_object, 0);
    lemma_global(v, v.true_object(), names.drop_first().drop_first());
    let w = v.initialize_global(v.true_object());
    lemma_field(w, w.false_object, 1);
    lemma_global(w, w.nil(), names.drop_first().drop_first().drop_first());
    let x = w.initialize_global(w.nil());
    assert(names.drop_first().drop_first().drop_first().drop_first() =~= names.skip(4));
    reveal_with_fuel(Machine::tail, 5);
    assert(x.tail(table, 1) == u.symbol_table);
    assert(x.tail(table, 2) == v.symbol_table);
    assert(x.tail(table, 3) == w.symbol_table);
    assert(x.tail(table, 4) == x.symbol_table);
    reveal_with_fuel(Machine::has_entries, 5);
}

/// Setting up the stack keeps all ribs.
proof fn lemma_stack_keeps_ribs(s: Machine)
    requires
        s.sound(),
        s.initialize_stack().ok,
    ensures
        s.initialize_stack().extends(s),
        s.initialize_stack().symbol_table == s.symbol_table,
        s.initialize_stack().false_object == s.false_object,
{
    let t = s.push_value(zero()).push_value(zero());
    assert(t.ok);
    assert(t.cdr(t.stack) == s.fresh());
}

/// The values of symbols stay while more ribs are allocated.
proof fn lemma_value_stays(s: Machine, t: Machine, table: Object, count: nat, index: nat)
    requires
        s.sound(),
        t.extends(s),
        s.knows(table),
        s.has_entries(table, count),
        index < count,
        s.car(s.tail(table, index)) is Rib,
    ensures
        value_at(t, table, index) == value_at(s, table, index),
        s.knows(value_at(s, table, index)),
{
    lemma_entry(s, table, count, index);
    lemma_entries_stay(s, t, table, index);
    lemma_field(s, s.tail(table, index), 0);
    lemma_field(s, s.car(s.tail(table, index)), 0);
}

/// The first four symbols of a program are the procedure that allocates ribs,
/// false, true and nil. The others have no values, and the symbol table is left
/// with them.
pub proof fn law_global_variables(input: Seq<u8>)
    requires
        is_program(input),
        (symbol_names(input)->0).len() >= 4,
    ensures
        ({
            let s = loaded(input);
            let table = blank(input).initialize_singletons().decode_symbols().symbol_table;
            let rib = value_at(s, table, 0);
            &&& symbol_names(input) is Some
            &&& rib is Rib
            &&& s.car(rib) == Object::Number(Primitive::Rib.number())
            &&& s.tag(rib) == Object::Number(CLOSURE_TAG)
            &&& value_at(s, table, 1) == s.false_object
            &&& value_at(s, table, 2) == s.true_object()
            &&& value_at(s, table, 3) == s.nil()
            &&& s.symbol_table == s.tail(table, 4)
            &&& s.lists_symbols(s.symbol_table, (symbol_names(input)->0).skip(4))
        }),
{
    let s = blank(input).initialize_singletons().decode_symbols();
    let t = s.decode_codes();
    let u = t.initialize_globals();
    let v = u.initialize_stack();
    let names = symbol_names(input)->0;
    assert(u.ok);
    assert(t.ok);
    assert(s.ok) by {
        lemma_decode_code_progress(s);
    }
    law_symbol_table(input);
    law_codes_keep_symbols(s, names);
    lemma_globals(t, names);
    law_loaded_machine_is_sound(input);
    let table = s.symbol_table;
    lemma_stack_keeps_ribs(u);
    lemma_symbols_stay(u, v, u.symbol_table, names.skip(4));
    lemma_entries_stay(u, v, table, 4);
    lemma_value_stays(u, v, table, 4, 0);
    lemma_value_stays(u, v, table, 4, 1);
    lemma_value_stays(u, v, table, 4, 2);
    lemma_value_stays(u, v, table, 4, 3);
}

} // verus!
