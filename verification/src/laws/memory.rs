//! The heap, the stack and lists.
use crate::laws::integrity::lemma_field;
use crate::model::walks::{lemma_extent, lemma_rest_of_walk, lemma_tail_add};
use crate::model::{Machine, Walk};
use crate::object::{Object, PAIR_TAG};
use crate::rib::FIELD_COUNT;
use vstd::prelude::*;

verus! {

impl Machine {
    /// Whether the ribs that another machine has allocated are the same here.
    pub open spec fn extends(self, other: Machine) -> bool {
        &&& self.heap.len() == other.heap.len()
        &&& self.allocation_index >= other.allocation_index
        &&& forall|i: int|
            0 <= i < other.allocation_index ==> #[trigger] self.heap[i] == other.heap[i]
    }

    /// Whether a stack has at least the given number of entries.
    pub open spec fn has_entries(self, stack: Object, count: nat) -> bool
        decreases count,
    {
        count == 0 || stack is Rib && self.has_entries(self.cdr(stack), (count - 1) as nat)
    }
}

/// A value that is pushed is the one that is popped next, and the stack is then
/// the one before.
pub proof fn law_pop_undoes_push(s: Machine, value: Object, tag: Object)
    requires
        s.wf(),
        s.has_room(),
    ensures
        s.push(value, tag).wf(),
        s.push(value, tag).tag(s.push(value, tag).stack) == tag,
        s.push(value, tag).pop() == (value, Machine { stack: s.stack, ..s.push(value, tag) }),
{
}

/// A rib that is allocated has the given fields. No other object on the heap
/// changes, and nothing else of the machine but what is allocated.
pub proof fn law_allocation(s: Machine, car: Object, cdr: Object, tag: Object)
    requires
        s.wf(),
        s.has_room(),
    ensures
        ({
            let (rib, t) = s.allocate(car, cdr, tag);
            &&& t.wf()
            &&& t.car(rib) == car
            &&& t.cdr(rib) == cdr
            &&& t.tag(rib) == tag
            &&& t.heap.len() == s.heap.len()
            &&& forall|i: int|
                0 <= i < s.heap.len() && !(rib.raw() <= i < rib.raw() + FIELD_COUNT)
                    ==> t.heap[i] == s.heap[i]
            &&& t == Machine {
                heap: t.heap,
                allocation_index: s.allocation_index + FIELD_COUNT,
                ..s
            }
        }),
{
}

/// A rib that is allocated is none of those that the machine had before.
pub proof fn law_allocated_rib_is_new(s: Machine, car: Object, cdr: Object, tag: Object)
    requires
        s.sound(),
        s.has_room(),
    ensures
        ({
            let (rib, t) = s.allocate(car, cdr, tag);
            &&& t.extends(s)
            &&& forall|i: int| 0 <= i < s.heap.len() ==> s.heap[i] != rib
            &&& s.stack != rib
            &&& s.program_counter != rib
            &&& s.false_object != rib
            &&& s.symbol_table != rib
        }),
{
    let (rib, t) = s.allocate(car, cdr, tag);
    assert forall|i: int| 0 <= i < s.heap.len() implies s.heap[i] != rib by {
        assert(s.knows(s.heap[i]));
    }
}

/// A field holds what was written to it last; the other objects on the heap
/// stay.
pub proof fn law_write(s: Machine, index: Object, field: int, value: Object)
    requires
        s.wf(),
        0 <= field,
        index.raw() + field < s.heap.len(),
    ensures
        s.write(index, field, value).wf(),
        s.write(index, field, value).field(index, field) == value,
        forall|i: int|
            0 <= i < s.heap.len() && i != index.raw() + field ==> s.write(
                index,
                field,
                value,
            ).heap[i] == s.heap[i],
{
}

/// Dropping elements of a list twice is the same as dropping them at once.
pub proof fn law_tails_compose(s: Machine, list: Object, first: nat, second: nat)
    ensures
        s.tail(s.tail(list, first), second) == s.tail(list, first + second),
{
    lemma_tail_add(s, list, first, second);
}

/// A tail of a list is shorter by the elements that are dropped.
pub proof fn law_length_of_tail(s: Machine, list: Object, count: nat)
    requires
        s.list_length(list) is Some,
        count <= s.list_length(list)->0,
    ensures
        s.list_length(s.tail(list, count)) == Some((s.list_length(list)->0 - count) as nat),
{
    let length = s.list_length(list)->0;
    lemma_rest_of_walk(s, Walk::List, list, length, count);
    lemma_extent(s, Walk::List, s.tail(list, count), (length - count) as nat);
}

/// Allocated lists stay as they are while more ribs are allocated.
pub proof fn law_lists_stay(s: Machine, t: Machine, list: Object, length: nat)
    requires
        s.sound(),
        s.knows(list),
        t.extends(s),
        s.list_length(list) == Some(length),
    ensures
        t.list_length(list) == Some(length),
{
    lemma_list_stays(s, t, list, length);
    lemma_extent(t, Walk::List, list, length);
}

proof fn lemma_list_stays(s: Machine, t: Machine, list: Object, length: nat)
    requires
        s.sound(),
        s.knows(list),
        t.extends(s),
        s.ends_after(Walk::List, list, length),
    ensures
        t.ends_after(Walk::List, list, length),
    decreases length,
{
    if list is Rib {
        lemma_field(s, list, 1);
        if length > 0 {
            lemma_list_stays(s, t, s.cdr(list), (length - 1) as nat);
        }
    }
}

/// A pair in front of a list makes it longer by one.
pub proof fn law_pair_extends_list(s: Machine, element: Object, list: Object, length: nat)
    requires
        s.sound(),
        s.has_room(),
        s.knows(list),
        s.list_length(list) == Some(length),
    ensures
        ({
            let (pair, t) = s.allocate(element, list, Object::Number(PAIR_TAG));
            t.list_length(pair) == Some((length + 1) as nat)
        }),
{
    let (pair, t) = s.allocate(element, list, Object::Number(PAIR_TAG));
    lemma_list_stays(s, t, list, length);
    assert(t.ends_after(Walk::List, pair, (length + 1) as nat));
    lemma_extent(t, Walk::List, pair, (length + 1) as nat);
}

/// The entries of a stack are known and on the heap, and stay where they are
/// while the second fields of ribs stay.
pub(crate) proof fn lemma_entries_stay(s: Machine, t: Machine, stack: Object, count: nat)
    requires
        s.sound(),
        s.knows(stack),
        s.has_entries(stack, count),
        t.heap.len() == s.heap.len(),
        forall|i: int|
            0 <= i < s.allocation_index && i % 3 == 1 ==> #[trigger] t.heap[i] == s.heap[i],
    ensures
        s.has_tail(stack, count),
        s.knows(s.tail(stack, count)),
        t.has_entries(stack, count),
        t.has_tail(stack, count),
        t.tail(stack, count) == s.tail(stack, count),
    decreases count,
{
    if count > 0 {
        lemma_field(s, stack, 1);
        lemma_entries_stay(s, t, s.cdr(stack), (count - 1) as nat);
    }
}

/// A stack with entries has each of them.
pub(crate) proof fn lemma_entry(s: Machine, stack: Object, count: nat, index: nat)
    requires
        s.has_entries(stack, count),
        index < count,
    ensures
        s.tail(stack, index) is Rib,
        s.has_entries(stack, index),
    decreases count,
{
    if index > 0 {
        lemma_entry(s, s.cdr(stack), (count - 1) as nat, (index - 1) as nat);
    }
}

} // verus!
