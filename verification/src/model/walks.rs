//! Facts about lists and about walks along ribs.
use super::{Machine, Walk};
use crate::object::Object;
use crate::rib::FIELD_COUNT;
use vstd::prelude::*;

verus! {

/// A tail of a tail is a tail.
pub proof fn lemma_tail_add(s: Machine, list: Object, first: nat, second: nat)
    ensures
        s.tail(list, first + second) == s.tail(s.tail(list, first), second),
        s.has_tail(list, first + second) <==> s.has_tail(list, first) && s.has_tail(
            s.tail(list, first),
            second,
        ),
    decreases first,
{
    if first > 0 {
        lemma_tail_add(s, s.cdr(list), (first - 1) as nat, second);
    }
}

/// A walk ends at one place only.
proof fn lemma_end_is_unique(s: Machine, walk: Walk, index: Object, first: nat, second: nat)
    requires
        s.ends_after(walk, index, first),
        s.ends_after(walk, index, second),
    ensures
        first == second,
    decreases first,
{
    if first > 0 {
        lemma_end_is_unique(
            s,
            walk,
            s.cdr(index),
            (first - 1) as nat,
            (second - 1) as nat,
        );
    }
}

/// The number of ribs that a walk passes is its extent.
pub proof fn lemma_extent(s: Machine, walk: Walk, index: Object, count: nat)
    requires
        s.ends_after(walk, index, count),
    ensures
        s.extent(walk, index) == Some(count),
{
    let chosen = choose|count: nat| s.ends_after(walk, index, count);
    lemma_end_is_unique(s, walk, index, count, chosen);
}

/// Along a walk, the rest of the walk ends at the same place.
pub proof fn lemma_rest_of_walk(s: Machine, walk: Walk, index: Object, count: nat, passed: nat)
    requires
        s.ends_after(walk, index, count),
        passed <= count,
    ensures
        s.ends_after(walk, s.tail(index, passed), (count - passed) as nat),
    decreases passed,
{
    if passed > 0 {
        lemma_rest_of_walk(
            s,
            walk,
            s.cdr(index),
            (count - 1) as nat,
            (passed - 1) as nat,
        );
    }
}

/// Where a walk goes on from two ribs at the same address, it ends after the
/// same number of ribs.
proof fn lemma_address_decides(s: Machine, walk: Walk, first: Object, second: Object, count: nat)
    requires
        s.goes_on(walk, first),
        s.goes_on(walk, second),
        first.raw() == second.raw(),
        s.ends_after(walk, first, count),
    ensures
        s.ends_after(walk, second, count),
{
}

/// A walk that ends passes no address twice, so that it passes fewer ribs than
/// there are objects on the heap.
pub proof fn lemma_walk_is_short(s: Machine, walk: Walk, index: Object, count: nat)
    requires
        s.ends_after(walk, index, count),
        s.heap.len() >= FIELD_COUNT,
    ensures
        count < s.heap.len(),
{
    let addresses = Seq::new(count, |i: int| s.tail(index, i as nat).raw() as int);
    assert forall|i: int, j: int| 0 <= i < j < count implies addresses[i] != addresses[j] by {
        let first = s.tail(index, i as nat);
        let second = s.tail(index, j as nat);
        lemma_rest_of_walk(s, walk, index, count, i as nat);
        lemma_rest_of_walk(s, walk, index, count, j as nat);
        if first.raw() == second.raw() {
            lemma_address_decides(s, walk, first, second, (count - i) as nat);
            lemma_end_is_unique(s, walk, second, (count - i) as nat, (count - j) as nat);
        }
    }
    assert(addresses.no_duplicates());
    addresses.unique_seq_to_set();
    let bound = (s.heap.len() - 2) as int;
    vstd::set_lib::lemma_int_range(0, bound);
    let range = vstd::set_lib::set_int_range(0, bound);
    assert forall|address: int| addresses.to_set().contains(address) implies range.contains(
        address,
    ) by {
        let i = choose|i: int| 0 <= i < count && addresses[i] == address;
        lemma_rest_of_walk(s, walk, index, count, i as nat);
    }
    vstd::set_lib::lemma_len_subset(addresses.to_set(), range);
}

} // verus!
