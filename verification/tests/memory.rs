use ribbit::model::{HEAP_SIZE, SPACE_SIZE};
use ribbit::vm::{get_car_index, get_cdr_index, get_rib_index, get_tag_index};
use ribbit::{Object, Vm};

const PROGRAM: &[u8] = b"#,,,;7#y";

fn number(number: u64) -> Object {
    Object::Number(number)
}

#[test]
fn index_fields() {
    assert_eq!(get_rib_index(Object::Rib(6), 2), 8);
    assert_eq!(get_car_index(Object::Rib(6)), 6);
    assert_eq!(get_cdr_index(Object::Rib(6)), 7);
    assert_eq!(get_tag_index(Object::Number(6)), 8);
}

#[test]
fn tell_ribs_from_numbers() {
    assert!(Object::Rib(3).is_rib());
    assert!(!Object::Number(3).is_rib());
    assert_eq!(Object::Rib(3).to_raw(), 3);
    assert_eq!(Object::Number(4).to_raw(), 4);
}

#[test]
fn pop_what_was_pushed() {
    let mut vm = Vm::new(PROGRAM);
    let place = vm.get_tos_index();

    vm.push(number(1), number(0));
    vm.push(Object::Rib(3), number(7));

    assert_eq!(vm.pop(), Object::Rib(3));
    assert_eq!(vm.pop(), number(1));
    assert_eq!(vm.get_tos_index(), place);
}

#[test]
fn allocate_ribs() {
    let mut vm = Vm::new(PROGRAM);
    let place = vm.get_tos_index();

    let first = vm.allocate_rib(number(1), number(2), number(3));
    let second = vm.allocate_rib2(number(4), number(5), number(6));

    assert_ne!(first, second);
    assert!(first.is_rib());

    let rib = vm.get_rib(first);
    assert_eq!((rib.car, rib.cdr, rib.tag), (number(1), number(2), number(3)));

    let rib = vm.get_rib(second);
    assert_eq!((rib.car, rib.cdr, rib.tag), (number(4), number(5), number(6)));
    assert_eq!(vm.get_tos_index(), place);
}

#[test]
fn write_fields() {
    let mut vm = Vm::new(PROGRAM);
    let rib = vm.allocate_rib(number(1), number(2), number(3));

    *vm.get_car_mut(rib) = number(4);
    assert_eq!(vm.get_car(rib), number(4));
    assert_eq!(vm.get_cdr(rib), number(2));
    assert_eq!(vm.get_tag(rib), number(3));

    *vm.get_cdr_mut(rib) = number(5);
    *vm.get_tag_mut(rib) = number(6);
    assert_eq!(vm.get_car(rib), number(4));
    assert_eq!(vm.get_cdr(rib), number(5));
    assert_eq!(vm.get_tag(rib), number(6));

    *vm.get_rib_mut(rib).cdr_mut() = number(7);
    assert_eq!(vm.get_cdr(rib), number(7));
}

#[test]
fn tell_which_addresses_are_on_heap() {
    let vm = Vm::new(PROGRAM);
    let size = HEAP_SIZE as u64;

    assert_eq!(size, 98304);
    assert!(vm.is_addressable(number(0)));
    assert!(vm.is_addressable(Object::Rib(size - 3)));
    assert!(!vm.is_addressable(Object::Rib(size - 2)));
    assert!(!vm.is_addressable(number(u64::MAX)));
}

#[test]
fn fill_memory() {
    let mut vm = Vm::new(PROGRAM);
    let mut rib = Object::Number(0);

    while vm.has_room() {
        rib = vm.allocate_rib(number(1), number(2), number(3));
    }

    // The last rib of the half is never used.
    assert_eq!(rib, Object::Rib(SPACE_SIZE as u64 - 6));
}

#[test]
fn choose_booleans() {
    let vm = Vm::new(PROGRAM);

    assert_eq!(vm.get_boolean(true), vm.get_true());
    assert_eq!(vm.get_true(), Object::Rib(0));
    assert_eq!(vm.get_nil(), Object::Rib(3));
    assert_eq!(vm.get_boolean(false), Object::Rib(6));
    assert_eq!(vm.get_tag(vm.get_true()), number(5));
    assert_eq!(vm.get_tag(vm.get_nil()), number(5));
    assert_eq!(vm.get_tag(vm.get_boolean(false)), number(5));
}

#[test]
fn measure_lists() {
    let mut vm = Vm::new(PROGRAM);
    let nil = vm.get_nil();

    assert_eq!(vm.get_list_length(nil), Some(number(0)));
    assert_eq!(vm.get_list_length(number(42)), Some(number(0)));

    let list = vm.allocate_rib(number(1), nil, number(0));
    let list = vm.allocate_rib(number(2), list, number(0));
    assert_eq!(vm.get_list_length(list), Some(number(2)));

    // A rib with another tag ends a list.
    let end = vm.allocate_rib(number(1), list, number(1));
    let list = vm.allocate_rib(number(2), end, number(0));
    assert_eq!(vm.get_list_length(list), Some(number(1)));
}

#[test]
fn measure_circular_list() {
    let mut vm = Vm::new(PROGRAM);
    let list = vm.allocate_rib(number(1), number(0), number(0));
    *vm.get_cdr_mut(list) = list;

    assert_eq!(vm.get_list_length(list), None);
}

#[test]
fn measure_list_out_of_heap() {
    let mut vm = Vm::new(PROGRAM);
    let list = vm.allocate_rib(number(1), Object::Rib(HEAP_SIZE as u64), number(0));

    assert_eq!(vm.get_list_length(list), None);
}

#[test]
fn take_tails() {
    let mut vm = Vm::new(PROGRAM);
    let nil = vm.get_nil();
    let first = vm.allocate_rib(number(1), nil, number(0));
    let second = vm.allocate_rib(number(2), first, number(0));

    assert_eq!(vm.get_list_tail(second, number(0)), Some(second));
    assert_eq!(vm.get_list_tail(second, number(1)), Some(first));
    assert_eq!(vm.get_list_tail(second, number(2)), Some(nil));
    assert_eq!(
        vm.get_list_tail(vm.get_list_tail(second, number(1)).unwrap(), number(1)),
        vm.get_list_tail(second, number(2))
    );
    assert_eq!(
        vm.get_list_tail(number(HEAP_SIZE as u64), number(1)),
        None
    );
    assert_eq!(
        vm.get_list_tail(number(HEAP_SIZE as u64), number(0)),
        Some(number(HEAP_SIZE as u64))
    );
}

#[test]
fn find_operands() {
    let mut vm = Vm::new(PROGRAM);
    vm.push(number(1), number(0));
    vm.push(number(2), number(0));
    let variable = vm.allocate_rib(number(3), number(0), number(0));

    assert_eq!(vm.get_operand(number(0)), Some(number(2)));
    assert_eq!(vm.get_operand(number(1)), Some(number(1)));
    assert_eq!(vm.get_operand(variable), Some(number(3)));
    assert_eq!(vm.get_operand(Object::Rib(HEAP_SIZE as u64)), None);
}

#[test]
fn find_continuation() {
    let mut vm = Vm::new(PROGRAM);
    vm.push(number(1), number(0));
    let entry = Object::Rib(vm.get_tos_index() as u64);
    assert_eq!(vm.get_continuation(), Some(entry));

    // Entries with other tags are passed.
    vm.push(number(2), number(1));
    vm.push(number(3), Object::Rib(3));
    assert_eq!(vm.get_continuation(), Some(entry));
}

#[test]
fn find_no_continuation() {
    // The frame at the bottom of the stack has another tag, and there is no end
    // below it.
    assert_eq!(Vm::new(PROGRAM).get_continuation(), None);
}
