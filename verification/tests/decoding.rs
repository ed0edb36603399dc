use ribbit::{Object, Vm};

const PROGRAM: &[u8] = b"#di,!tes-1dleif,1gra,,,,bir;)lk>m?mki#!):nlkl!':nlkm!(:nlku{";

/// Encodes an integer.
fn integer(number: u64) -> Vec<u8> {
    let mut bytes = vec![(number % 46) as u8 + 35];
    let mut rest = number / 46;

    while rest > 0 {
        bytes.insert(0, (rest % 46) as u8 + 46 + 35);
        rest /= 46;
    }

    bytes
}

fn with_bytes(bytes: &[u8]) -> Vec<u8> {
    let mut program = PROGRAM.to_vec();
    program.extend_from_slice(bytes);
    program
}

fn characters(vm: &Vm<'_>, symbol: Object) -> Vec<u8> {
    let string = vm.get_cdr(symbol);
    let mut list = vm.get_car(string);
    let mut characters = vec![];

    while list != vm.get_nil() {
        characters.push(vm.get_car(list).to_raw() as u8);
        list = vm.get_cdr(list);
    }

    assert_eq!(
        vm.get_cdr(string),
        Object::Number(characters.len() as u64)
    );
    assert_eq!(vm.get_tag(string), Object::Number(3));

    characters
}

fn symbol(vm: &Vm<'_>, index: u64) -> Object {
    vm.get_car(vm.get_symbol_ref(Object::Number(index)).unwrap())
}

#[test]
fn load_no_bytes() {
    assert!(Vm::try_new(b"").is_none());
}

#[test]
fn load_unfinished_symbol_table() {
    assert!(Vm::try_new(b"#a,b").is_none());
}

#[test]
fn load_no_code() {
    assert!(Vm::try_new(b"#,,,;").is_none());
}

#[test]
fn load_unfinished_code() {
    assert!(Vm::try_new(&PROGRAM[..PROGRAM.len() - 1]).is_none());
    assert!(Vm::try_new(PROGRAM).is_some());
}

#[test]
fn load_unknown_code() {
    assert!(Vm::try_new(&[b"#,,,;7#".as_slice(), &[35 + 92], b"y"].concat()).is_some());
    assert!(Vm::try_new(&[b"#,,,;7#".as_slice(), &[35 + 93], b"y"].concat()).is_none());
    assert!(Vm::try_new(&[b"#,,,;7#".as_slice(), &[255], b"y"].concat()).is_none());
    assert!(Vm::try_new(b"#,,,;7#y").is_some());
}

#[test]
fn load_too_many_symbols() {
    let mut program = integer(10000);
    program.extend_from_slice(b",,,;7#y");
    assert!(Vm::try_new(&program).is_none());

    let mut program = integer(1000);
    program.extend_from_slice(b",,,;7#y");
    assert!(Vm::try_new(&program).is_some());
}

#[test]
fn load_too_large_integer() {
    let mut program = vec![220; 20];
    program.extend_from_slice(b"#,,,;7#y");
    assert!(Vm::try_new(&program).is_none());
}

#[test]
fn read_bytes_after_program() {
    let program = with_bytes(b"ab");
    let mut vm = Vm::new(&program);

    assert_eq!(vm.read_byte(), 97);
    assert_eq!(vm.read_byte(), 98);
}

#[test]
fn read_codes() {
    let program = with_bytes(&[35, 36, 127, 34, 0, 255]);
    let mut vm = Vm::new(&program);

    assert_eq!(vm.read_code(), 0);
    assert_eq!(vm.read_code(), 1);
    assert_eq!(vm.read_code(), 92);
    assert_eq!(vm.read_code(), 57);
    assert_eq!(vm.read_code(), 57);
    assert_eq!(vm.read_code(), 220);
}

#[test]
fn read_integers() {
    let program = with_bytes(b"#$P~#R%#");
    let mut vm = Vm::new(&program);

    assert_eq!(vm.read_integer(0), Some(0));
    assert_eq!(vm.read_integer(0), Some(1));
    assert_eq!(vm.read_integer(0), Some(45));
    assert_eq!(vm.read_integer(0), Some(45 * 46));
    assert_eq!(vm.read_integer(0), Some(46 + 2));
    assert_eq!(vm.read_integer(2), Some(92));
    assert_eq!(vm.read_integer(0), None);
}

#[test]
fn read_back_integers() {
    for number in [0, 1, 45, 46, 47, 2115, 2116, 98304, u32::MAX as u64, i64::MAX as u64] {
        let program = with_bytes(&integer(number));
        let mut vm = Vm::new(&program);

        assert_eq!(vm.read_integer(0), Some(number as i64));
        assert_eq!(vm.read_integer(0), None);
    }
}

#[test]
fn read_too_large_integer() {
    let program = with_bytes(&integer(i64::MAX as u64 + 1));

    assert_eq!(Vm::new(&program).read_integer(0), None);
}

#[test]
fn name_symbols() {
    let vm = Vm::new(PROGRAM);

    // The first four symbols are gone.
    assert_eq!(characters(&vm, symbol(&vm, 0)), b"arg1");
    assert_eq!(characters(&vm, symbol(&vm, 1)), b"field1-set!");
    assert_eq!(characters(&vm, symbol(&vm, 2)), b"id");
    assert_eq!(vm.get_symbol_ref(Object::Number(3)), Some(Object::Number(0)));

    for index in 0..3 {
        assert_eq!(vm.get_car(symbol(&vm, index)), vm.get_boolean(false));
        assert_eq!(vm.get_tag(symbol(&vm, index)), Object::Number(2));
    }
}

#[test]
fn add_anonymous_symbols() {
    let vm = Vm::new(b"%a,,,,;7#y");

    // There are two anonymous symbols behind the named ones.
    assert_eq!(characters(&vm, symbol(&vm, 0)), b"a");
    assert_eq!(characters(&vm, symbol(&vm, 1)), b"");
    assert_eq!(characters(&vm, symbol(&vm, 2)), b"");
    assert_eq!(vm.get_symbol_ref(Object::Number(3)), Some(Object::Number(0)));
}

#[test]
fn add_symbol() {
    let mut vm = Vm::new(PROGRAM);
    let nil = vm.get_nil();
    let name = vm.allocate_rib(Object::Number(98), nil, Object::Number(0));
    let name = vm.allocate_rib(Object::Number(97), name, Object::Number(0));

    assert_eq!(vm.initialize_symbol(name), Some(()));
    assert_eq!(characters(&vm, symbol(&vm, 0)), b"ab");
    assert_eq!(characters(&vm, symbol(&vm, 1)), b"arg1");
}

#[test]
fn define_globals() {
    // Each symbol takes four ribs: its character, the string, the symbol and an
    // entry of the symbol table.
    let vm = Vm::new(b"#d,c,b,a;7#y");
    let symbol = |index: u64| Object::Rib(9 + 12 * index + 6);

    assert_eq!(characters(&vm, symbol(3)), b"a");
    let rib = vm.get_car(symbol(3));
    assert_eq!(vm.get_car(rib), Object::Number(0));
    assert_eq!(vm.get_tag(rib), Object::Number(1));
    assert_eq!(characters(&vm, symbol(2)), b"b");
    assert_eq!(vm.get_car(symbol(2)), vm.get_boolean(false));
    assert_eq!(characters(&vm, symbol(1)), b"c");
    assert_eq!(vm.get_car(symbol(1)), vm.get_boolean(true));
    assert_eq!(characters(&vm, symbol(0)), b"d");
    assert_eq!(vm.get_car(symbol(0)), vm.get_nil());
    assert_eq!(vm.get_symbol_ref(Object::Number(0)), Some(Object::Number(0)));
}

#[test]
fn define_another_global() {
    let mut vm = Vm::new(PROGRAM);
    let symbol = symbol(&vm, 0);

    assert_eq!(vm.initialize_global(Object::Number(42)), Some(()));
    assert_eq!(vm.get_car(symbol), Object::Number(42));
    assert_eq!(characters(&vm, self::symbol(&vm, 0)), b"field1-set!");
}

#[test]
fn start_on_frame_that_halts() {
    let mut vm = Vm::new(PROGRAM);
    let frame = Object::Rib(228);

    assert_eq!(vm.get_tos_index(), 228);
    assert_eq!(vm.get_car(frame), Object::Number(0));
    assert_eq!(vm.get_cdr(frame), Object::Number(0));

    let halt = vm.get_tag(frame);
    assert_eq!(halt, Object::Rib(225));
    assert_eq!(vm.get_car(halt), Object::Number(5));
    assert_eq!(vm.pop(), Object::Number(0));
}

#[test]
fn decode_instructions() {
    // The program pushes zero and one, and calls the procedure below the top.
    let vm = Vm::new(b"#,,,;7$lky");
    let code = 9 + 36 + 6;

    // The last instruction comes first, and has no other one behind it.
    let jump = Object::Rib(code - 3);
    assert_eq!(vm.get_car(jump), Object::Number(0));
    assert_eq!(vm.get_cdr(jump), Object::Number(1));
    assert_eq!(vm.get_tag(jump), Object::Number(0));

    let push_one = Object::Rib(code);
    assert_eq!(vm.get_car(push_one), Object::Number(3));
    assert_eq!(vm.get_cdr(push_one), Object::Number(1));
    assert_eq!(vm.get_tag(push_one), jump);

    let push_zero = Object::Rib(code + 3);
    assert_eq!(vm.get_car(push_zero), Object::Number(3));
    assert_eq!(vm.get_cdr(push_zero), Object::Number(0));
    assert_eq!(vm.get_tag(push_zero), push_one);
}
