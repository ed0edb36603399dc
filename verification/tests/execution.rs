use ribbit::instruction::{APPLY, CONSTANT, GET, HALT, IF, SET};
use ribbit::primitive::{Comparison, Operator};
use ribbit::{Error, Object, Primitive, Status, Step, Streams, Vm};

const PROGRAM: &[u8] = b"#,,,;7#y";

const RUNNING: Step = Step {
    output: None,
    status: Status::Running,
};

/// The place of the first character of the first name on the heap.
const FIRST_CHARACTER: u64 = 9;

fn number(number: u64) -> Object {
    Object::Number(number)
}

fn streams(input: &[u8]) -> Streams<'_> {
    Streams {
        input,
        position: 0,
        output: vec![],
    }
}

fn integer(number: u64) -> Vec<u8> {
    let mut bytes = vec![(number % 46) as u8 + 35];
    let mut rest = number / 46;

    while rest > 0 {
        bytes.insert(0, (rest % 46) as u8 + 46 + 35);
        rest /= 46;
    }

    bytes
}

/// Encodes instructions with operands that are numbers. The last one is a jump.
fn encode(characters: &[u8], instructions: &[(u64, u64)]) -> Vec<u8> {
    let mut program = integer(0);
    program.extend_from_slice(characters);
    program.extend_from_slice(b",,,;");

    for (index, (instruction, operand)) in instructions.iter().rev().enumerate() {
        program.push(
            35 + match *instruction {
                APPLY if index == 0 => 20,
                APPLY => 53,
                SET => 56,
                GET => 69,
                CONSTANT => 83,
                _ => unreachable!(),
            },
        );
        program.extend(integer(*operand));
    }

    program.extend_from_slice(b"y");
    program
}

/// The place of the first rib that a program allocates.
fn first_rib(characters: &[u8], instructions: &[(u64, u64)]) -> u64 {
    let ribs = 3 + characters.len() + 12 + 2 + (instructions.len() - 1) + 2 + 1 + 2;

    3 * ribs as u64
}

/// Completes a program that starts with a push. It ends with a jump to the halt
/// instruction: the first entry that is pushed leads to the frame at the bottom
/// of the stack, and the tag of the frame to the halt instruction.
fn program(characters: &[u8], instructions: &[(u64, u64)]) -> Vec<u8> {
    let mut instructions = instructions.to_vec();
    instructions.push((CONSTANT, 0));
    instructions.push((APPLY, 0));
    let end = first_rib(characters, &instructions) + 1;
    let index = instructions.len() - 2;
    instructions[index] = (CONSTANT, end);

    encode(characters, &instructions)
}

fn primitive(primitive: Primitive, stack: &[Object]) -> Option<Object> {
    let mut vm = Vm::new(PROGRAM);
    let place = vm.get_tos_index();

    for object in stack.iter().rev() {
        vm.push(*object, number(0));
    }

    assert_eq!(vm.operate_primitive(primitive, 0)?, None);
    let object = vm.pop();
    assert_eq!(vm.get_tos_index(), place);
    Some(object)
}

// Primitives

#[test]
fn number_primitives() {
    assert_eq!(Primitive::from_raw(0), Some(Primitive::Rib));
    assert_eq!(Primitive::from_raw(5), Some(Primitive::IsRib));
    assert_eq!(Primitive::from_raw(9), Some(Primitive::SetField0));
    assert_eq!(Primitive::from_raw(14), Some(Primitive::Add));
    assert_eq!(Primitive::from_raw(18), Some(Primitive::GetC));
    assert_eq!(Primitive::from_raw(19), Some(Primitive::PutC));
    assert_eq!(Primitive::from_raw(20), None);
    assert_eq!(Primitive::from_raw(u64::MAX), None);
}

#[test]
fn calculate() {
    let calculate = |kind, x, y| primitive(kind, &[number(x), number(y)]);

    assert_eq!(calculate(Primitive::Add, 7, 2), Some(number(9)));
    assert_eq!(calculate(Primitive::Subtract, 7, 2), Some(number(5)));
    assert_eq!(calculate(Primitive::Multiply, 7, 2), Some(number(14)));
    assert_eq!(calculate(Primitive::Divide, 7, 2), Some(number(3)));
}

#[test]
fn calculate_nothing() {
    let calculate = |kind, x, y| primitive(kind, &[number(x), number(y)]);

    assert_eq!(calculate(Primitive::Add, u64::MAX, 0), Some(number(u64::MAX)));
    assert_eq!(calculate(Primitive::Add, u64::MAX, 1), None);
    assert_eq!(calculate(Primitive::Subtract, 2, 7), None);
    assert_eq!(calculate(Primitive::Multiply, u64::MAX, 2), None);
    assert_eq!(calculate(Primitive::Divide, 7, 0), None);
}

#[test]
fn calculate_directly() {
    let mut vm = Vm::new(PROGRAM);
    vm.push(number(2), number(0));
    vm.push(number(7), number(0));

    assert_eq!(vm.operate_binary(Operator::Subtract), Some(()));
    assert_eq!(vm.pop(), number(5));
    assert_eq!(Operator::Divide.calculate(7, 2), Some(3));
    assert_eq!(Operator::Divide.calculate(7, 0), None);
}

#[test]
fn compare() {
    let vm = Vm::new(PROGRAM);
    let compare = |kind, x, y| primitive(kind, &[number(x), number(y)]);
    let (yes, no) = (Some(vm.get_true()), Some(vm.get_boolean(false)));

    assert_eq!(compare(Primitive::Equal, 7, 7), yes);
    assert_eq!(compare(Primitive::Equal, 7, 2), no);
    assert_eq!(compare(Primitive::LessThan, 2, 7), yes);
    assert_eq!(compare(Primitive::LessThan, 7, 2), no);
    assert_eq!(compare(Primitive::LessThan, 7, 7), no);
}

#[test]
fn compare_directly() {
    let mut vm = Vm::new(PROGRAM);
    vm.push(number(7), number(0));
    vm.push(number(2), number(0));

    assert_eq!(vm.operate_comparison(Comparison::LessThan), Some(()));
    assert_eq!(vm.pop(), vm.get_true());
    assert!(Comparison::Equal.test(1, 1));
    assert!(!Comparison::LessThan.test(1, 1));
}

#[test]
fn compare_number_with_rib() {
    // Only the raw values count.
    assert_eq!(
        primitive(Primitive::Equal, &[number(3), Object::Rib(3)]),
        Some(Object::Rib(0))
    );
}

#[test]
fn keep_and_drop_values() {
    assert_eq!(primitive(Primitive::Id, &[number(1)]), Some(number(1)));
    assert_eq!(
        primitive(Primitive::Pop, &[number(1), number(2)]),
        Some(number(2))
    );
    assert_eq!(
        primitive(Primitive::Skip, &[number(1), number(2)]),
        Some(number(1))
    );
}

#[test]
fn make_rib() {
    let mut vm = Vm::new(PROGRAM);
    vm.push(number(3), number(0));
    vm.push(number(2), number(0));
    vm.push(number(1), number(0));

    assert_eq!(vm.operate_primitive(Primitive::Rib, 0), Some(None));
    let rib = vm.pop();
    assert_eq!(vm.get_car(rib), number(1));
    assert_eq!(vm.get_cdr(rib), number(2));
    assert_eq!(vm.get_tag(rib), number(3));
}

#[test]
fn close_procedure() {
    let mut vm = Vm::new(PROGRAM);
    let stack = Object::Rib(vm.get_tos_index() as u64);
    let procedure = vm.allocate_rib(number(42), number(0), number(1));
    vm.push(procedure, number(0));

    assert_eq!(vm.operate_primitive(Primitive::Close, 0), Some(None));
    let closure = vm.pop();
    assert_ne!(closure, procedure);
    assert_eq!(vm.get_car(closure), number(42));
    assert_eq!(vm.get_cdr(closure), stack);
    assert_eq!(vm.get_tag(closure), number(1));
    assert_eq!(vm.get_cdr(procedure), number(0));
}

#[test]
fn tell_ribs_from_numbers_on_stack() {
    assert_eq!(
        primitive(Primitive::IsRib, &[Object::Rib(3)]),
        Some(Object::Rib(0))
    );
    assert_eq!(
        primitive(Primitive::IsRib, &[number(3)]),
        Some(Object::Rib(6))
    );
}

#[test]
fn get_fields() {
    // The false object leads to the true and the nil object.
    let object = Object::Rib(6);

    assert_eq!(primitive(Primitive::Field0, &[object]), Some(Object::Rib(0)));
    assert_eq!(primitive(Primitive::Field1, &[object]), Some(Object::Rib(3)));
    assert_eq!(primitive(Primitive::Field2, &[object]), Some(number(5)));
    assert_eq!(primitive(Primitive::Field0, &[number(u64::MAX)]), None);
}

#[test]
fn set_fields() {
    let mut vm = Vm::new(PROGRAM);
    let rib = vm.allocate_rib(number(1), number(2), number(3));
    let mut set = |primitive, value| {
        vm.push(value, number(0));
        vm.push(rib, number(0));
        assert_eq!(vm.operate_primitive(primitive, 0), Some(None));
        assert_eq!(vm.pop(), value);
        let rib = vm.get_rib(rib);
        (rib.car, rib.cdr, rib.tag)
    };

    assert_eq!(
        set(Primitive::SetField0, number(4)),
        (number(4), number(2), number(3))
    );
    assert_eq!(
        set(Primitive::SetField1, number(5)),
        (number(4), number(5), number(3))
    );
    assert_eq!(
        set(Primitive::SetField2, number(6)),
        (number(4), number(5), number(6))
    );
    assert_eq!(
        primitive(Primitive::SetField0, &[number(u64::MAX), number(0)]),
        None
    );
}

#[test]
fn read_byte_of_input() {
    let mut vm = Vm::new(PROGRAM);

    assert_eq!(vm.operate_primitive(Primitive::GetC, 65), Some(None));
    assert_eq!(vm.pop(), number(65));
}

#[test]
fn write_low_byte() {
    let mut vm = Vm::new(PROGRAM);
    vm.push(number(65 + 3 * 256), number(0));
    vm.push(number(255), number(0));

    assert_eq!(vm.operate_primitive(Primitive::PutC, 0), Some(Some(255)));
    assert_eq!(vm.operate_primitive(Primitive::PutC, 0), Some(Some(65)));
}

// Instructions

#[test]
fn halt() {
    let program = program(b"", &[]);
    let mut vm = Vm::new(&program);

    assert_eq!(vm.step(None), RUNNING);
    assert_eq!(vm.step(None), RUNNING);

    for _ in 0..2 {
        assert_eq!(
            vm.step(None),
            Step {
                output: None,
                status: Status::Halted,
            }
        );
    }

    assert_eq!(HALT, 5);
}

#[test]
fn push_constant() {
    let program = program(b"", &[(CONSTANT, 42)]);
    let mut vm = Vm::new(&program);
    let place = vm.get_tos_index();

    assert_eq!(vm.step(None), RUNNING);
    assert_eq!(vm.pop(), number(42));
    assert_eq!(vm.get_tos_index(), place);
}

#[test]
fn push_local_variable() {
    let program = program(b"", &[(CONSTANT, 42), (CONSTANT, 7), (GET, 1)]);
    let mut vm = Vm::new(&program);

    for _ in 0..3 {
        assert_eq!(vm.step(None), RUNNING);
    }

    assert_eq!(vm.pop(), number(42));
    assert_eq!(vm.pop(), number(7));
    assert_eq!(vm.pop(), number(42));
}

#[test]
fn assign_local_variable() {
    let program = program(b"", &[(CONSTANT, 1), (CONSTANT, 2), (CONSTANT, 42), (SET, 1)]);
    let mut vm = Vm::new(&program);

    for _ in 0..4 {
        assert_eq!(vm.step(None), RUNNING);
    }

    assert_eq!(vm.pop(), number(2));
    assert_eq!(vm.pop(), number(42));
}

#[test]
fn assign_global_variable() {
    // The last symbol is assigned to and read again.
    let mut program = b"#,,,,;7#".to_vec();
    program.extend_from_slice(&[35 + 59 + 11, 35 + 4, 35 + 56 + 1, 35 + 4, 35 + 72 + 7, 35 + 86]);
    let mut vm = Vm::new(&program);

    for _ in 0..3 {
        assert_eq!(vm.step(None), RUNNING);
    }

    assert_eq!(vm.pop(), number(7));
    assert_eq!(
        vm.get_car(vm.get_symbol_ref(number(0)).unwrap()),
        number(7)
    );
}

#[test]
fn branch() {
    // The program pushes two if the condition holds, and one otherwise.
    let branch = |condition: u8| {
        let mut program = b"#,,,;".to_vec();
        program.extend_from_slice(&[35 + 20, 35, 35 + 72 + 1]);
        program.extend_from_slice(&[35 + 20, 35, 35 + 72 + 2]);
        program.extend_from_slice(&[35 + 91, 35 + 72 + condition, 35 + 86]);
        let mut vm = Vm::new(&program);

        for _ in 0..3 {
            assert_eq!(vm.step(None), RUNNING);
        }

        vm.pop()
    };

    assert_eq!(branch(0), number(2));
    assert_eq!(branch(5), number(2));
    // The number of the false object is as good as the object.
    assert_eq!(branch(6), number(1));
    assert_eq!(IF, 4);
}

#[test]
fn call_procedure() {
    // A procedure with two arguments is pushed, and then the arguments.
    let mut program = b"#,,,;".to_vec();
    program.extend_from_slice(&[35 + 20, 35]);
    program.extend_from_slice(&[35 + 53, 35 + 2, 35 + 72 + 2, 35 + 72 + 1]);
    // The procedure pushes nine.
    program.extend_from_slice(&[35 + 20, 35, 35 + 72 + 9, 35 + 86 + 2]);
    program.extend_from_slice(&[35 + 86]);
    let mut vm = Vm::new(&program);
    let place = vm.get_tos_index() as u64;

    for _ in 0..3 {
        assert_eq!(vm.step(None), RUNNING);
    }

    let procedure = vm.get_procedure().unwrap();
    let code = vm.get_code().unwrap();
    assert_eq!(vm.get_car(procedure), code);
    assert_eq!(vm.get_car(code), number(2));

    assert_eq!(vm.step(None), RUNNING);

    // The arguments are there in reverse, on top of a frame.
    assert_eq!(vm.pop(), number(1));
    assert_eq!(vm.pop(), number(2));
    let frame = Object::Rib(vm.get_tos_index() as u64);
    assert_eq!(vm.get_car(frame), Object::Rib(place + 3));
    assert_eq!(vm.get_cdr(frame), procedure);
    assert_eq!(vm.get_tag(frame), Object::Rib(48));
    // The instruction is as it was.
    assert_eq!(vm.get_car(Object::Rib(51)), number(0));

    assert_eq!(vm.step(None), RUNNING);
    assert_eq!(vm.pop(), number(9));
}

#[test]
fn jump_to_procedure() {
    // The procedure has no arguments.
    let mut program = b"#,,,;".to_vec();
    program.extend_from_slice(&[35 + 20, 35]);
    program.extend_from_slice(&[35 + 20, 35, 35 + 72 + 9, 35 + 86]);
    program.extend_from_slice(&[35 + 86]);
    let mut vm = Vm::new(&program);

    assert_eq!(vm.step(None), RUNNING);
    let procedure = vm.get_procedure().unwrap();
    let continuation = vm.get_continuation().unwrap();
    assert_eq!(vm.step(None), RUNNING);

    // The frame takes over what the continuation holds.
    let frame = Object::Rib(vm.get_tos_index() as u64);
    assert_eq!(vm.get_car(frame), vm.get_car(continuation));
    assert_eq!(vm.get_cdr(frame), procedure);
    assert_eq!(vm.get_tag(frame), vm.get_tag(continuation));
    assert_eq!(vm.step(None), RUNNING);
    assert_eq!(vm.pop(), number(9));
}

#[test]
fn return_from_primitive() {
    // The identity is called in the place of a jump. The entry that it pushes is
    // also the continuation.
    let program = encode(&[1], &[(CONSTANT, FIRST_CHARACTER), (APPLY, 0)]);
    let mut vm = Vm::new(&program);

    assert_eq!(vm.step(None), RUNNING);
    assert_eq!(vm.step(None), RUNNING);

    let entry = Object::Rib(vm.get_tos_index() as u64);
    assert_eq!(vm.get_car(entry), number(FIRST_CHARACTER));
    assert_eq!(vm.get_cdr(entry), number(FIRST_CHARACTER));
}

#[test]
fn fail_at_illegal_instruction() {
    // The first code of all is written over the first object on the heap, which
    // the program takes for an instruction then.
    let mut program = b"#\x01,,,;".to_vec();
    program.extend_from_slice(&[35 + 72, 35 + 20, 35, 35 + 72 + FIRST_CHARACTER as u8, 35 + 86]);
    let mut vm = Vm::new(&program);

    assert_eq!(vm.step(None), RUNNING);
    assert_eq!(vm.step(None), RUNNING);
    assert_eq!(
        vm.step(None),
        Step {
            output: None,
            status: Status::Failed(Error::IllegalInstruction),
        }
    );
    assert_eq!(
        Vm::new(&program).run(&mut streams(&[])),
        Err(Error::IllegalInstruction)
    );
}

#[test]
fn fail_at_illegal_primitive() {
    let program = encode(&[20], &[(CONSTANT, FIRST_CHARACTER), (APPLY, 0)]);
    let mut vm = Vm::new(&program);

    assert_eq!(vm.step(None), RUNNING);
    assert_eq!(
        vm.step(None),
        Step {
            output: None,
            status: Status::Failed(Error::IllegalPrimitive),
        }
    );
    // Nothing has changed.
    assert_eq!(vm.pop(), number(FIRST_CHARACTER));
    assert_eq!(
        Vm::new(&program).run(&mut streams(&[])),
        Err(Error::IllegalPrimitive)
    );
}

#[test]
fn fault_outside_of_heap() {
    let program = encode(b"", &[(CONSTANT, 100000), (APPLY, 0)]);
    let mut vm = Vm::new(&program);

    assert_eq!(vm.step(None), RUNNING);
    assert_eq!(
        vm.step(None),
        Step {
            output: None,
            status: Status::Faulted,
        }
    );
}

#[test]
fn fault_without_continuation() {
    // The primitive that writes leaves no ordinary entry on the stack.
    let program = encode(&[19], &[(CONSTANT, FIRST_CHARACTER), (APPLY, 0)]);
    let mut vm = Vm::new(&program);

    assert_eq!(vm.step(None), RUNNING);
    assert_eq!(
        vm.step(None),
        Step {
            output: Some(FIRST_CHARACTER as u8),
            status: Status::Faulted,
        }
    );
}

// Programs

/// A program that writes a byte of the input.
fn echo() -> Vec<u8> {
    program(
        &[18, 19],
        &[
            (CONSTANT, FIRST_CHARACTER + 3),
            (CONSTANT, FIRST_CHARACTER),
            (APPLY, 0),
            (APPLY, 2),
        ],
    )
}

#[test]
fn ask_for_input() {
    let program = echo();
    let mut vm = Vm::new(&program);

    assert_eq!(vm.step(None), RUNNING);
    // A byte that is not asked for has no effect.
    assert_eq!(vm.step(Some(1)), RUNNING);

    for _ in 0..2 {
        assert_eq!(
            vm.step(None),
            Step {
                output: None,
                status: Status::Reading,
            }
        );
    }

    assert_eq!(vm.step(Some(65)), RUNNING);
    assert_eq!(
        vm.step(None),
        Step {
            output: Some(65),
            status: Status::Running,
        }
    );
}

#[test]
fn run_with_input() {
    let program = echo();
    let mut streams = streams(b"AB");
    streams.output.push(42);

    assert_eq!(Vm::new(&program).run(&mut streams), Ok(()));
    assert_eq!(streams.output, [42, 65]);
    assert_eq!(streams.position, 1);
    assert_eq!(streams.input, b"AB");
}

#[test]
fn run_with_rest_of_input() {
    let program = echo();
    let mut streams = streams(b"AB");
    streams.position = 1;

    assert_eq!(Vm::new(&program).run(&mut streams), Ok(()));
    assert_eq!(streams.output, b"B");
    assert_eq!(streams.position, 2);
}

#[test]
fn run_for_steps() {
    let program = echo();

    for (limit, result) in [(6, None), (7, Some(Ok(()))), (1000, Some(Ok(())))] {
        let mut streams = streams(b"A");

        assert_eq!(Vm::new(&program).run_for(&mut streams, limit), result);
        assert_eq!(streams.output, b"A");
        assert_eq!(streams.position, 1);
    }
}

#[test]
fn run_without_input() {
    let program = echo();
    let mut streams = streams(b"");

    assert_eq!(Vm::new(&program).run_for(&mut streams, 1000), None);
    assert_eq!(streams.output, b"");
}

#[test]
fn run_to_error() {
    let program = encode(&[20], &[(CONSTANT, FIRST_CHARACTER), (APPLY, 0)]);

    assert_eq!(
        Vm::new(&program).run_for(&mut streams(b""), 1000),
        Some(Err(Error::IllegalPrimitive))
    );
}

#[test]
fn step_with_streams() {
    let program = echo();
    let mut vm = Vm::new(&program);
    let mut streams = streams(b"A");
    let mut statuses = vec![];

    for _ in 0..7 {
        statuses.push(vm.step_on(&mut streams));
    }

    assert_eq!(
        statuses,
        [
            Status::Running,
            Status::Running,
            Status::Running,
            Status::Running,
            Status::Running,
            Status::Running,
            Status::Halted,
        ]
    );
    assert_eq!(streams.output, b"A");
}

#[test]
fn run_out_of_memory() {
    // This program has no end.
    let mut vm = Vm::new(b");'u?>vD?>vRD?>vRA?>vRA?>vR:?>vR=!(:lkm!':lkv6y");
    let mut streams = streams(b"");

    assert_eq!(vm.run_for(&mut streams, 1000), None);
    assert_eq!(vm.run_for(&mut streams, 1000000), None);
    assert!(!vm.has_room());
}
