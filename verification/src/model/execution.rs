//! What instructions and primitives do.
use super::{zero, Machine};
use crate::error::Error;
use crate::instruction::{APPLY, CONSTANT, GET, HALT, IF, SET};
use crate::object::{Object, CLOSURE_TAG, PAIR_TAG};
use crate::primitive::{Comparison, Operator, Primitive};
use crate::vm::Status;
use vstd::prelude::*;

verus! {

/// What comes of one instruction.
#[verifier::ext_equal]
pub struct Transition {
    pub machine: Machine,
    /// The character that is written, by its code.
    pub output: Option<u8>,
    pub status: Status,
}

/// What comes of a program that ends.
#[verifier::ext_equal]
pub struct Run {
    pub result: Result<(), Error>,
    pub machine: Machine,
    /// The characters that are written, in order.
    pub output: Seq<u8>,
    /// The number of bytes that are read.
    pub consumed: nat,
}

impl Machine {
    // Primitives
    /// Pops two numbers and pushes the result of an operation, if it has one.
    pub open spec fn operate_binary(self, operator: Operator) -> Machine {
        let (x, s) = self.pop();
        let (y, s) = s.pop();
        match operator.result(x.raw(), y.raw()) {
            Some(result) => s.push_value(Object::Number(result)),
            None => s.check(false),
        }
    }

    /// Pops two numbers and pushes whether a condition holds of them.
    pub open spec fn operate_comparison(self, comparison: Comparison) -> Machine {
        let (x, s) = self.pop();
        let (y, s) = s.pop();
        s.push_value(s.boolean(comparison.holds(x.raw(), y.raw())))
    }

    /// Pops a rib and pushes one of its fields.
    pub open spec fn get_field(self, field: int) -> Machine {
        let (x, s) = self.pop();
        s.check(s.addressable(x)).push_value(s.field(x, field))
    }

    /// Pops a rib and a value, and writes the value into a field of the rib.
    pub open spec fn set_field(self, field: int) -> Machine {
        let (x, s) = self.pop();
        let (y, s) = s.pop();
        s.write(x, field, y).push_value(y)
    }

    /// Pops the top of the stack into a field of a rib.
    pub open spec fn pop_into(self, rib: Object, field: int) -> Machine {
        let (x, s) = self.pop();
        s.write(rib, field, x)
    }

    /// Executes a primitive. `byte` is the next byte of the input.
    pub open spec fn operate_primitive(self, primitive: Primitive, byte: u8) -> Machine {
        match primitive {
            Primitive::Rib => {
                let (rib, s) = self.allocate(zero(), zero(), zero());
                s.pop_into(rib, 0).pop_into(rib, 1).pop_into(rib, 2).push_value(rib)
            },
            Primitive::Id => {
                let (x, s) = self.pop();
                s.push_value(x)
            },
            Primitive::Pop => self.pop().1,
            Primitive::Skip => {
                let (x, s) = self.pop();
                s.pop().1.push_value(x)
            },
            Primitive::Close => {
                let top = self.car(self.stack);
                let s = self.check(self.addressable(self.stack) && self.addressable(top));
                let (closure, s) = s.allocate(
                    self.car(top),
                    self.cdr(self.stack),
                    Object::Number(CLOSURE_TAG),
                );
                s.write(s.stack, 0, closure)
            },
            Primitive::IsRib => {
                let (x, s) = self.pop();
                s.push_value(s.boolean(x is Rib))
            },
            Primitive::Field0 => self.get_field(0),
            Primitive::Field1 => self.get_field(1),
            Primitive::Field2 => self.get_field(2),
            Primitive::SetField0 => self.set_field(0),
            Primitive::SetField1 => self.set_field(1),
            Primitive::SetField2 => self.set_field(2),
            Primitive::Equal => self.operate_comparison(Comparison::Equal),
            Primitive::LessThan => self.operate_comparison(Comparison::LessThan),
            Primitive::Add => self.operate_binary(Operator::Add),
            Primitive::Subtract => self.operate_binary(Operator::Subtract),
            Primitive::Multiply => self.operate_binary(Operator::Multiply),
            Primitive::Divide => self.operate_binary(Operator::Divide),
            Primitive::GetC => self.push_value(Object::Number(byte as u64)),
            Primitive::PutC => self.pop().1,
        }
    }

    /// The character that a primitive writes: the low byte of the top of the
    /// stack.
    pub open spec fn written(self, primitive: Primitive) -> Option<u8> {
        if primitive is PutC {
            Some((self.car(self.stack).raw() % 256) as u8)
        } else {
            None
        }
    }

    // Instructions
    /// Leaves a primitive: moves on to the next instruction, or, after a jump,
    /// returns to the continuation.
    pub open spec fn leave_primitive(self, jump: bool) -> Machine {
        if jump {
            match self.continuation() {
                Some(frame) => {
                    let s = Machine { program_counter: frame, ..self };
                    s.write(s.stack, 1, s.car(frame)).advance()
                },
                None => self.check(false),
            }
        } else {
            self.advance()
        }
    }

    /// Pops arguments and puts each in front of a new list of them.
    pub open spec fn pop_arguments(self, arguments: Object, count: nat) -> (Object, Machine)
        decreases count,
    {
        if count == 0 || !self.ok {
            (arguments, self)
        } else {
            let (x, s) = self.pop();
            let (arguments, s) = s.allocate(x, arguments, Object::Number(PAIR_TAG));
            s.pop_arguments(arguments, (count - 1) as nat)
        }
    }

    /// Fills in where a call returns to: the stack and the instruction after
    /// the call, or, for a jump, those of the continuation.
    pub open spec fn link(self, frame: Object, jump: bool) -> Machine {
        if jump {
            match self.continuation() {
                Some(continuation) => {
                    let s = self.write(frame, 0, self.car(continuation));
                    s.write(frame, 2, s.tag(continuation))
                },
                None => self.check(false),
            }
        } else {
            let s = self.write(frame, 0, self.stack);
            s.write(frame, 2, s.tag(s.program_counter))
        }
    }

    /// Calls a procedure whose code is a rib.
    pub open spec fn call(self, jump: bool) -> Machine {
        let instruction = self.car(self.program_counter);
        let code = self.code();
        let count = self.car(code).raw() as nat;
        // The code is kept in the instruction while the frame is built.
        let s = self.check(self.addressable(code)).write(self.program_counter, 0, code);
        let s = s.check(s.has_procedure());
        let (frame, s) = s.allocate(zero(), s.procedure(), Object::Number(PAIR_TAG));
        let (arguments, s) = s.pop_arguments(frame, count);
        let s = s.check(s.has_tail(arguments, count));
        let s = s.link(s.tail(arguments, count), jump);
        let code = s.car(s.program_counter);
        let s = s.write(s.program_counter, 0, instruction);
        Machine {
            stack: arguments,
            program_counter: s.tag(code),
            ok: s.ok && s.addressable(code),
            ..s
        }
    }

    /// Assigns the top of the stack to a variable.
    pub open spec fn assign(self) -> Machine {
        let (x, s) = self.pop();
        let operand = s.cdr(s.program_counter);
        s.check(s.has_operand_rib(operand)).write(s.operand_rib(operand), 0, x).advance()
    }

    /// Pushes the value of a variable.
    pub open spec fn load(self) -> Machine {
        self.check(self.has_procedure()).push_value(self.procedure()).advance()
    }

    /// Pushes a constant.
    pub open spec fn load_constant(self) -> Machine {
        self.push_value(self.cdr(self.program_counter)).advance()
    }

    /// Pops a value and branches on whether it is the false object.
    pub open spec fn branch(self) -> Machine {
        let (x, s) = self.pop();
        Machine {
            program_counter: if x.raw() != s.false_object.raw() {
                s.cdr(s.program_counter)
            } else {
                s.tag(s.program_counter)
            },
            ..s
        }
    }

    /// Nothing changes.
    pub open spec fn stay(self, status: Status) -> Transition {
        Transition { machine: self, output: None, status }
    }

    /// The machine goes on, if the operations could be carried out.
    pub open spec fn go_on(self, output: Option<u8>) -> Transition {
        Transition {
            machine: self,
            output,
            status: if self.ok {
                Status::Running
            } else {
                Status::Faulted
            },
        }
    }

    /// Whether the current call is a jump: no instruction follows it.
    pub open spec fn jumps(self) -> bool {
        self.tag(self.program_counter) == zero()
    }

    /// Applies a procedure. `input` is the next byte of the input, if it is
    /// there already.
    pub open spec fn apply(self, input: Option<u8>) -> Transition {
        let code = self.code();
        if !self.has_code() {
            self.stay(Status::Faulted)
        } else if code is Rib {
            self.call(self.jumps()).go_on(None)
        } else {
            match Primitive::of(code.raw()) {
                None => self.stay(Status::Failed(Error::IllegalPrimitive)),
                Some(primitive) => if primitive is GetC && input is None {
                    self.stay(Status::Reading)
                } else {
                    let byte = if input is Some {
                        input->0
                    } else {
                        0
                    };
                    let s = self.operate_primitive(primitive, byte);
                    if s.ok {
                        s.leave_primitive(self.jumps()).go_on(self.written(primitive))
                    } else {
                        s.go_on(None)
                    }
                },
            }
        }
    }

    /// Executes one instruction. `input` is the next byte of the input, if it
    /// is there already.
    pub open spec fn step(self, input: Option<u8>) -> Transition {
        let instruction = self.car(self.program_counter).raw();
        if !self.addressable(self.program_counter) {
            self.stay(Status::Faulted)
        } else if instruction == HALT {
            self.stay(Status::Halted)
        } else if instruction == APPLY {
            self.apply(input)
        } else if instruction == SET {
            self.assign().go_on(None)
        } else if instruction == GET {
            self.load().go_on(None)
        } else if instruction == CONSTANT {
            self.load_constant().go_on(None)
        } else if instruction == IF {
            self.branch().go_on(None)
        } else {
            self.stay(Status::Failed(Error::IllegalInstruction))
        }
    }

    // Programs
    /// Executes one instruction with a byte of the input if it asks for one.
    #[verifier::opaque]
    pub open spec fn step_on(self, input: Seq<u8>) -> Transition {
        let transition = self.step(None);
        if transition.status is Reading && input.len() > 0 {
            self.step(Some(input[0]))
        } else {
            transition
        }
    }

    /// The number of bytes that the next instruction reads.
    #[verifier::opaque]
    pub open spec fn demand(self) -> nat {
        if self.step(None).status is Reading {
            1
        } else {
            0
        }
    }

    /// Executes a program on an input, if it ends within a number of steps
    /// without a fault and without reading past the end of the input.
    pub open spec fn run(self, input: Seq<u8>, steps: nat) -> Option<Run>
        decreases steps,
    {
        let transition = self.step_on(input);
        if steps == 0 {
            None
        } else {
            match transition.status {
                Status::Halted => Some(
                    Run { result: Ok(()), machine: self, output: Seq::empty(), consumed: 0 },
                ),
                Status::Failed(error) => Some(
                    Run { result: Err(error), machine: self, output: Seq::empty(), consumed: 0 },
                ),
                Status::Running => match transition.machine.run(
                    input.skip(self.demand() as int),
                    (steps - 1) as nat,
                ) {
                    Some(rest) => Some(
                        Run {
                            output: match transition.output {
                                Some(character) => seq![character] + rest.output,
                                None => rest.output,
                            },
                            consumed: self.demand() + rest.consumed,
                            ..rest
                        },
                    ),
                    None => None,
                },
                Status::Reading => None,
                Status::Faulted => None,
            }
        }
    }

    /// What a program writes and how many bytes it reads within a number of
    /// steps, whether it ends or not.
    pub open spec fn trace(self, input: Seq<u8>, steps: nat) -> (Seq<u8>, nat)
        decreases steps,
    {
        if steps == 0 {
            (Seq::empty(), 0)
        } else {
            let transition = self.step_on(input);
            let written = match transition.output {
                Some(character) => seq![character],
                None => Seq::empty(),
            };
            let read = if input.len() > 0 {
                self.demand()
            } else {
                0
            };
            if transition.status is Running {
                let (rest, count) = transition.machine.trace(
                    input.skip(self.demand() as int),
                    (steps - 1) as nat,
                );
                (written + rest, read + count)
            } else {
                (written, read)
            }
        }
    }
}

/// Where an instruction does not lead on to another one, it changes nothing and
/// writes nothing.
pub proof fn lemma_stop_changes_nothing(s: Machine, input: Option<u8>)
    requires
        s.ok,
        s.step(input).status !is Running,
        s.step(input).status !is Faulted,
    ensures
        s.step(input).machine == s,
        s.step(input).output is None,
{
}

/// An instruction that asks for input goes on with it, or faults.
pub proof fn lemma_read_goes_on(s: Machine, byte: u8)
    requires
        s.step(None).status is Reading,
    ensures
        s.step(Some(byte)).status is Running || s.step(Some(byte)).status is Faulted,
{
}

/// The number of steps that a program is given does not matter to what comes of
/// it.
pub proof fn lemma_run_is_unique(s: Machine, input: Seq<u8>, first: nat, second: nat)
    requires
        s.run(input, first) is Some,
        s.run(input, second) is Some,
    ensures
        s.run(input, first) == s.run(input, second),
    decreases first,
{
    let transition = s.step_on(input);
    if transition.status is Running {
        lemma_run_is_unique(
            transition.machine,
            input.skip(s.demand() as int),
            (first - 1) as nat,
            (second - 1) as nat,
        );
    }
}

} // verus!
