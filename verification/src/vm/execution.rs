//! Execution of programs.
use super::{Status, Step, Streams, Vm};
use crate::error::Error;
use crate::instruction::{APPLY, CONSTANT, GET, HALT, IF, SET};
use crate::laws::runs::law_trace_of_run;
use crate::model::execution::{
    lemma_read_goes_on, lemma_run_is_unique, lemma_stop_changes_nothing,
};
use crate::model::Machine;
use crate::object::{Object, CLOSURE_TAG, PAIR_TAG};
use crate::primitive::{Comparison, Operator, Primitive};
use vstd::prelude::*;

verus! {

impl<'a> Vm<'a> {
    // Primitives
    /// Pushes a value as an ordinary entry of the stack.
    fn push_value(&mut self, value: Object) -> (done: Option<()>)
        requires
            old(self)@.wf(),
        ensures
            done is Some <==> old(self)@.push_value(value).ok,
            done is Some ==> final(self)@ == old(self)@.push_value(value),
            final(self)@.wf(),
    {
        self.checked_push(value, Object::Number(PAIR_TAG))
    }

    /// Pops two numbers and pushes the result of an operation on them.
    pub fn operate_binary(&mut self, operator: Operator) -> (done: Option<()>)
        requires
            old(self)@.wf(),
        ensures
            done is Some <==> old(self)@.operate_binary(operator).ok,
            done is Some ==> final(self)@ == old(self)@.operate_binary(operator),
            final(self)@.wf(),
    {
        let x = self.checked_pop()?.to_raw();
        let y = self.checked_pop()?.to_raw();
        let result = operator.calculate(x, y)?;
        self.push_value(Object::Number(result))
    }

    /// Pops two numbers and pushes whether a condition holds of them.
    pub fn operate_comparison(&mut self, comparison: Comparison) -> (done: Option<()>)
        requires
            old(self)@.wf(),
        ensures
            done is Some <==> old(self)@.operate_comparison(comparison).ok,
            done is Some ==> final(self)@ == old(self)@.operate_comparison(comparison),
            final(self)@.wf(),
    {
        let x = self.checked_pop()?.to_raw();
        let y = self.checked_pop()?.to_raw();
        let condition = self.get_boolean(comparison.test(x, y));
        self.push_value(condition)
    }

    /// Executes a primitive. `byte` is the next byte of the input; only the
    /// primitive that reads has a use for it. The result is the character that
    /// is written, by its code. There is no result if the primitive cannot be
    /// carried out.
    pub fn operate_primitive(&mut self, primitive: Primitive, byte: u8) -> (output: Option<
        Option<u8>,
    >)
        requires
            old(self)@.wf(),
        ensures
            output is Some <==> old(self)@.operate_primitive(primitive, byte).ok,
            output is Some ==> final(self)@ == old(self)@.operate_primitive(primitive, byte),
            output is Some ==> output->0 == old(self)@.written(primitive),
            final(self)@.wf(),
    {
        match primitive {
            Primitive::Rib => {
                let rib = self.checked_allocate_rib(
                    Object::Number(0),
                    Object::Number(0),
                    Object::Number(0),
                )?;
                let car = self.checked_pop()?;
                self.checked_set_car(rib, car)?;
                let cdr = self.checked_pop()?;
                self.checked_set_cdr(rib, cdr)?;
                let tag = self.checked_pop()?;
                self.checked_set_tag(rib, tag)?;
                self.push_value(rib)?;
            },
            Primitive::Id => {
                let x = self.checked_pop()?;
                self.push_value(x)?;
            },
            Primitive::Pop => {
                self.checked_pop()?;
            },
            Primitive::Skip => {
                let x = self.checked_pop()?;
                self.checked_pop()?;
                self.push_value(x)?;
            },
            Primitive::Close => {
                let top = self.checked_get_car(self.stack)?;
                let x = self.checked_get_car(top)?;
                let y = self.checked_get_cdr(self.stack)?;
                let closure = self.checked_allocate_rib(x, y, Object::Number(CLOSURE_TAG))?;
                self.checked_set_car(self.stack, closure)?;
            },
            Primitive::IsRib => {
                let x = self.checked_pop()?;
                let condition = self.get_boolean(x.is_rib());
                self.push_value(condition)?;
            },
            Primitive::Field0 => {
                let x = self.checked_pop()?;
                let car = self.checked_get_car(x)?;
                self.push_value(car)?;
            },
            Primitive::Field1 => {
                let x = self.checked_pop()?;
                let cdr = self.checked_get_cdr(x)?;
                self.push_value(cdr)?;
            },
            Primitive::Field2 => {
                let x = self.checked_pop()?;
                let tag = self.checked_get_tag(x)?;
                self.push_value(tag)?;
            },
            Primitive::SetField0 => {
                let x = self.checked_pop()?;
                let y = self.checked_pop()?;
                self.checked_set_car(x, y)?;
                self.push_value(y)?;
            },
            Primitive::SetField1 => {
                let x = self.checked_pop()?;
                let y = self.checked_pop()?;
                self.checked_set_cdr(x, y)?;
                self.push_value(y)?;
            },
            Primitive::SetField2 => {
                let x = self.checked_pop()?;
                let y = self.checked_pop()?;
                self.checked_set_tag(x, y)?;
                self.push_value(y)?;
            },
            Primitive::Equal => {
                self.operate_comparison(Comparison::Equal)?;
            },
            Primitive::LessThan => {
                self.operate_comparison(Comparison::LessThan)?;
            },
            Primitive::Add => {
                self.operate_binary(Operator::Add)?;
            },
            Primitive::Subtract => {
                self.operate_binary(Operator::Subtract)?;
            },
            Primitive::Multiply => {
                self.operate_binary(Operator::Multiply)?;
            },
            Primitive::Divide => {
                self.operate_binary(Operator::Divide)?;
            },
            Primitive::GetC => {
                self.push_value(Object::Number(byte as u64))?;
            },
            Primitive::PutC => {
                let x = self.checked_pop()?;
                return Some(Some((x.to_raw() % 256) as u8));
            },
        }
        Some(None)
    }

    // Instructions
    /// Leaves a primitive: moves on to the next instruction, or, after a jump,
    /// returns to the continuation.
    fn leave_primitive(&mut self, jump: bool) -> (done: Option<()>)
        requires
            old(self)@.wf(),
        ensures
            done is Some <==> old(self)@.leave_primitive(jump).ok,
            done is Some ==> final(self)@ == old(self)@.leave_primitive(jump),
            final(self)@.wf(),
    {
        if jump {
            self.program_counter = self.get_continuation()?;
            let stack = self.checked_get_car(self.program_counter)?;
            self.checked_set_cdr(self.stack, stack)?;
        }
        self.program_counter = self.checked_get_tag(self.program_counter)?;
        Some(())
    }

    /// Pops arguments and puts each in front of a new list of them.
    fn pop_arguments(&mut self, arguments: Object, count: u64) -> (list: Option<Object>)
        requires
            old(self)@.wf(),
        ensures
            list is Some <==> old(self)@.pop_arguments(arguments, count as nat).1.ok,
            list is Some ==> (list->0, final(self)@) == old(self)@.pop_arguments(
                arguments,
                count as nat,
            ),
            final(self)@.program_counter == old(self)@.program_counter,
            final(self)@.wf(),
    {
        let mut list = arguments;
        let mut rest: u64 = count;
        while rest > 0
            invariant
                self@.wf(),
                self@.program_counter == old(self)@.program_counter,
                old(self)@.pop_arguments(arguments, count as nat) == self@.pop_arguments(
                    list,
                    rest as nat,
                ),
            decreases rest,
        {
            proof {
                reveal_with_fuel(Machine::pop_arguments, 2);
            }
            let x = self.checked_pop()?;
            list = self.checked_allocate_rib(x, list, Object::Number(PAIR_TAG))?;
            rest = rest - 1;
        }
        Some(list)
    }

    /// Fills in where a call returns to.
    fn link(&mut self, frame: Object, jump: bool) -> (done: Option<()>)
        requires
            old(self)@.wf(),
            old(self)@.addressable(old(self)@.program_counter),
        ensures
            done is Some <==> old(self)@.link(frame, jump).ok,
            done is Some ==> final(self)@ == old(self)@.link(frame, jump),
            final(self)@.wf(),
    {
        if jump {
            let continuation = self.get_continuation()?;
            let stack = self.checked_get_car(continuation)?;
            self.checked_set_car(frame, stack)?;
            let tag = self.checked_get_tag(continuation)?;
            self.checked_set_tag(frame, tag)
        } else {
            self.checked_set_car(frame, self.stack)?;
            let tag = self.get_tag(self.program_counter);
            self.checked_set_tag(frame, tag)
        }
    }

    /// Calls a procedure whose code is a rib.
    fn call(&mut self, code: Object, jump: bool) -> (done: Option<()>)
        requires
            old(self)@.wf(),
            old(self)@.has_code(),
            code == old(self)@.code(),
        ensures
            done is Some <==> old(self)@.call(jump).ok,
            done is Some ==> final(self)@ == old(self)@.call(jump),
            final(self)@.wf(),
    {
        let instruction = self.get_car(self.program_counter);
        let argument_count = self.checked_get_car(code)?;
        self.checked_set_car(self.program_counter, code)?;

        let procedure = self.get_procedure()?;
        let frame = self.checked_allocate_rib(
            Object::Number(0),
            procedure,
            Object::Number(PAIR_TAG),
        )?;
        let arguments = self.pop_arguments(frame, argument_count.to_raw())?;
        let return_frame = self.get_list_tail(arguments, argument_count)?;
        self.link(return_frame, jump)?;

        let code = self.checked_get_car(self.program_counter)?;
        self.checked_set_car(self.program_counter, instruction)?;
        self.stack = arguments;
        self.program_counter = self.checked_get_tag(code)?;
        Some(())
    }

    /// Assigns the top of the stack to a variable.
    fn assign(&mut self) -> (done: Option<()>)
        requires
            old(self)@.wf(),
            old(self)@.addressable(old(self)@.program_counter),
        ensures
            done is Some <==> old(self)@.assign().ok,
            done is Some ==> final(self)@ == old(self)@.assign(),
            final(self)@.wf(),
    {
        let x = self.checked_pop()?;
        let rib = self.get_operand_rib(self.get_cdr(self.program_counter))?;
        self.checked_set_car(rib, x)?;
        self.advance_program_counter();
        Some(())
    }

    /// Pushes the value of a variable.
    fn load(&mut self) -> (done: Option<()>)
        requires
            old(self)@.wf(),
            old(self)@.addressable(old(self)@.program_counter),
        ensures
            done is Some <==> old(self)@.load().ok,
            done is Some ==> final(self)@ == old(self)@.load(),
            final(self)@.wf(),
    {
        let procedure = self.get_procedure()?;
        self.push_value(procedure)?;
        self.advance_program_counter();
        Some(())
    }

    /// Pushes a constant.
    fn load_constant(&mut self) -> (done: Option<()>)
        requires
            old(self)@.wf(),
            old(self)@.addressable(old(self)@.program_counter),
        ensures
            done is Some <==> old(self)@.load_constant().ok,
            done is Some ==> final(self)@ == old(self)@.load_constant(),
            final(self)@.wf(),
    {
        let object = self.get_cdr(self.program_counter);
        self.push_value(object)?;
        self.advance_program_counter();
        Some(())
    }

    /// Pops a value and branches on whether it is the false object.
    fn branch(&mut self) -> (done: Option<()>)
        requires
            old(self)@.wf(),
            old(self)@.addressable(old(self)@.program_counter),
        ensures
            done is Some <==> old(self)@.branch().ok,
            done is Some ==> final(self)@ == old(self)@.branch(),
            final(self)@.wf(),
    {
        let x = self.checked_pop()?;
        self.program_counter = if x.to_raw() != self.false_object.to_raw() {
            self.get_cdr(self.program_counter)
        } else {
            self.get_tag(self.program_counter)
        };
        Some(())
    }

    /// Applies a procedure.
    fn apply(&mut self, input: Option<u8>) -> (step: Step)
        requires
            old(self)@.wf(),
            old(self)@.addressable(old(self)@.program_counter),
        ensures
            step.status == old(self)@.apply(input).status,
            step.output == old(self)@.apply(input).output,
            !(step.status is Faulted) ==> final(self)@ == old(self)@.apply(input).machine,
            final(self)@.wf(),
    {
        let jump = self.get_tag(self.program_counter) == Object::Number(0);
        let code = match self.get_code() {
            Some(code) => code,
            None => return Step { output: None, status: Status::Faulted },
        };

        if code.is_rib() {
            return Step { output: None, status: Self::settle(self.call(code, jump)) };
        }

        let primitive = match Primitive::from_raw(code.to_raw()) {
            Some(primitive) => primitive,
            None => return Step {
                output: None,
                status: Status::Failed(Error::IllegalPrimitive),
            },
        };
        let byte = match (primitive, input) {
            (Primitive::GetC, None) => return Step { output: None, status: Status::Reading },
            (_, Some(byte)) => byte,
            (_, None) => 0,
        };
        match self.operate_primitive(primitive, byte) {
            Some(output) => Step { output, status: Self::settle(self.leave_primitive(jump)) },
            None => Step { output: None, status: Status::Faulted },
        }
    }

    /// Returns the status after operations that could be carried out or not.
    fn settle(done: Option<()>) -> (status: Status)
        ensures
            status == (if done is Some {
                Status::Running
            } else {
                Status::Faulted
            }),
    {
        match done {
            Some(()) => Status::Running,
            None => Status::Faulted,
        }
    }

    /// Executes one instruction. `input` is the next byte of the input; only an
    /// instruction that reads has a use for it, and one that finds none there
    /// asks for it.
    pub fn step(&mut self, input: Option<u8>) -> (step: Step)
        requires
            old(self)@.wf(),
        ensures
            step.status == old(self)@.step(input).status,
            step.output == old(self)@.step(input).output,
            !(step.status is Faulted) ==> final(self)@ == old(self)@.step(input).machine,
            final(self)@.wf(),
    {
        let instruction = match self.checked_get_car(self.program_counter) {
            Some(instruction) => instruction.to_raw(),
            None => return Step { output: None, status: Status::Faulted },
        };

        if instruction == APPLY {
            return self.apply(input);
        }
        let status = if instruction == HALT {
            Status::Halted
        } else if instruction == SET {
            Self::settle(self.assign())
        } else if instruction == GET {
            Self::settle(self.load())
        } else if instruction == CONSTANT {
            Self::settle(self.load_constant())
        } else if instruction == IF {
            Self::settle(self.branch())
        } else {
            Status::Failed(Error::IllegalInstruction)
        };
        Step { output: None, status }
    }

    // Programs
    /// Executes one instruction. If it asks for input, it is given the next byte
    /// of the input, if there is one left.
    pub fn step_on(&mut self, streams: &mut Streams<'_>) -> (status: Status)
        requires
            old(self)@.wf(),
            old(streams).wf(),
        ensures
            ({
                let transition = old(self)@.step_on(old(streams).rest());
                &&& status == transition.status
                &&& !(status is Faulted) ==> final(self)@ == transition.machine
                &&& final(streams).output@ == old(streams).output@ + (match transition.output {
                    Some(character) => seq![character],
                    None => Seq::empty(),
                })
                &&& !(status is Running) && !(status is Faulted) ==> final(self)@ == old(self)@
                    && *final(streams) == *old(streams)
                &&& status is Running ==> final(streams).rest() == old(streams).rest().skip(
                    old(self)@.demand() as int,
                )
                &&& status is Running ==> final(streams).position == old(streams).position + old(
                    self,
                )@.demand()
            }),
            final(streams).position == old(streams).position + (if old(streams).rest().len() > 0 {
                old(self)@.demand()
            } else {
                0
            }),
            final(streams).input == old(streams).input,
            final(streams).wf(),
            final(self)@.wf(),
    {
        proof {
            reveal(Machine::step_on);
            reveal(Machine::demand);
        }
        let ghost machine = self@;
        let ghost output = streams.output@;
        let mut step = self.step(None);
        proof {
            if step.status !is Running && step.status !is Faulted {
                lemma_stop_changes_nothing(machine, None);
            }
        }
        if let Status::Reading = step.status {
            if streams.position < streams.input.len() {
                let byte = streams.input[streams.position];
                step = self.step(Some(byte));
                proof {
                    lemma_read_goes_on(machine, byte);
                }
                streams.position = streams.position + 1;
            }
        }
        if let Some(character) = step.output {
            streams.output.push(character);
        }
        proof {
            assert(streams.output@ =~= output + (match step.output {
                Some(character) => seq![character],
                None => Seq::empty(),
            }));
            assert(step.status is Running ==> streams.rest() =~= old(streams).rest().skip(
                machine.demand() as int,
            ));
        }
        step.status
    }

    /// Executes the program to its end. A program that has no end, that faults
    /// or that reads past the end of the input is not to be run this way.
    #[verifier::rlimit(30)]
    pub fn run(&mut self, streams: &mut Streams<'_>) -> (result: Result<(), Error>)
        requires
            old(self)@.wf(),
            old(streams).wf(),
            exists|steps: nat| old(self)@.run(old(streams).rest(), steps) is Some,
        ensures
            forall|steps: nat|
                (#[trigger] old(self)@.run(old(streams).rest(), steps)) matches Some(run) ==> {
                    &&& result == run.result
                    &&& final(self)@ == run.machine
                    &&& final(streams).output@ == old(streams).output@ + run.output
                    &&& final(streams).position == old(streams).position + run.consumed
                },
            final(streams).input == old(streams).input,
            final(streams).wf(),
            final(self)@.wf(),
    {
        let ghost start = self@;
        let ghost input = streams.rest();
        let ghost mut steps = choose|steps: nat| start.run(input, steps) is Some;
        let ghost whole = start.run(input, steps)->0;
        proof {
            assert forall|other: nat| #[trigger] start.run(input, other) is Some implies start.run(
                input,
                other,
            )->0 == whole by {
                lemma_run_is_unique(start, input, other, steps);
            }
        }
        loop
            invariant
                self@.wf(),
                streams.wf(),
                streams.input == old(streams).input,
                self@.run(streams.rest(), steps) is Some,
                ({
                    let rest = self@.run(streams.rest(), steps)->0;
                    &&& whole.result == rest.result
                    &&& whole.machine == rest.machine
                    &&& old(streams).output@ + whole.output == streams.output@ + rest.output
                    &&& old(streams).position + whole.consumed == streams.position + rest.consumed
                }),
                start == old(self)@,
                input == old(streams).rest(),
                forall|other: nat|
                    #[trigger] start.run(input, other) is Some ==> start.run(input, other)->0
                        == whole,
            decreases steps,
        {
            let ghost output = streams.output@;
            match self.step_on(streams) {
                Status::Halted => return Ok(()),
                Status::Failed(error) => return Err(error),
                _ => {},
            }
            proof {
                steps = (steps - 1) as nat;
                let rest = self@.run(streams.rest(), steps)->0;
                assert(forall|added: Seq<u8>|
                    (#[trigger] (output + added)) + rest.output =~= output + (added
                        + rest.output));
            }
        }
    }

    /// Executes the program to its end, if that comes within a number of steps.
    /// There is no result if it does not, or if the program faults or reads past
    /// the end of the input. What is written and read by then is in the streams
    /// either way.
    #[verifier::rlimit(30)]
    pub fn run_for(&mut self, streams: &mut Streams<'_>, limit: u64) -> (result: Option<
        Result<(), Error>,
    >)
        requires
            old(self)@.wf(),
            old(streams).wf(),
        ensures
            match old(self)@.run(old(streams).rest(), limit as nat) {
                Some(run) => {
                    &&& result == Some(run.result)
                    &&& final(self)@ == run.machine
                    &&& final(streams).output@ == old(streams).output@ + run.output
                    &&& final(streams).position == old(streams).position + run.consumed
                },
                None => result is None,
            },
            ({
                let (written, read) = old(self)@.trace(old(streams).rest(), limit as nat);
                &&& final(streams).output@ == old(streams).output@ + written
                &&& final(streams).position == old(streams).position + read
            }),
            final(streams).input == old(streams).input,
            final(streams).wf(),
            final(self)@.wf(),
    {
        let ghost whole = self@.run(streams.rest(), limit as nat);
        let ghost (written, read) = self@.trace(streams.rest(), limit as nat);
        proof {
            if whole is Some {
                law_trace_of_run(self@, streams.rest(), limit as nat);
            }
        }
        let mut left: u64 = limit;
        while left > 0
            invariant
                self@.wf(),
                streams.wf(),
                streams.input == old(streams).input,
                match self@.run(streams.rest(), left as nat) {
                    Some(rest) => {
                        &&& whole is Some
                        &&& (whole->0).result == rest.result
                        &&& (whole->0).machine == rest.machine
                    },
                    None => whole is None,
                },
                whole == old(self)@.run(old(streams).rest(), limit as nat),
                whole is Some ==> (whole->0).output == written && (whole->0).consumed == read,
                (written, read) == old(self)@.trace(old(streams).rest(), limit as nat),
                ({
                    let (rest, count) = self@.trace(streams.rest(), left as nat);
                    &&& old(streams).output@ + written == streams.output@ + rest
                    &&& old(streams).position + read == streams.position + count
                }),
            decreases left,
        {
            let ghost output = streams.output@;
            let ghost added = match self@.step_on(streams.rest()).output {
                Some(character) => seq![character],
                None => Seq::<u8>::empty(),
            };
            let status = self.step_on(streams);
            left = left - 1;
            proof {
                let rest = self@.trace(streams.rest(), left as nat).0;
                assert((output + added) + rest =~= output + (added + rest));
            }
            match status {
                Status::Halted => return Some(Ok(())),
                Status::Failed(error) => return Some(Err(error)),
                Status::Running => {},
                Status::Reading => return None,
                Status::Faulted => return None,
            }
        }
        None
    }
}

} // verus!
