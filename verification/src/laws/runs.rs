//! How a run is made of its steps.
use crate::laws::execution::{law_step_keeps_program, law_stopping_changes_nothing};
use crate::model::execution::{Run, Transition};
use crate::model::Machine;
use crate::vm::{Status, Streams};
use vstd::prelude::*;

verus! {

impl Machine {
    /// The first step of a run. An instruction that waits for input is given the
    /// first byte.
    #[verifier::opaque]
    pub open spec fn first_step(self, input: Seq<u8>) -> Transition {
        if self.step(None).status is Reading && input.len() > 0 {
            self.step(Some(input[0]))
        } else {
            self.step(None)
        }
    }

    /// The input that is left after the first step.
    #[verifier::opaque]
    pub open spec fn input_after_first_step(self, input: Seq<u8>) -> Seq<u8> {
        if self.step(None).status is Reading && input.len() > 0 {
            input.skip(1)
        } else {
            input
        }
    }

    /// The machine after a number of steps, and the input that is left then.
    pub open spec fn after_steps(self, input: Seq<u8>, steps: nat) -> (Machine, Seq<u8>)
        decreases steps,
    {
        if steps == 0 {
            (self, input)
        } else {
            self.first_step(input).machine.after_steps(
                self.input_after_first_step(input),
                (steps - 1) as nat,
            )
        }
    }

    /// What is written by the step that comes after a number of steps.
    pub open spec fn written_by_step(self, input: Seq<u8>, step: nat) -> Option<u8> {
        let (machine, rest) = self.after_steps(input, step);
        machine.first_step(rest).output
    }

    /// The characters that the first steps write, in the order of the steps.
    pub open spec fn written_within(self, input: Seq<u8>, steps: nat) -> Seq<u8>
        decreases steps,
    {
        if steps == 0 {
            Seq::empty()
        } else {
            let before = self.written_within(input, (steps - 1) as nat);
            match self.written_by_step(input, (steps - 1) as nat) {
                Some(character) => before.push(character),
                None => before,
            }
        }
    }
}

/// A run is its first step and the run from there. It ends where a step ends
/// it; what the first step writes comes first, and what it reads is not there
/// for the rest.
pub proof fn law_first_step(s: Machine, input: Seq<u8>, steps: nat)
    ensures
        s.run(input, 0) is None,
        ({
            let first = s.first_step(input);
            let rest_of_input = s.input_after_first_step(input);
            let rest = first.machine.run(rest_of_input, steps);
            let run = s.run(input, steps + 1);
            match first.status {
                Status::Halted => {
                    &&& run is Some
                    &&& (run->0).result is Ok
                    &&& (run->0).machine == s
                    &&& (run->0).output.len() == 0
                    &&& (run->0).consumed == 0
                },
                Status::Failed(error) => {
                    &&& run is Some
                    &&& (run->0).result == Err::<(), crate::error::Error>(error)
                    &&& (run->0).machine == s
                    &&& (run->0).output.len() == 0
                    &&& (run->0).consumed == 0
                },
                Status::Running => {
                    &&& run is Some <==> rest is Some
                    &&& run is Some ==> {
                        &&& (run->0).result == (rest->0).result
                        &&& (run->0).machine == (rest->0).machine
                        &&& (run->0).consumed == (rest->0).consumed + input.len()
                            - rest_of_input.len()
                        &&& match first.output {
                            Some(character) => {
                                &&& (run->0).output.len() == (rest->0).output.len() + 1
                                &&& (run->0).output[0] == character
                                &&& (run->0).output.skip(1) == (rest->0).output
                            },
                            None => (run->0).output == (rest->0).output,
                        }
                    }
                },
                Status::Reading => run is None,
                Status::Faulted => run is None,
            }
        }),
{
    reveal(Machine::step_on);
    reveal(Machine::demand);
    reveal(Machine::first_step);
    reveal(Machine::input_after_first_step);
    let first = s.first_step(input);
    assert(s.step_on(input) == first);
    if first.status is Running {
        assert(input.skip(0) =~= input);
        if let Some(rest) = first.machine.run(s.input_after_first_step(input), steps) {
            if let Some(character) = first.output {
                assert((seq![character] + rest.output).skip(1) =~= rest.output);
            }
        }
    }
}

/// The first steps write what the first one writes, and then what the steps
/// after it write.
proof fn lemma_written_within(s: Machine, input: Seq<u8>, steps: nat)
    ensures
        ({
            let first = s.first_step(input);
            let rest = first.machine.written_within(s.input_after_first_step(input), steps);
            s.written_within(input, steps + 1) == match first.output {
                Some(character) => seq![character] + rest,
                None => rest,
            }
        }),
    decreases steps,
{
    let first = s.first_step(input);
    let rest = s.input_after_first_step(input);
    if steps == 0 {
        reveal_with_fuel(Machine::written_within, 2);
        assert(s.after_steps(input, 0) == (s, input));
    } else {
        let less = (steps - 1) as nat;
        lemma_written_within(s, input, less);
        assert(s.after_steps(input, steps) == first.machine.after_steps(rest, less));
        assert(s.written_by_step(input, steps) == first.machine.written_by_step(rest, less));
        let before = first.machine.written_within(rest, less);
        if let Some(character) = first.output {
            if let Some(last) = first.machine.written_by_step(rest, less) {
                assert((seq![character] + before).push(last) =~= seq![character] + before.push(
                    last,
                ));
            }
        }
    }
}

impl Machine {
    /// Whether a run goes through a number of steps and ends with the step after
    /// them: it ends in the machine that they lead to, has written what they
    /// write, in their order, and has read the input that they use up.
    pub open spec fn ends_run(self, input: Seq<u8>, steps: nat, run: Run) -> bool {
        let (end, rest) = self.after_steps(input, steps);
        &&& run.machine == end
        &&& run.output == self.written_within(input, steps)
        &&& run.consumed + rest.len() == input.len()
        &&& end.first_step(rest).status == match run.result {
            Ok(_) => Status::Halted,
            Err(error) => Status::Failed(error),
        }
    }
}

/// A run whose first step goes on ends one step later than the run from there.
proof fn lemma_run_from_first_step(s: Machine, input: Seq<u8>, limit: nat, steps: nat)
    requires
        s.first_step(input).status is Running,
        s.run(input, limit + 1) is Some,
        ({
            let next = s.first_step(input).machine;
            let rest = s.input_after_first_step(input);
            &&& next.run(rest, limit) is Some
            &&& next.ends_run(rest, steps, next.run(rest, limit)->0)
        }),
    ensures
        s.ends_run(input, steps + 1, s.run(input, limit + 1)->0),
{
    law_first_step(s, input, limit);
    lemma_written_within(s, input, steps);
    let first = s.first_step(input);
    let rest = s.input_after_first_step(input);
    assert(s.after_steps(input, steps + 1) == first.machine.after_steps(rest, steps));
    let run = s.run(input, limit + 1)->0;
    let later = first.machine.run(rest, limit)->0;
    if let Some(character) = first.output {
        assert(run.output =~= seq![character] + later.output) by {
            assert(run.output.skip(1) == later.output);
            assert forall|i: int| 1 <= i < run.output.len() implies run.output[i] == (seq![
                character,
            ] + later.output)[i] by {
                assert(run.output.skip(1)[i - 1] == run.output[i]);
            }
        }
    }
}

/// A run goes through its steps one after the other, up to one that ends it.
pub proof fn law_run_is_its_steps(s: Machine, input: Seq<u8>, limit: nat)
    requires
        s.run(input, limit) is Some,
    ensures
        exists|steps: nat|
            steps < limit && #[trigger] s.ends_run(input, steps, s.run(input, limit)->0),
    decreases limit,
{
    let less = (limit - 1) as nat;
    law_first_step(s, input, less);
    let first = s.first_step(input);
    let rest = s.input_after_first_step(input);
    let run = s.run(input, limit)->0;
    if first.status is Running {
        law_run_is_its_steps(first.machine, rest, less);
        let later = first.machine.run(rest, less)->0;
        let steps = choose|steps: nat|
            steps < less && #[trigger] first.machine.ends_run(rest, steps, later);
        lemma_run_from_first_step(s, input, less, steps);
        assert(s.ends_run(input, steps + 1, run));
    } else {
        assert(s.after_steps(input, 0) == (s, input));
        assert(run.output =~= s.written_within(input, 0));
        assert(s.ends_run(input, 0, run));
    }
}

/// A run that is given enough steps ends: if the machine goes on for a number
/// of steps and then stops, it has a run.
pub proof fn law_runs_exist(s: Machine, input: Seq<u8>, steps: nat)
    requires
        forall|i: nat|
            i < steps ==> {
                let (machine, rest) = #[trigger] s.after_steps(input, i);
                machine.first_step(rest).status is Running
            },
        ({
            let (machine, rest) = s.after_steps(input, steps);
            let status = machine.first_step(rest).status;
            status is Halted || status is Failed
        }),
    ensures
        s.run(input, steps + 1) is Some,
    decreases steps,
{
    law_first_step(s, input, steps);
    assert(s.after_steps(input, 0) == (s, input));
    if steps > 0 {
        let first = s.first_step(input);
        let rest = s.input_after_first_step(input);
        let less = (steps - 1) as nat;
        assert forall|i: nat| i < less implies {
            let (machine, left) = #[trigger] first.machine.after_steps(rest, i);
            machine.first_step(left).status is Running
        } by {
            assert(s.after_steps(input, i + 1) == first.machine.after_steps(rest, i));
        }
        law_runs_exist(first.machine, rest, less);
    }
}

/// What is written and read within a number of steps is what the first step
/// writes and reads, and then what the rest does. A step that stops the program
/// may still have written.
pub proof fn law_trace(s: Machine, input: Seq<u8>, steps: nat)
    ensures
        s.trace(input, 0).0.len() == 0,
        s.trace(input, 0).1 == 0,
        ({
            let first = s.first_step(input);
            let rest_of_input = s.input_after_first_step(input);
            let (written, read) = s.trace(input, steps + 1);
            let (later_written, later_read) = if first.status is Running {
                first.machine.trace(rest_of_input, steps)
            } else {
                (Seq::empty(), 0)
            };
            &&& read == later_read + input.len() - rest_of_input.len()
            &&& match first.output {
                Some(character) => {
                    &&& written.len() == later_written.len() + 1
                    &&& written[0] == character
                    &&& written.skip(1) == later_written
                },
                None => written == later_written,
            }
        }),
{
    reveal(Machine::step_on);
    reveal(Machine::demand);
    reveal(Machine::first_step);
    reveal(Machine::input_after_first_step);
    let first = s.first_step(input);
    assert(s.step_on(input) == first);
    assert(input.skip(0) =~= input);
    let later = if first.status is Running {
        first.machine.trace(s.input_after_first_step(input), steps).0
    } else {
        Seq::empty()
    };
    let written = s.trace(input, steps + 1).0;
    match first.output {
        Some(character) => {
            assert(written =~= seq![character] + later);
            assert(written.skip(1) =~= later);
        },
        None => {
            assert(written =~= later);
        },
    }
}

/// A run writes and reads what is written and read within its steps.
pub proof fn law_trace_of_run(s: Machine, input: Seq<u8>, steps: nat)
    requires
        s.wf(),
        s.run(input, steps) is Some,
    ensures
        s.trace(input, steps) == ((s.run(input, steps)->0).output, (s.run(
            input,
            steps,
        )->0).consumed),
    decreases steps,
{
    let less = (steps - 1) as nat;
    law_first_step(s, input, less);
    law_trace(s, input, less);
    let first = s.first_step(input);
    let rest = s.input_after_first_step(input);
    reveal(Machine::first_step);
    reveal(Machine::input_after_first_step);
    if first.status is Running {
        law_step_keeps_program(s, None);
        if s.step(None).status is Reading {
            law_step_keeps_program(s, Some(input[0]));
        }
        law_trace_of_run(first.machine, rest, less);
        let run = s.run(input, steps)->0;
        let written = s.trace(input, steps).0;
        if first.output is Some {
            assert(written =~= seq![written[0]] + written.skip(1));
            assert(run.output =~= seq![run.output[0]] + run.output.skip(1));
        }
    } else {
        law_stopping_changes_nothing(s, None);
        if s.step(None).status is Reading && input.len() > 0 {
            law_stopping_changes_nothing(s, Some(input[0]));
        }
        assert(s.trace(input, steps).0 =~= (s.run(input, steps)->0).output);
    }
}

/// The bytes that are not read yet are those from the position on.
pub proof fn law_rest_of_input(streams: Streams<'_>)
    requires
        streams.wf(),
    ensures
        streams.position <= streams.input@.len(),
        streams.rest().len() == streams.input@.len() - streams.position,
        forall|i: int|
            0 <= i < streams.rest().len() ==> #[trigger] streams.rest()[i] == streams.input@[
                streams.position + i],
{
}

} // verus!
