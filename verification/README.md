# ribbit

A small virtual machine for Lisp programs, verified with
[Verus](https://github.com/verus-lang/verus).

Everything that the machine handles is an object: a number, or the address of a
rib, which is a triple of objects on a fixed heap. Code, data, the stack and the
symbol table are all made of ribs. A program comes as one string of bytes: first
the symbol table, then the code.

## Layout

- `src/` is the machine.
  - `vm.rs` and `vm/` hold the executable code: memory (`vm.rs`), operations that
    tell whether they can be carried out (`vm/checked.rs`), the decoder
    (`vm/decoding.rs`) and the interpreter (`vm/execution.rs`).
  - `model.rs` and `model/` say in mathematical terms what each operation does.
    The contracts of the executable code refer to this model.
  - `laws.rs` and `laws/` hold theorems about the model.
- `app/` is a program that loads a machine and connects it to the standard input
  and output.
- `tests/` holds tests on concrete programs.

## Faults

Some programs cannot be carried on with: they reach for an object outside of the
heap, need more memory than there is, ask for an arithmetic result that does not
exist, or return when there is no continuation on the stack. `Vm::step` reports
each of these as `Status::Faulted`. There is no garbage collector.
