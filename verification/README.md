# snarkvm_debug

Debug information for circuit programs, the step debugger that walks a
program's instructions, and the transaction kernel of the DPC scheme, written
in Verus with their contracts proved.

- `src/` is the verified library:
  - `variable`, `function`, `instruction`, `circuit`, `debugdata`: the debug
    information and its maps, kept in `indexmap` maps (declared in
    `index_map`, with a model of their contents in `entries`);
  - `debugger`: the debugger's state and its decisions, one stage of an
    instruction at a time; `resolve` and `value`: how values are shown in the
    debug variables; `frames`: how a stack snapshot is laid out for the debug
    adapter;
  - `group`: which recovery a written group element asks for;
  - `kernel`: checking, encoding and decoding a transaction kernel;
  - `decimal`: decimal text of numbers.
- `app/` loads the debug adapter library, registers its callbacks, runs its
  threads and waits on the condition variable between steps; it also holds
  serialisable copies of the debug data and byte-stream I/O for kernels.
- `tests/` runs the library on concrete values.
