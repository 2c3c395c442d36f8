# nocturne_compiler

A verified compiler for Midnight smart contracts written as Rust modules. A
contract module is parsed into an intermediate representation; from that come
one circuit per `#[nocturne(circuit)]` function, the host code that builds the
circuits' transcripts, and the deployment module.

## Layout

`src/` is the library, verified with Verus.

- `syntax`, `attrs`, `error`, `text`, `names`: contract source as the compiler
  holds it, diagnostics, and small text and name tools.
- `reading`, `body`, `parse_body`, `declaring`, `parse`, `helper_graph`: from a
  module to a `ContractIR`, or to every error in it.
- `expr`, `contract`, `nocturne_type`, `typing`, `containers`: the
  representation and its types.
- `emission`, `lowering`, `zkir`, `zkir_emitter`: from the representation to
  circuit instructions.
- `private_events`, `vm_ops`, `snippets`, `code`, `aligned`, `transcript`,
  `transcript_values`, `transcript_codegen`, `deploy_codegen`: generated host
  code.
- `codegen`, `bundle`: everything a contract compiles to.
- What holds of all contracts and circuits:
  - `parse_laws`, `decl_laws`, `order_laws`, `permutation_laws`, `get_laws`: of
    reading a module, whatever the order of its items;
  - `emission_laws`, `lowering_laws`, `circuit_laws`, `group_laws`: of lowering
    and of the instructions of a circuit;
  - `splice_laws`, `renaming_laws`: of helpers spliced into circuits;
  - `private_inputs`, `yields`, `witness_free`, `event_laws`, `witness_laws`,
    `walk_laws`: of the witness values that a circuit draws;
  - `ledger_free`, `operation_groups`, `operation_laws`, `program_laws`,
    `transcript_laws`: of host code and circuit together.

Each executable function is stated over the mathematical functions of
`reading`, `declaring`, `lowering`, `transcript` and their neighbours. The laws
are public proof functions over the same functions.

`app/` connects the library to `syn`, to the proof system's instruction types
and to JSON. `tests/` compiles contracts from source and runs the circuits.

## What is trusted

One function of an outside crate is named and not defined: the value of an
integer literal (`syn`), in `expr`.
