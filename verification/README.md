# rosy

A small indentation-based language with an interpreter and a compiler to x86-64
Windows executables. The library is verified with Verus: each stage states in its
contract what it computes, over mathematical models of its data.

## Layout

- `src/` — the verified library
  - `tokenizer`, `parser`, `desugarer`: source lines to statements
  - `typechecker`, `interpreter`: types and evaluation of statements
  - `uniquify`, `tac`, `variablecollector`, `livenessanalysis`,
    `registerallocation`: three-address code, liveness and register colouring
  - `codegenerator`, `instructionsimplifier`, `optimiser`, `assembler`,
    `exewriter`: machine instructions, their encoding and the executable image
  - `defaultfunctions`, `libraryfunctions`: routines added to compiled programs
  - `compiler`, `pipeline`: the stages put together
  - `listing`: the text the debug output prints
  - `text`, `vecs`, `namesets`: helpers
- `tests/` — tests of the library
- `app/` — the command-line program: reads files, prints results, writes executables

## Use

The program takes a subcommand and a source file: `run` interprets it, `typecheck`
checks it and prints the type of each assigned variable, and `compile` writes an
executable beside it.
