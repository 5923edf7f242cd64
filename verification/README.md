# Aziky front end

The front end of the Aziky compiler as a Verus library: a parser, the checks and
the index of a program, the decisions of its interpreter, and the optimizer of
its runtime code.

- `src/token.rs`, `src/ast.rs`: tokens and the syntax tree, each with its
  mathematical mirror. `src/copy.rs` copies trees, `src/display.rs` shows types.
- `src/parser/`: the grammar as functions on token sequences, and the parser that
  meets it.
- `src/semantics/`: what a program declares, its layouts, methods and purity; and
  what its statements and expressions do, in `evaluate.rs` and `execute.rs`.
  `operations.rs` lists what the interpreter asks of the machine that it runs on.
  `lower_program` puts the index together and hands the main function on;
  `lower_indexed` runs it where nothing lowers it.
- `src/optimizer/`: the passes on runtime programs; `pipeline.rs` has their order.
- `app/`: floating point, threads, and the machine that programs run on.
- `tests/`: the library on concrete programs.

Each pass is specified as a function on mathematical values, and its code is
proved to compute that function. Proof functions whose names start with `law_`
state what holds beyond that: that folded, renamed and shortened code leaves the
slots that the code left, that unrolling a loop keeps its effect, that what a
pass takes for known at an instruction is so whenever control arrives there,
that inlining keeps the ways of control, that an access that loses its check in
a loop is in bounds, that the optimizer as a whole keeps what programs with
branches print and leave with, that optimized jumps stay in bounds, that no
struct holds itself, that an accepted match takes an arm, that operators bind as
their levels say, that a parallel loop does the same on any number of threads,
that a statement that succeeds leaves the run as deep in loops, calls and scopes
as it was, that a pure function prints nothing.
