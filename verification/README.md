# verilog-core

A front end for IEEE 1364 Verilog: lexing, parsing, an optimizer for the elaborated design,
source positions, and the queries of a stepping debugger and a waveform viewer.

- `src/` is the library. Every function states what it returns in its contract, and Verus
  proves it. One contract is trusted: that of `text::push_char`, which calls the standard
  library's `String::push`. The laws that span several functions are the `law_*` proof
  functions.
- `tests/` runs the library on concrete inputs.
- `app/` is ordinary Rust around it: the protocol server over standard input and output, the
  commands of the desktop front end, and the files they read and write.

## The library

| Module | What it holds |
| --- | --- |
| `lexer`, `parser` | tokens, the syntax tree, generate loops, functions and tasks written out at their calls |
| `number`, `expr_const`, `delay_rational` | literals, constant expressions, parameters, exact delays |
| `ir`, `arith` | the elaborated design and the arithmetic of its expressions |
| `optimizer` | canonical forms, algebraic rewriting, propagation, elimination, unrolling, inlining |
| `project`, `semantic`, `paths`, `simulate` | indexing, the module graph, the choice of a top module and of files |
| `source_map`, `trace`, `statement`, `signal_names` | byte offsets to lines, executed statements, parts of a statement, forms of a signal's name |
| `sim_session`, `sim_commands`, `sessions` | a stepped simulation, what is shown of it, and the live sessions |
| `waves`, `excerpt`, `mcp` | edges and windows of a waveform, pieces of a source, the arguments of the tools |

The elaborator and the simulator are not in this crate. A session takes any simulator that
implements `sim_session::SimRunner`, and `app/engine.rs` says what the program asks of one.
