# erox

EROX is a small scripting language: a lexer with string interpolation and
`$ .. $` shell expressions, a Pratt parser, a bytecode compiler with closures,
and a stack-based virtual machine with built-in modules.

This crate holds the language's logic as a library verified with Verus:

- `src/compiler/lexer.rs`: the tokenizer, specified token by token.
- `src/compiler/syntax.rs`, `src/compiler/parser.rs`: the grammar as spec
  functions and the parser proved to follow it, errors and recovery included.
- `src/compiler/codegen.rs`: the compiler, specified by what each statement and
  expression emits; `src/compiler/code_laws.rs` proves that compiled jumps
  stay inside their code, that loaded constants are in the pool, that code
  grows at its end, and that compiling in parts is compiling at once.
- `src/compiler/diagnostics.rs`: the exact text of error reports;
  `src/compiler/messages.rs`: the text of each syntax error.
- `src/pipeline.rs`: source to compiled program, with the errors it reports.
- `src/vm/`: the instruction set, compiled constants, the stack machine
  (`machine.rs`: one verified step at a time, asking the host for what needs
  values), `try` handling and the call protocol (`plan_call`), the methods of strings, numbers and booleans, and the built-in
  modules (names, hashing, encoding, random choices).
- `src/text.rs`: string and character helpers.

`app/` is the command-line program around it: reading files, printing, and the
host of the stack machine, which holds the `f64` numbers, strings and shared
collections and performs the actions the machine asks for.
