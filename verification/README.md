# mal

An interpreter for MAL ("Make a Lisp"), written in Verus. The library holds the whole
language — reader, printer, environments, the core namespace and the evaluator with tail
calls, macros, exceptions and atoms — and its functions are verified against a
mathematical model. Two functions are trusted rather than verified, each a thin call into
outside code whose contract is stated, not proved: `text::push_char` (std's
`String::push`) and `token_regex::regex_group1_captures` (the `regex` crate's search that
yields each token); every other function of `src/` is verified.

## Layout

- `src/types.rs` — values (`MalType`), their model (`Val`), errors and host requests.
- `src/text.rs` — characters, decimal formatting and parsing of 64-bit integers.
- `src/token_regex.rs` — the regular-expression search (the `regex` crate) that splits
  source text into tokens.
- `src/reader.rs` — tokens to forms; `src/printer.rs` — values to text;
  `src/read_back.rs` — the proof that the printer's tokens of a value read back as it.
- `src/assoc.rs`, `src/equality.rs` — association lists (environment frames, hash-maps)
  and the language's `=`.
- `src/env.rs` — environment frames in a store, lookups through outer frames.
- `src/namespace.rs`, `src/builtins.rs` — the functions of the core namespace that compute
  on their arguments alone.
- `src/runtime.rs` — the interpreter's state (frames, atoms, the host's replies, printed
  lines) and the core functions that use it.
- `src/eval.rs` — evaluation; `eval_spec` and the functions it calls give its meaning.
- `src/repl.rs` — the core namespace's bindings, the start-up definitions, read-eval-print,
  and attempts that stop at a request to the host and are made again once it answers.
- `src/stages.rs` — the evaluator of the environment stage (symbols, `def!`, `let*`,
  calls) and the `let*` of the stage that adds `if`, `fn*` and `do`, with their exact
  argument checks.
- `app/main.rs` — the command line: it answers the interpreter's requests (standard input,
  files, the clock) and prints.

Evaluation never does input or output itself: reading a line, reading a file and the time
are requests that the host answers, after which the same input is evaluated again with the
answers given so far.

## Scope

The library is the complete interpreter: its evaluator handles every special form and
every function of the core namespace. Of the smaller interpreters that build up to it,
`stages.rs` keeps the environment stage's evaluator and the next stage's `let*`, which
check the number of arguments of `def!` and `let*` exactly and refuse a `let*` binding
list of odd length; the complete evaluator checks its forms as `eval_spec` says (for
instance, `def!` and `let*` need at least three items, and an odd last binding of `let*`
is ignored). The functions `builtins::add`, `sub`, `mult` and `div` are the
all-arguments arithmetic of those smaller interpreters.
