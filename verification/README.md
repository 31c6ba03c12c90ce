# Sunwave

An interpreter for Sunwave, a small expression language with closures,
tuples, modules (`module`, `export`, `import`) and `loop`/`recur`, written
in Verus: the interpreter's logic is proved against a specification of the
language.

## Layout

- `src/ast.rs`: statements and expressions, and their models.
- `src/value.rs`: runtime values and name bindings.
- `src/environment.rs`: the store of scopes and the interpreter state.
- `src/semantics.rs`: the meaning of programs, as spec functions.
- `src/ops.rs`, `src/format.rs`: operators, member access, assignment
  paths, equality and the printed form of values.
- `src/eval.rs`: evaluation and execution, proved to follow the semantics.
- `src/laws.rs`, `src/quiet.rs`: laws of evaluation, one construct at a
  time, and the law that statements ending in `;` print nothing.
- `src/parser.rs`: from a parse tree to statements, with operator
  precedence.
- `src/context.rs`: a session that runs successive pieces of source text.
- `src/args.rs`: the command line.
- `src/host.rs`: what the interpreter asks of the program that runs it.
- `app/`: the C interface, and the host of a native process (binary64
  arithmetic, the file system, the grammar's parser).

## The host

Numbers are IEEE-754 binary64 values, held as bit patterns; arithmetic,
comparisons and number text are answered by the host, as are the file
system questions of `import` and the parsing of source text. Every answer
is recorded in a ghost log, and the contracts say what the interpreter does
for every sequence of answers that agrees with the log.

Each evaluation step costs one unit of a step budget; a run that exhausts
it stops with the error `evaluation step limit reached`. A session's budget
is `u64::MAX` steps.
