# ish

The front end and run-time support of the Ish shell language, verified with Verus.

`src/` is the library; every function in it carries a contract that Verus checks.

- `lang/` — the language front end:
  - `tokenizer` turns source text into tokens (`lex_from` is the whole lexical grammar);
  - `parser` builds the syntax tree; its result is exactly what the grammar in `grammar`
    (expressions) and `syntax` (statements and declarations) gives, with `tree` as the plain
    model of a syntax tree;
  - `linter` checks variable scoping, empty bodies and loop control (`lint_node`);
  - `registry` collects the classes, structs and enums of a program and resolves names,
    methods and the entry point;
  - `config` reads project files (`project.ic`).
- `runtime/` — values and the generational mark-and-sweep collector (`gobbler`), with the
  reachability laws it keeps; scopes, operators, lookups, assignments, calls and the string
  methods of the evaluator; the scanning of `$`-expansions (`expand`); the shell builtins and
  `expr` arithmetic; and the runtime libraries (`str_lib`, `stdlib`), whose methods answer at
  once or name the piece of outside work (terminal, files, environment, clock, processes,
  float maths) that a host would perform; and `interp`, the statement executor and expression
  evaluator over plain values and scopes, each step specified by the spec functions `step` and
  `eval`, including `try`/`catch` and the methods of strings and characters. Work it cannot do
  itself (objects, arrays and maps, library calls beyond console output, floats, calls of the
  program's own methods) it hands back as a `Host` outcome.
- `managers/` — command history, shell settings, and completion suggestions.
- `ui/` — the input line, the suggestion list and their key handling, as state machines; the
  splitting of a program's output into lines (`output::take_chunk`); where a key press goes and
  what accepting a suggestion makes of the input line (`events`); and
  `shell`: what the interactive shell does with an entered line (built-in commands, settings,
  jobs, or a program to run).
- `io/` — colors as ANSI escapes, stream interfaces, I/O errors.
- `compiler/` — generation of Rust source from a syntax tree.

`app/` is the `ish` command line: it loads, parses, lints and registers a script and checks
its entry point, then runs the entry method's body through `runtime::interp` and prints what
it wrote; with the global allocator that counts memory. `tests/` exercise the library through its public interface.
