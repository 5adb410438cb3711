# Yara

Yara is a small, strongly typed teaching language: functions with implicit
returns, `if`/`elsif`/`else`, `while` and `for` loops, file `import`, typed
arrays, classes with single inheritance, methods on primitive values,
opt-in pointers with manual `free` and a teaching garbage collector
(`collect()`), and programs written in a translated vocabulary.

## Layout

- `src/` is the library, verified with Verus. Every public function states
  what it returns in its `ensures`, over spec models of its data.
  - `lexer`, `grammar`, `syntax`, `parser`: source text to tokens to syntax
    tree; the parser is proved to agree with a spec grammar over tokens.
  - `keywords`, `translations`, `messages`, `canon`: the vocabulary a program
    is written in, the vocabulary file format, message templates, and the
    reading of translated names into canonical ones.
  - `shift`, `resolver`, `diagnostics`: moving an imported file's lines into
    its own range of the source map, and rustc-style error rendering.
  - `typechecker`, `types`, `builtins`, `methods`, `env`, `strmap`: the type
    rules, the builtin and method registries, and the scope environment.
  - `heap`, `interpreter`: the pointer heap with its collector, and the
    runtime error type.
- `tests/` runs the library on concrete programs.
- `app/` is the `yara run <file> [--vocabulary <path>]` command: file
  reading, import resolution on disk, and the tree-walking evaluator, whose
  values hold floating-point numbers and shared mutable arrays and objects.
