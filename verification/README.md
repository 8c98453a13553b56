# patchwork

Patchwork is a small language for agent workers: ordinary code, shell
commands, and `think { ... }` / `ask { ... }` prompt blocks that hand work to
a model. This crate holds its front end and compiler, verified with Verus.

## Layout

- `src/` — the verified library:
  - `lexer`, `token`: a mode-driven lexer (code, string, prompt and shell
    modes) and the tokens the parser sees; the tokens of a text are given by
    a spec function, and they tile the text.
  - `grammar`, `parser`, `ast`, `ast_dump`: the grammar as matchers over
    tokens, a recursive-descent parser proved to return only parses of its
    input, and a printer for syntax trees.
  - `typecheck`, `codegen`, `prompts`, `driver`, `module`, `paths`: scope
    checking, JavaScript generation with prompt templates, skill documents,
    single- and multi-file compilation, and the resolution of imports.
  - `runtime`, `eval`: the interpreter's scopes and string escapes.
  - `lsp`, `acp`: the decisions of the language server and of the agent
    proxy (diagnostics, positions, routing of prompts between agents).
- `app/` — the programs around the library: the command line, file and
  network I/O, the language server and agent proxy loops, and the
  interpreter's values (numbers are floating point).
- `tests/` — tests of the library.
