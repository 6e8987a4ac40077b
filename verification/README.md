# ksp_cfg_formatter

A formatter, linter and language server for Kerbal Space Program config files, with their
Module Manager syntax. The library in `src/` is verified with Verus; `app/` is the language
server that runs it.

- `src/parser/`: the syntax tree, the parser that builds it from text (with the errors found on
  the way), and the printer that writes it back.
- `src/printer/`: the syntax types read from the config grammar's parse tree, and how they are
  written.
- `src/linter.rs`: the diagnostics reported on a parsed document.
- `src/transformer.rs`: moving the assignments of each node in front of its child nodes.
- `src/server.rs`: the decisions of the language server: its settings, its document store,
  and the diagnostics it publishes.
- `src/lib.rs`: the formatter and its settings.
- `app/`: the language server's main loop, its messages and its I/O.
