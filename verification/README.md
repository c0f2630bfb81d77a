# sam

sam turns shell workflows into parameterized commands: aliases are command templates
written in YAML, whose `{{ var }}` placeholders are filled from static choices, from the
lines a command prints, or from typed input, in the order the vars depend on each other.

- `src/` is the verified library: identifiers and templates, alias and var repositories,
  dependency resolution, the engine that resolves and runs aliases, the history, the
  command cache and the session store (in memory, with explicit time), the selection view
  state, the command line request, and the assistant-facing `list_aliases` /
  `resolve_alias` logic. The library's logic is verified by Verus.
- `app/` is the program around it: argument parsing with clap, reading the YAML files,
  keeping state in files with rustbreak, running processes and tmux, the terminal view, and
  the MCP server (`sam mcp`).
- `tests/` exercises the library.
