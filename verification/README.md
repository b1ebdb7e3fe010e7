# gi

A terminal client for git: the changed files as a tree, with staging,
committing and pushing, the stash, the log and the branches.

- `src/` is the library. It holds the state and every decision: which calls of
  git a job makes, how their output is read, what each key does, and what is
  drawn where. Verus proves each function against its contract.
- `src/outside.rs` holds what is taken on trust of the standard library and of
  ratatui.
- `app/` runs git, reads and removes files, reads keys and draws on the terminal.
- `tests/` runs the library on examples.

A job is a `Worker`: it asks for one action at a time (a call of git, a file to
read or remove) and is told how it went, until it has a result. The state is an
`App`: `handle_key` and `poll` change it, and hand back the jobs that are
needed at once.
