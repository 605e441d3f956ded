# kernal-api

Building blocks for programs that sit close to their host: processes and their
containment, files and who may open them, watches, profiles and symbols, C++ syntax,
databases, terminals and webviews.

What such a program decides stands in `src/`, as functions from plain values to plain
values. Each has a contract, and Verus proves that its body keeps it; promises that
span several functions are stated as proof functions. Calls into other crates stand
behind a few small functions whose contracts are taken from those crates.

What talks to the host stands in `app/`: it does what the library asks for, and hands
back what came of it. `tests/` runs the library on concrete values.

| Module | What it is about |
| --- | --- |
| `symbolize` | the wire of the symbolization worker, images, splitting debug information |
| `source` | definitions in C++ sources |
| `sqlite` | bounded queries, transactions, backups |
| `process_adapter`, `pty`, `drain` | children, sessions, terminals |
| `windows` | paths, command lines, environments, jobs, access lists, replacement, watches |
| `linux` | signals, observation, build ids in notes |
| `snapshot`, `profile` | stacks of threads, profiles and their format |
| `tauri` | addresses that may be shown, captures, ends of webviews |
| `terminal_style`, `text`, `runtime` | colours, similarity of names, diagnostics |
