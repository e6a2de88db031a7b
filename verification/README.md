# wowctl

A World of Warcraft addon manager for the command line: it searches,
installs, updates, adopts and removes addons from CurseForge and Wago
Addons, and keeps a registry of what it manages.

## Layout

- `src/` is the library, verified with Verus. It holds the decisions the
  program makes, each with a contract: the registry and its laws, `.toc`
  and XML parsing, the walk over an addon's include chain, the CurseForge
  fingerprint (MurmurHash2), the circuit breaker and the retry policy of
  API requests, what the CurseForge and Wago answers mean, and the
  planning behind `install`, `update`, `adopt`, `stale`, `list`, `info`,
  `remove` and `config`, with the undo steps that roll a failed install
  or update back.
- `app/` is the program around it: the command line, configuration and
  registry files, HTTP clients, zip archives, the addon directory and the
  prompts. It hands the library plain values and prints what comes back.
- `tests/` runs the library on concrete values.
