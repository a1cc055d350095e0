# me_stow

A configuration-file manager in the spirit of GNU Stow: dot files are kept
in packages under a source directory and replaced on the system by
symlinks to them. Commands: `sync` (and `status`), `stow`, `remove`,
`list`.

Layout:

- `src/` is the verified library (Verus). It holds the model of paths
  (`path`), names and their order (`text`), package-name patterns
  (`glob`), the packages of the source, kept in an `FxHashMap` from
  name to directory (`packages`), the configuration
  and its setup (`config`), errors and their messages (`error`), log
  lines (`log`), the outcomes of file operations (`fileio`), and the
  decisions of each command (`sync`, `stow`, `remove`, `list`), with the
  command line's shape (`args`).
- `app/` is the program around it: the command line (clap), prompts
  (dialoguer), colours (console), the configuration file (serde, toml),
  and the filesystem work, which it hands to the library as plain values.
- `tests/` runs the library on concrete values.
