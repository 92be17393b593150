# project_dots

A companion tool for provisioning Debian and Termux machines by categories of
packages and dotfiles (`dotss`).

- `src/` is the library, verified with Verus: the category catalog and how it
  merges, platform support and applied status (with the laws of pack
  evaluation in `packs.rs`), the list and details views, the order in which
  install and removal visit categories and packs (`walk.rs`), the install and
  removal decisions step by step (what command to run, what to record in the
  state), section injection, version comparison and the self-update plan, and
  the setup wizard's menus and what its steps hand over together
  (`selection.rs`).
- `app/` is the program around it: argument parsing, reading and writing the
  TOML files, running the package manager and other commands, and the terminal
  menus. It asks the library what each step takes and reports the outcome back.
- `tests/` exercises the library on concrete catalogs and states.
