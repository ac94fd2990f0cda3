# grove

A self-evolving skill tree for AI agents: skills live as `SKILL.md` files in a
directory tree, with their metadata, usage observations and version history in a
SQLite file, and every change committed to git.

This crate is the tree's logic, verified with Verus:

- `src/` — the library. `db` holds the store (skills, observations, version
  records) with the semantics of the grove's tables and queries; `tree`,
  `observe`, `display`, `merge` and `plugin` compute what each command records
  and shows; `text`, `hash`, `order` and `report` are the building blocks;
  `laws` states and proves the properties that hold across operations.
- `tests/` — tests of the library on concrete values.
- `app/` — the command-line program: argument parsing, the SQLite file, the
  skill files on disk, git, and printing.
