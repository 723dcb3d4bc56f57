# frd — fast rust dev

An interactive build-speed and disk optimizer for cargo projects. It reports on the
machine and the project, offers a catalog of suggestions (shared target dir, lighter
debug info, sccache, cargo-sweep, nightly flags, ...), shows each one as a card with the
exact TOML diff, and applies what the user accepts. `--yes` accepts everything without
a single prompt (a missing cargo-binstall is then installed first, the question's
default); `--dry-run` writes and runs nothing. `frd doctor` audits which
suggestions are already in place and exits non-zero when any is pending.

## Layout

- `src/` is the library, written in Verus and verified:
  - `catalog` builds the suggestions for a report (with a spec of the whole catalog and
    the law that it only offers what fits the machine);
  - `toml_model` is the mathematical model of a TOML document and the laws of the edits
    (an edit holds afterwards, leaves other keys alone, is idempotent, commutes with edits
    on other paths, and marks the table holding its key explicit and the tables it
    creates above it implicit);
  - `toml_ops` plans and detects edits through `toml_edit`, whose calls are declared in
    `toml_edit_specs`; diffs come from `similar`;
  - `status` and `doctor` decide what is pending; `wizard` and `runner` hold the
    decisions of the interactive run (what happens next on each card under `--yes` and
    `--dry-run`, the tally, card text, install steps, the live output window);
  - `system`, `report`, `paths`, `ui` and `text` hold the facts of the report and the
    text shown about them.
- `app/` is the program around it: argument parsing, probes of the machine, file
  writes, prompts, processes and terminal drawing.
- `tests/` runs the library on concrete values.
