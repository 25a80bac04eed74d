# stellaris_hunter_scan

A read-only scanner and planner for Stellaris achievement hunting, with its
logic verified by Verus.

- `src/` — the verified library: the Clausewitz tokenizer and parser, save
  archive reading (the `zip` crate is called from `src/save.rs` through
  small trusted wrappers that read an entry's size and bytes), the discovery, progression and action facts extracted
  from a gamestate, the catalog's normalisation and checks, the planner's
  rule engine, DLC and mod eligibility, install and documents discovery
  rules, path normalisation, and the icon cache's file naming. Every public function states what
  it returns in its `ensures`; the laws that relate several functions are
  public proof functions (`lemma_*`).
- `tests/` — tests of the library on concrete inputs.
- `app/` — the command-line program around the library: reading save files
  from disk (their archive bytes go to the library), the icon cache's files,
  the launcher's SQLite database, the app's own SQLite
  store, JSON input and output, and the progression measures that are
  floating-point numbers.

Run `main` with `--install-path` and `--documents-path` to print a scan
report; with `--db <file>` the runs are recorded, `--import-catalog <file>`
imports a catalog snapshot, `--sync-catalog <file>` imports a downloaded
snapshot only when it is newer than the stored one, and `--evaluate <run folder>` prints the
planner's verdicts for a recorded run; `--icon-cache <app data dir>` lists
the cached achievement icons.
