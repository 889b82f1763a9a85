# reclaim_core

A disk-space reclaimer whose decision logic is proved correct with Verus.

- `src/` is the verified library: the candidate model, what each scan target
  turns a found directory or file into, scoring decisions and tags, selection
  and cache merging, grouping (duplicates, similar names, shared directories),
  disk classification, duplicate detection, reports and the view filters. Each
  public function's contract states its result; where a function reads the
  clock, the contract holds for whatever instant comes back, and a variant taking
  the instant as an argument states the exact result. Laws that span several
  calls (saved selections restored on rescan, a cleanup leaving nothing selected,
  mode cycles, hot paths first, …) are public proof functions.
- `app/` is the `reclaim` command line around it: argument handling, walking the
  file system, SQLite for the scan cache, system indexers, deletion, printing,
  and the floating-point scoring.
- `tests/` runs the library on concrete values.

Scores and reproducibility are kept in thousandths (`0..=1000`) inside the
library; the command line converts them to and from fractions of one.
