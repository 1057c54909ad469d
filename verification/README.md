# nix-reaper

Deep-cleans a NixOS system: old generations, unreachable store paths, stray garbage
collector roots, containers, the journal, caches, the trash and core dumps.

`nix-reaper status` reports what takes up space and changes nothing.
`nix-reaper clean` cleans up; `nix-reaper clean --dry-run` only shows what it would do.

## Layout

- `src/` is the library, verified with Verus. It decides everything: which commands are
  run and in which order, which links and directory entries are removed, and every
  character that is printed.
- `app/` is the program: it parses the command line, runs processes, touches files and
  prints, as a session of the library asks.
- `tests/` runs the library on concrete values.

## What is proved

- A dry run never asks for anything that changes something, and neither does a status
  report: the commands that they run are lookups of programs and queries out of a fixed
  list (`src/runs.rs`, `src/status.rs`).
- The commands that a dry run of a cleanup previews are those that the cleanup runs, with
  the same arguments and in the same order, if the same programs are installed
  (`src/plan.rs`).
- A link is removed only right after it was found to be a symbolic link, and only if it is
  a stray root; entries of a directory are removed with all that is in them only if they
  are directories and no symbolic links (`src/runs.rs`).
- The list of stray roots is sorted, lists no path twice, holds every stray root of the
  report, and nothing that does not lie under the home directory (`src/roots.rs`).
- The counter of deleted store paths counts exactly the announced deletions, however the
  output of a command is interleaved or cut into parts (`src/progress.rs`).
