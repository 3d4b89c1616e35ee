# lunatig

A small git front end. The library (`src/`) holds its decisions, verified
with Verus; `app/` holds the window, the threads and the git I/O.

- `src/flags.rs`: a file's status flags, read through `git2::Status`.
- `src/backend.rs`: commands, events, how status listings become file lists,
  and the worker's decision function `Backend::step` (phase and outcome of
  the last action to next phase and action), with the laws of the worker.
- `src/repo.rs`: the first form of the worker, for which every git failure is
  fatal and staging never checks the disk.
- `src/view.rs`: what the window shows and how it folds in events.
- `app/`: the `eframe` window, the worker threads that perform the actions
  on a `git2::Repository`, and logging.
