# blabla

BlaBla checks an application against contracts written in `.bla` files: behavior
contracts that a verifier exercises through the application's own actions, and structure
contracts about the repository. A project is declared in `project.bla`; `blabla finish`
runs the canonical verification and is the only way a project is declared complete
(exit 0 only for OVERALL GREEN).

This crate is that logic as a Verus library, with its contracts proved.

## Layout

- `src/` — the verified library.
  - `syntax.rs`, `ir.rs`, `diagnostic.rs`, `text.rs`, `tree.rs` — the `.bla` block
    syntax, the intermediate forms, refusals with their places, text helpers, and a sorted
    string map.
  - `project/` — the project manifest parser, contract groups, the identity of the
    contracts and the always-tracked files (`identity.rs`), what a query names
    (`lookup.rs`), ignore rules, content digests, the run-state marker and run ids, the record of the last verification and its
    evaluation (`status.rs`), the project status (`status_view.rs`), and tasks with their
    challenge receipts (`task.rs`).
  - `memory/` — mission, system, process, goal and knowledge memories, with their checks.
  - `structure.rs`, `report.rs`, `recovery.rs`, `provider/`, `runtime/`, `voice.rs` — the
    values the status and reports are made of.
  - `cli/` — what the commands decide and print: `finish.rs` is the finish gate as a step
    function from state and event to next state and action; the renderers write into
    strings.
- `tests/` — tests of the library on concrete values.
- `app/` — the command-line program: argument handling and file I/O around the library.
