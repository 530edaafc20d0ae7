# dotrift

Dotrift keeps every setting in one folder (the source directory) and places
each file where the computer expects it (the target directory): linked,
copied, or filled in from a template.

This crate is the verified core of the tool. Verus proves the code in `src/`
against its contracts; the proof functions named `lemma_*` state properties
that hold across calls. The few functions that call outside code are marked
`external_body`: Verus takes their contracts on trust, and the four that ask
the process environment for directories state nothing of their result.

## Layout

- `src/` — the library, verified by Verus:
  - `cli` — the command line grammar, and resolving source and target;
  - `paths`, `targets`, `portals`, `rules`, `deployment` — from the portals
    and rules of `dotrift.toml` to the entries that are deployed;
  - `deploy`, `entry_order`, `target_state`, `diff_view`, `prompt` — reconciling
    an entry with what is on disk, the order and end of a run, obstruction
    prompts, state records, clean-up and pruning decisions;
  - `tree`, `collision`, `analysis`, `portal_config`, `editor_args` — the
    collision checks and config edits of `add`;
  - `data`, `value`, `builtins` — variables, profiles and template functions;
  - `global`, `environment`, `ignore_file`, `mode`, `output`, `capture`,
    `dry_run`, `text`, `scan`, `error` — configuration, reporting and text
    helpers.
- `tests/` — tests of the library on concrete values.
- `app/` — the executable: argument handling, file system work, prompts and
  the TOML files, driving the library.

Outside crates that the library calls (`glob`, `ignore`, `indexmap`, `normalize-path`,
`dirs`) sit behind small wrappers whose contracts say what the library relies
on; each names the function it calls.
