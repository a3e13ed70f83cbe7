# nioh3_save_manager

A console helper that puts a prepared Nioh 3 save into a Steam account: it
backs up the account's saves, switches the game's Steam cloud saves off, runs
the bundled signer twice (system save, then character save) with the
account's own system save as the signing identity, and only then replaces the
local saves, or leaves them untouched.

The library under `src/` holds the program's logic and is verified with Verus; the
program under `app/` performs the dialogs, prompts, processes and file system
work that the library asks for.

## Library (`src/`)

- `session` — the course of a whole run, from the command line to the
  replaced saves, as a state machine: a check changes nothing, a preview only
  shows the dialog, and nothing is changed before the user accepted the
  dialog, the plan's paths were checked and the run was confirmed.
- `workflow` — the preflight of a plan (`SavePlan::new` over a survey of its
  paths) and the run of a plan (`Execution`): all four files are backed up,
  both rounds are signed and collected and the staging files restored, and
  both local saves found unchanged, before a signed save is written; a failed
  write puts the originals back. Also the run's error messages.
- `round` — one signing round: Steam closed before and after, a clean exit
  of the signer, and the user's confirmation.
- `shutdown` — closing Steam: one exit request, a bounded wait, then the user.
- `cloud` — switching cloud saves off in the account's Steam configuration:
  the file is replaced by its edit only after its exact bytes were backed up
  and it was found unchanged just before the rename.
- `steam`, `vdf`, `relex`, `reparse`, `reinsert` — the SteamID64 to
  configuration path mapping, and the VDF lexer, parser and the
  format-preserving edit that switches `CloudEnabled` off, with the proofs
  that the edit is exact and that doing it twice changes nothing more.
- `signer` — decoding the signer's output as code page 936, character by
  character (through `encoding_rs`, with the codes that code page 936 keeps
  in the private use area), keeping a split two-byte character for the next
  read, and forwarding each read to the console before the next one.
- `cli` — the command line and the answers typed at the prompts.
- `paths` — account directory names, their order, the save root from the
  environment, and the choice of the asset directory.
- `registry` — reading `reg query` and `tasklist` output, and where Steam
  usually is.
- `dialog` — the UTF-16 strings and the in-memory dialog template handed to
  Win32.
- `text` — decimal spelling and reading, trimming, and text comparison.

## Program (`app/`)

`main.rs` drives the session, `workflow.rs` performs the actions of a plan's
run, `steam.rs`, `paths.rs` and `signer.rs` do the disk, registry and process
work, and `confirmation.rs` is the Win32 confirmation window.
