# bx

bx keeps an account's configuration files as a config repo declares them. It is
additive: what it did not write it does not overwrite, and every write is
journalled before it is made, so an interrupted run is detected and undone.

This crate is verified with Verus. Every function under `src/` is proved to meet
its contract, but for six that only call outside code and are trusted (below).

## Layout

- `src/paths.rs`, `src/order.rs`, `src/text.rs`, `src/list.rs`: paths stored
  portably and rendered per account, and the orders and texts they rest on.
- `src/state.rs`, `src/digest.rs`, `src/fs.rs`: the ledger of what bx owns,
  digests, and what was observed on disk.
- `src/journal/`: the write-ahead journal. Its frames, what is believed of the
  bytes a crash leaves, and the session every write goes through.
- `src/plan/`: what a run decides for each target and each external checkout,
  how it is shown, and what `apply` does next.
- `src/report.rs`: the actions a row can have, and what a run exits with.
- `app/`: the program around the library. It reads the disk, runs git, asks on
  the terminal, and does what the library asks for.
- `tests/`: what the library does on concrete values.

## How the two halves meet

The library decides and the program acts. A session, a clone and a removal are
state machines: each step hands out one thing to do, and takes back a report of
what came of it. A decision is handed what the program observed as plain values.

## What is trusted

Six functions are believed and not proved. SHA-256 comes from `sha2`, line diffs from `similar`, and terminal styles from
`anstyle`. Each call stands behind one small function whose doc comment says
what is taken of it without proof; two calls into the standard library are
trusted the same way.
