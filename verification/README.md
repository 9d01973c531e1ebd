# loki_ariaforge

The verified core of a multiplexed, resumable HTTP range downloader. A file is
split into byte ranges, one per circuit; each circuit fetches its range
(optionally through its own Tor SOCKS credentials), hands the bytes to a disk
writer, and the writer records finished chunks in a state file so that an
interrupted download resumes where it stopped. When every circuit is done the
output is hashed with SHA-256.

Layout:

- `src/` — the library, verified with Verus.
  - `text.rs`: decimal rendering and parsing, substring search.
  - `state.rs`: the saved state, the division of the file into chunk ranges
    and the bookkeeping of completed chunks, with the proof that the ranges
    tile the file.
  - `writer.rs`: the messages to the disk writer and what it does with them.
  - `circuit.rs`: one circuit's progress through its range, its `Range`
    headers, and the proof that a finished circuit wrote every byte of it.
  - `tor.rs`: how many Tor daemons run, their options, and each circuit's proxy.
  - `probe.rs`: onion detection and how the length of the target is settled.
  - `digest.rs`: the SHA-256 of the output in lowercase hex.
  - `events.rs`: the records sent to and received from the interface.
  - `session.rs`: the course of a download as a state machine of actions and
    outcomes.
- `app/` — the Tauri shell: processes, HTTP, files, serde records and the
  floating-point speed figures.
- `tests/` — tests of the library on concrete values.
