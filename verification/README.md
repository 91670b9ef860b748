# vhm_core

The verified core of a desktop library for VALORANT highlight recordings: it reads the
recorder's logs, LevelDB battle lists and export configs, merges match metadata, names
agents, maps and weapons for display, plans library scans and discovery, and keeps the
bookkeeping of scans, thumbnails and sources.

Layout:

- `src/` — the library, written in Verus. Public functions state their results in their
  contracts, except where a result depends on the scan coordinator's state behind a lock
  shared between threads: `ScanCoordinator::new`, `status` and `record_event` state nothing
  of it, and `begin` and `request_cancel` state the shape of their answers (job ids, refusal
  reasons); the decisions taken under the lock are stated exactly on `CoordinatorState`.
  The laws of the library (what merging keeps, how scan state evolves, how orders and
  bounds are kept) are public proof functions beside the functions they speak of.
  Calls into `serde_json`, `base64`, `flate2`, `sha2`, `hex` and a few std functions stand
  behind small trusted wrappers whose contracts say what those crates document.
- `tests/` — tests of the library on concrete values.
- `app/` — the file-system side: reading logs, LevelDB directories and export configs, and
  handing their contents to the library.

Verify with Verus on `src/lib.rs`.
