# disk_visualizer

The decision logic of an offline disk usage visualizer for macOS and Windows,
written in Verus and proved against its contracts.

## Layout

- `src/` — the verified library.
  - `text`, `paths`, `windows_path`: strings, decimal numerals, and a model of
    path components on Unix and on Windows (drive, UNC and verbatim
    prefixes, both separators): absoluteness, normalization, prefix
    stripping, parents and file names, and the component order.
  - `scanner`, `file_metrics`: per-file metrics, saturating totals, hard-link
    keys, volume boundaries, the step-by-step decisions of the walk of one
    entry, and the bounded, size-sorted summary.
  - `storage`: conversions for the SQLite index, schema steps, and the
    streaming writer whose buffer never holds a full batch.
  - `scan_jobs`: the state machine of the single scan job (start, pause,
    resume, cancel, progress, completion).
  - `cache_catalog`, `cache_activity`, `cache_query`: the versioned catalog of
    application caches, classification by whole path components, runtime
    states, and the reading of saved classifications.
  - `change_history`, `index_trust`, `index_checkpoint`, `incremental_trust`:
    versioned history tokens, continuity of history, and when an incremental
    update may be trusted.
  - `macos_fsevents`, `fsevents_callback`, `fsevents_history`, `windows_usn`,
    `incremental_rescan`, `incremental_storage`: collection of change events,
    planning of rescan targets, and the checks on an incremental snapshot.
- `tests/` — tests of the library.
- `app/` — the unverified side: SQLite access, the folder walk, file metadata,
  worker threads, and serde forms of the library's values.

The macOS history stream (an FSEvents stream run on a dispatch queue) and the
macOS trust assessment that drives it are not part of `app/`: the FSEvents and
dispatch bindings they need are not among the project's dependencies. Their
decisions stand in the library (`fsevents_history`, `fsevents_callback`,
`incremental_trust`), ready for such a driver; the library's `read_history`
refuses with the message that the stream exists only on macOS, and
`assess_macos_index_trust` answers that the platform is unsupported, as the
program does elsewhere than on macOS.
