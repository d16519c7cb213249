# wayback_impersonator

Downloads archived assets from the Wayback Machine's CDX API.

- `src/` — the library, proved with Verus:
  - `text`: character-sequence search and lexicographic order;
  - `filename`: flat local file names for asset URLs (`sanitize_filename`);
  - `tasks`: CDX records deduplicated into download tasks (`build_tasks`);
  - `cdx`: the CDX query URL, and the records of a CDX response (status and JSON body);
  - `decompress`: gzip / Brotli decoding of response bodies;
  - `session`: status counts, retry filter, the steps of the retrying download loop,
    outcomes recorded in the journal.
- `app/` — the command-line program: HTTP with `impersonate-rs`, the JSON
  journal on disk, worker threads.
- `tests/` — tests of the library.
