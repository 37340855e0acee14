# bg_uploader

Uploads files in parts to S3 in the background, on iOS, Android and the web. A server hands
out the upload ids and the presigned URLs; the app can pause, be killed and go on later
without uploading a part twice.

- `src/` decides everything that can be decided on plain values, and is verified with Verus:
  which files a session knows and in which state they are (`session`, `store`, `runtime`),
  what is reported about them (`report`, `progress`, `format`), how a file is split into
  parts and which of them are left (`parts`, `upload`), the course of an upload and of its
  retries (`upload_orchestrator`, `engine`, `async_engine`, `ledger`, `attempt`, `retry`),
  what is queued next (`queue`, `intake`), and what goes over the wire (`api`, `hash`, `chunk`).
  `laws` states what holds across these operations.
- `app/` performs what the library decides: HTTP, storage, threads, and the bindings to
  Swift, Kotlin and JavaScript.
- `tests/` runs the library.

What the proofs rest on besides Verus: the functions of `indexmap`, `serde_json`, `sha2`
and the standard library that are marked `external_body` or `assume_specification` in
`transfers`, `api`, `hash`, `retry` and `text`.
