# vision_core

The core of Vision, a local-first PDF desktop application, written in Verus
and proved against its contracts.

## Layout

- `src/` — the verified library.
  - `errors.rs`, `app_error.rs` — the typed errors and the error value that
    engine operations return, with their display texts.
  - `jobs.rs` — job lifecycle and cooperative cancellation, with the laws of
    the state machine.
  - `document_model.rs` — document identity and metadata.
  - `text.rs` — decimal rendering, white space, trimming and `u32` parsing
    as std defines them.
  - `pdf_model.rs`, `pdf_names.rs` — a plain model of a PDF object graph and
    the reader's lookup rules over it.
  - `pdf_reader.rs` — the trusted boundary to `lopdf` (page tree, a
    page's content streams, stream decoding) and to `String::from_utf8_lossy`.
  - `pdf_engine/` — redaction verification (`edit_redact.rs` and the
    `redact_*` modules), qpdf answers, base64, and the capability stubs of
    the pipelines that are not wired yet.
- `tests/` — tests of the library on concrete values.
- `app/` — the command-line shell: file and process I/O, tool discovery,
  floating-point geometry and pixel statistics, and the serialisable copies
  of the library's types.
