# tome

The verified core of an offline Wikipedia reader, written in Verus.

- `src/` is the library: request governance
  (backoff, circuit breaker, cache, kill switch, request log, and the
  governor that composes them), the multistream dump formats (index lines,
  page records, the synthetic fixture builder, SHA-1 checks), module
  definitions, the SQL table-dump scanners with the proof that reading a dump
  in chunks gives what reading it whole gives, the bookmark backup format, and
  the decisions of the reading and ingest flows and of full-text search. Its functions are verified
  against their contracts, except a few small wrappers marked
  `#[verifier::external_body]` whose contracts are trusted: each makes a
  call, or a short chain of calls, into std or an outside crate (bzip2,
  sha1, hex, quick-xml, serde_json, url) and says in its doc comment what
  it claims of them.
- `tests/` runs the library on concrete inputs.
- `app/` is ordinary Rust around the library: HTTP, files, SQLite, the
  full-text index, JSON and TOML, and the code that computes with
  floating-point numbers.
