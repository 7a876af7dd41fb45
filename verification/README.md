# kobold-data-shim

A verified COBOL record-decoding shim for data-migration pipelines. Fixed-length records are
decoded against a copybook through the sealed `gnucobol-rs` courts (PIC, layout, packed, zoned,
binary, edited, cp500 text, LEVEL-88), and every higher court — file ingest, record-type routing,
batch control totals, banking reconciliation, posting custody, Db2 null indicators, sentinel,
currency and date profiles, transforms, redaction, diffs, tooling export, fixtures and pilot
packets — emits byte-stable JSON evidence. Anything outside the sealed subset fails closed.

Layout:

- `src/` — the library, written in Verus. Every public function states in its `ensures` exactly
  what it returns, over spec functions of the same module; the laws of the library are public
  proof functions (`lemma_*`). Calls into `gnucobol-rs`, `rayon` and a few std functions stand
  behind small trusted wrappers whose doc comments say what is assumed of them.
- `tests/` — behavioural tests against the compiled library.
- `app/` — the command-line tools (`kobold-record-dump`, `kobold-recon`, `kobold-pilot`): argument
  handling, file I/O and copybook-directory loading around the library.
