# rskit_bench

A benchmarking toolkit for classifiers and LLM judges, with its core logic
verified by Verus.

## Layout

- `src/` — the verified library. Its functions are verified against
  `requires` / `ensures` contracts over mathematical models (`Seq`, `Map`,
  `nat`); the few without an `ensures` are named in their doc comments. The
  laws of the library are public proof functions:
  - `identity`, `semantic`, `tokens`: collision-free metric identities;
  - `prompt`, `judge`: judge prompt templates and the trust boundary for
    untrusted judge replies;
  - `hashing`, `provenance`, `eval_context`, `run_id`: reproducibility
    (order-independent dataset hash, per-sample seeds, run identifiers and
    timestamps);
  - `compare`, `runner`, `storage`: run comparison, regression gating, run
    decisions and result listing;
  - `counting`, `matching`: the integer kernels of the metrics;
  - `markup`, `html`, `report`, `markdown`, `viz`: escaped HTML, JUnit XML,
    CSV, the plain-text report and SVG output.
- `app/` — ordinary Rust around the library: file I/O, serde records,
  floating-point metric values and charts.
- `tests/` — tests of the library.

Calls into `sha2`, `semver`, `uuid` and `rand_chacha`, and the few std
calls that vstd does not specify (such as `DefaultHasher` for cache keys),
stand behind small trusted wrappers whose contracts state what those crates
and std document.

Content hashes (the dataset hash, per-sample seeds and the rubric
fingerprint) are SHA-256 digests of length-prefixed frames. Hashes produced
by other tools with a different digest algorithm will not match them.
