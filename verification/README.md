# host-core

The shared runtime of the hosted CMD+RVL operators (`rvl`, `shape`), with its
logic verified by Verus.

- `src/` is the verified library: host configuration from environment values
  (`config`), bearer-token authentication and CORS origin checks (`config`),
  file inputs and Kovrex file addresses (`input`), delimiter options
  (`delimiter`), unsigned number parsing (`numeric`), report relabelling over a
  model of JSON values (`report`), the statuses and answers of tool runs
  (`tool`), errors (`error`) and character-level string operations (`text`).
- `app/` is the unverified shell: reading the environment, serving HTTP with
  axum (`GET /health`, `/describe`, `/schema/output`, `/version`,
  `POST /v1/run`), fetching Kovrex files, writing temporary files, and calling
  the `rvl` and `shape` tools.
- `tests/` exercises the library on concrete values.
