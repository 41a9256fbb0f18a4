# anvaya

A local daemon that lets an AI assistant ask for filesystem actions, each of
which runs only after the user approves it. The decisions are a library
verified with Verus; a thin program serves them over HTTP on localhost.

## Layout

- `src/` — the verified library.
  - `path` — lexical path components, `.`/`..` collapsing, prefix tests.
  - `policy` — resolving client paths under the workspace roots (`~`
    expansion, traversal refusal).
  - `protocol`, `api` — actions, requests and responses; the request each
    endpoint makes of its body and the envelope sent back.
  - `actions` — resolve → approve → bind, the order every request follows;
    batches that run in order and are undone whole when a step fails.
  - `approver` — approval decisions, console answers, the pending queue and
    the summaries shown to the user.
  - `config`, `cors` — configuration from the environment's values, root
    validation, the cross-origin policy.
  - `fs`, `search`, `tree`, `text` — the pure parts of each filesystem
    action: read windows, UTF-8 checks, listing order, edits, search,
    directory trees, project detection.
  - `errors` — error types, messages and wire codes.
- `tests/` — tests of the library.
- `app/` — the program: HTTP server, JSON shapes, disk and console I/O.
