# wasmcloud_utils

Building blocks for wasmCloud utility components, written in Verus: the
logic of each utility is executable Rust with `requires`/`ensures`
contracts, proved by Verus.

## Layout

- `src/` — the verified library, one module per utility:
  authentication (`auth`, `jwt`, `oauth`), caching (`cache`), circuit
  breaking, configuration, cron schedules, distributed locks, event
  triggers, feature flags, health checks, idempotency, job queues,
  observability, rate limiting (`ratelimit`, `ratelimit_http`), retries,
  secrets (`secrets`, `secret_store`), tenant scoping, tracing, batching, and
  the workflow engine (`workflow` for definitions and validation,
  `workflow_engine` for retry and skip decisions, `workflow_run` for what
  each request does to a run, `workflow_route` for the HTTP routes,
  `workflow_replies` for the JSON answers, `workflow_keys` for the store
  layout, `workflow_api` for the handlers that answer from the store).
  Shared pieces live in `store` (a keyed store with a map view), `strings`
  and `text`.
- `tests/` — tests of the library on concrete values.
- `app/` — the I/O around the library: the clock, JSON and YAML reading and
  writing of the library's records, and the drivers that carry the
  library's decisions to a key-value store.

Calls into outside crates (HMAC-SHA256, base64, AES-256-GCM, `serde_json`
values) go through small trusted wrappers whose contracts say what the
crates do; everything else is proved.
