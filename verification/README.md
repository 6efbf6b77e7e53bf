# ixgateway

The decision logic of the InferX HTTP gateway, verified with Verus.

- `src/` is the verified library. Each module states its behaviour in
  `requires`/`ensures` over mathematical views (`Seq`, `Map`, `Set`, spec
  functions), and laws that span several calls are public proof functions.
  - `external_endpoint`, `http_gw_external`, `external_ceiling`: external
    OpenAI-compatible endpoints (slug rules, the serving check, the
    slug-keyed table mirror, admin request checks, the AIMD ceiling law).
  - `session`, `session_store`, `session_turn`: agent sessions (the store,
    compaction thresholds and tails, the messages sent to the model, the
    reading of streamed replies, interrupted turns).
  - `skill_chain`, `skill_trace_sse`, `mcp_stream_server`: skill chains
    (request normalization, child-call planning, trace forwarding, the SSE
    framing, the MCP tool loopback).
  - `req_token`, `json`: token usage in requests and responses.
  - `func_agent_mgr`, `scheduler_client`: request queueing, slots and the
    leased-worker set.
  - `secret`, `log_admin`, `metrics`, `http_gateway`: records, tool naming,
    verbose categories, metric labels and request bodies.
  - `text`: the string toolkit the rest is built on.
- `app/` is ordinary Rust around the library: serde forms of its records,
  JSON conversion, environment reads, process-wide state, and the parts that
  need floating point.
- `tests/` exercises the library on concrete values.
