# memos

An agent memory system: memory frames with content-type half-lives, intent
classification for queries, a causal-graph beam search over related memories,
adaptive-memory metadata (keywords, tags, context), feedback rules and
conflict detection between decisions.

## Layout

- `src/` is the library, verified with Verus. Real-valued quantities
  (confidences, scores, edge weights) are held in basis points, where 10000
  stands for 1.0.
  - `bindings.rs`: the calls into std, `chrono`, `uuid` and `regex`, each with
    the contract the rest of the library relies on.
  - `text.rs`, `ranking.rs`: string helpers and a stable ranking by score.
  - `storage/`: memory frames, relation types, and the parts of the vault that
    compute (the frame a put stores, its index tags, search hits).
  - `retrieval/`: search types, intent classification, graph expansion,
    reranking.
  - `cognitive/`: decision extraction, causal edges, adaptive-memory
    enrichment, feedback, conflict detection.
  - `config.rs`, `hooks.rs`, `api.rs`: configuration with its defaults, hook
    events, MCP tool names.
- `tests/`: tests of the library on concrete values.
- `app/`: the command-line program around the library: the Memvid-backed
  vault file, the SQLite relations sidecar, YAML configuration files, the HTTP
  and MCP servers, and the floating-point scoring formulas.
