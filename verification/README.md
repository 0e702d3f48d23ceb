# memo

Local-first long-term memory store for LLM agents: create, read, update and forget
memories, hybrid (semantic + keyword) search, pure vector recall, consolidation,
deduplication and importance-based pruning, with no network dependency.

## Layout

- `src/` — the library, verified with Verus, with contracts over mathematical models
  (`Seq`, `Map`, `Set`). Where an operation goes through the store or the embedder,
  which users implement, success is not promised; the contracts say what holds of each
  answer those give, and what the store holds after a failure.
  - `model`, `error`, `traits` — memories, queries, errors, and the store and embedder
    abstractions with their contracts.
  - `manager` — the memory manager (add, get, update, forget, search, recall,
    consolidate, dedup, list); `dedup` and `ranking` hold the deduplication plan and
    the search ranking with their lemmas.
  - `lifecycle` — importance decay and pruning.
  - `embed`, `keyword`, `text` — tokens, hashed term counts, keyword overlap, text
    helpers; `codec` and `row` — the stored forms of embeddings and rows.
  - `binary32` — single-precision values kept as their bit patterns and ordered.
  - `ids`, `bench`, `commands` — identifiers, the benchmark workload, CLI decisions.
  - `config`, `upgrade`, `version` — setup choices, release selection, install plans.
- `app/` — the `memo` command-line program: SQLite persistence, floating-point
  scoring, JSON output, config files, setup prompts and release downloads.
- `tests/` — tests of the library.
