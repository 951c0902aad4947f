# agent_base

The core of an LLM agent runtime, written in Verus: the runtime's decisions
on sessions, turns, tool calls, streams and plans are executable functions
with contracts, proved by Verus. What stays outside the proofs is the
asynchronous shell in `app/`: calling the model and the tools, waiting,
timing, locking, persistence, and the float growth factor of the retry
backoff.

## Layout

- `src/` — the verified library.
  - `types.rs`: session ids, chat messages, finish reasons, run outcomes, errors.
  - `session.rs`: the conversation session — message pushes, turn counting and
    trimming, ephemeral messages, dangling tool calls, the message-sequence
    rules, sanitising of tool-call arguments, the run-level counters.
  - `session_table.rs`: the live sessions with least-recently-used eviction
    and the per-session limits.
  - `message_queue.rs`: steering and follow-up queues.
  - `middleware.rs`: the per-turn tool-call limit and the tool-enforcement nudge.
  - `stream.rs`: aggregation of a streamed response (text, reasoning, tool
    calls assembled from indexed deltas, read from the provider's entries).
  - `turn.rs`: the react loop's decisions — turn gate, response handling,
    tool-failure recovery, managed runs with follow-ups.
  - `tool_guard.rs`: the guard against truncated tool-call arguments.
  - `guard.rs`: the guard's view of a turn and what its decisions do.
  - `tool_engine.rs`: argument validation, the approval flow, tool texts,
    cutting long tool outputs, and whether a batch of tool results lets the
    run go on.
  - `plan.rs`: execution plans — dependency gating and the progressive
    recovery pipeline (retry with backoff, alternative step, replan, fallback).
  - `retry.rs`: retrying failed model calls.
  - `json.rs`, `text.rs`: JSON through `serde_json`, and string helpers.
  - `runtime.rs`: the runtime's queue, reasoning settings and cancellation token.
- `tests/` — tests of the library.
- `app/` — the asynchronous shell: serialisable copies of the session types,
  session stores (in memory, SQLite), the event bus, the session manager, the
  react loop and the plan runner.
