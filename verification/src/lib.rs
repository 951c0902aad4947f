//! Core of an LLM agent runtime: the conversation session model and its
//! message-sequence rules, the live-session table, the steering / follow-up
//! message queue, the post-LLM middlewares, the streaming aggregator, the
//! per-turn decisions of the react loop, tool approval, execution plans with
//! their recovery pipeline, and retries — each with a contract proved by
//! Verus.
pub mod guard;
pub mod json;
pub mod message_queue;
pub mod middleware;
pub mod plan;
pub mod retry;
pub mod runtime;
pub mod session;
pub mod session_table;
pub mod stream;
pub mod text;
pub mod tool_engine;
pub mod tool_guard;
pub mod turn;
pub mod types;
