//! A JSON-RPC gateway core: a failover client over a pool of interchangeable
//! backend endpoints, and the per-method middleware chain that leads to it.
//!
//! Everything that waits (sockets, timers, tasks) lives with the caller. The
//! library holds the decisions: which endpoint a call goes to, what an inbound
//! frame resolves, which stages a method's chain has and what each does to a
//! call.

pub mod error;
pub mod extensions;
pub mod client;
pub mod middlewares;
pub mod gateway;
