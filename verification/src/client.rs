//! The multi-endpoint client: one connection per backend, a pool over them
//! with a cursor, failover and rotation.

pub mod endpoint;
pub mod pool;
pub mod subscription;
