//! The middleware chain: per method, an ordered list of stages that a call
//! runs through on its way to the backend and back.

pub mod cache;
pub mod call;
pub mod chain;
pub mod context;
pub mod methods;
pub mod stage;
