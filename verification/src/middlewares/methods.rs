//! The stages that come with a type of their own.

pub mod logging;
