//! Extensions: long-lived collaborators that stages and the server lean on.

pub mod logging;
pub mod registry;
pub mod server;

pub use registry::ExtensionRegistry;
