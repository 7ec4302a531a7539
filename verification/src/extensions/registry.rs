//! The registry of the extensions that were made at startup. Stage builders
//! read it and never change it.

use vstd::prelude::*;
use crate::extensions::logging::Logging;

verus! {

/// The extensions of a running gateway.
#[derive(Debug)]
pub struct ExtensionRegistry {
    pub logging: Option<Logging>,
}

impl ExtensionRegistry {
    /// A registry without extensions.
    pub fn new() -> (registry: ExtensionRegistry)
        ensures
            registry.logging is None,
    {
        ExtensionRegistry { logging: None }
    }

    /// The registry with the logging extension `logging` in place of the one
    /// it had.
    pub fn with_logging(self, logging: Logging) -> (registry: ExtensionRegistry)
        ensures
            registry.logging == Some(logging),
    {
        ExtensionRegistry { logging: Some(logging) }
    }

    /// Whether the logging extension is there.
    pub fn has_logging(&self) -> (r: bool)
        ensures
            r == self.logging is Some,
    {
        self.logging.is_some()
    }
}

} // verus!
