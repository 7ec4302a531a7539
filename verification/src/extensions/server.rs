//! What the server side of the gateway adds to inbound requests.

pub mod set_header_extensions;
