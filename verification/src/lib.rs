//! Multi-level request forwarding between platforms: routing tables built
//! from a platform tree, forward-path headers, and the documents saved locally.

pub mod common;
pub mod forward;
pub mod graph_laws;
pub mod laws;
pub mod operation_laws;
pub mod output;
pub mod server;
