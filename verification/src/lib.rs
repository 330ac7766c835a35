//! A small library for managing remote development containers over SSH.
//!
//! The library keeps a registry that maps each SSH host name to the ordered
//! list of container names last seen on that host, persists the registry as a
//! structured text document, and builds the shell command lines used to
//! attach a terminal multiplexer session inside a container or to forward a
//! local port to a container's address.

pub mod codec;
pub mod commands;
pub mod errors;
pub mod listing;
pub mod registry;
pub mod remote;
pub mod text;

pub use errors::DevboxError;
pub use registry::{HostEntry, HostRegistry};
