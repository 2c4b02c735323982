//! Extensions as the settings screen lists them, and why one failed.
use vstd::prelude::*;
use crate::entity::{HealthStatus, Plugin};

pub mod content;
pub mod routes;
pub mod search;

verus! {

/// Where a capability can be used.
#[derive(Clone, Copy, Debug, PartialEq, Eq, Structural)]
pub enum CapabilityFacet {
    Mcp,
}

/// A capability of a plugin, and for each facet whether it is disabled.
#[derive(Clone, Debug)]
pub struct CapabilityInfo {
    pub id: String,
    pub description: String,
    pub facets: Vec<(CapabilityFacet, bool)>,
}

/// An extension plugin as the app lists it.
#[derive(Clone)]
pub struct ExtensionInfo {
    pub name: String,
    pub description: String,
    pub author: Option<String>,
    pub homepage: Option<String>,
    pub capabilities: Vec<CapabilityInfo>,
    pub status: HealthStatus,
    pub error: Option<String>,
    /// `None` for built-in extensions, which have no user-editable config.
    pub config: Option<Plugin>,
}

/// Why talking to an extension plugin failed.
#[derive(Debug, PartialEq, Eq)]
pub enum ExtensionConnectionError {
    /// An I/O failure, described.
    Io(String),
    Disconnected,
    /// No answer within this many milliseconds.
    Timeout(u64),
    ProtocolVersion { expected: u64, actual: u64 },
    UnexpectedResponse,
    Extension(String),
}

} // verus!
