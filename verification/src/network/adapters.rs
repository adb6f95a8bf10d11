//! Kinds of protocol adapters and which one the factory builds for each.
use vstd::prelude::*;

verus! {

/// Type of network adapter
#[derive(Debug, Clone, Copy, PartialEq, Eq, Structural)]
pub enum AdapterType {
    Http,
    Https,
    Quic,
    Ssh,
    WebSocket,
    Raw,
}

/// The kind of adapter the factory builds for a detected protocol: HTTP
/// serves HTTP and HTTPS and stands in for every type without an adapter
/// of its own; QUIC and SSH have theirs.
pub open spec fn adapter_built_for(t: AdapterType) -> AdapterType {
    match t {
        AdapterType::Quic => AdapterType::Quic,
        AdapterType::Ssh => AdapterType::Ssh,
        _ => AdapterType::Http,
    }
}

/// Factory for creating network adapters
pub struct AdapterFactory;

impl AdapterFactory {
    /// The type of the adapter created for a detected protocol.
    pub fn adapter_type_for(adapter_type: AdapterType) -> (r: AdapterType)
        ensures
            r == adapter_built_for(adapter_type),
    {
        match adapter_type {
            AdapterType::Http | AdapterType::Https => AdapterType::Http,
            AdapterType::Quic => AdapterType::Quic,
            AdapterType::Ssh => AdapterType::Ssh,
            _ => AdapterType::Http,
        }
    }
}

} // verus!
