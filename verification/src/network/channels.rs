//! Providers of network channels.
use vstd::prelude::*;

verus! {

/// Default TCP channel provider
pub struct TcpChannelProvider;

impl TcpChannelProvider {
    /// Get the provider name
    pub fn provider_name(&self) -> (r: &'static str)
        ensures
            r@ == "TCP"@,
    {
        "TCP"
    }
}

} // verus!
