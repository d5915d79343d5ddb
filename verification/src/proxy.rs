//! How the launcher reaches the network.

use vstd::prelude::*;

verus! {

/// The proxy the HTTP client uses.
#[derive(Debug, Clone)]
pub enum ProxyMode {
    /// The operating system's proxy settings.
    System,
    /// An explicit proxy URL such as `http://127.0.0.1:7890`.
    Custom(String),
    /// A direct connection, no proxy at all.
    Direct,
}

impl Default for ProxyMode {
    fn default() -> (m: Self)
        ensures
            m is System,
    {
        ProxyMode::System
    }
}

} // verus!
