//! Error kinds that the core distinguishes.
//!
//! Connection-level failures (`Timeout`, `ConnectFailed`, `TransportFailed`)
//! are inputs to the role state machine and never fatal. `StoreFailed` is
//! surfaced to the caller of the store operation. `NoServerAvailable` is the
//! one startup-fatal error. `ElectionFailed` reports a discovery malfunction.

use vstd::prelude::*;

verus! {

/// The error kinds of the core.
#[derive(Debug, Clone)]
pub enum MeshError {
    /// A bounded wait expired.
    Timeout,
    /// A handshake did not complete.
    ConnectFailed(String),
    /// An established stream died.
    TransportFailed(String),
    /// A malformed wire message or IPC command.
    Serialization,
    /// The persistent store reported an error.
    StoreFailed(String),
    /// Every role-selection path was refused.
    NoServerAvailable,
    /// The discovery infrastructure malfunctioned.
    ElectionFailed(String),
}

impl MeshError {
    /// A field-by-field copy: the same kind, with the same text.
    pub fn duplicate(&self) -> (r: MeshError)
        ensures
            r is Timeout <==> self is Timeout,
            r is ConnectFailed <==> self is ConnectFailed,
            r is TransportFailed <==> self is TransportFailed,
            r is Serialization <==> self is Serialization,
            r is StoreFailed <==> self is StoreFailed,
            r is NoServerAvailable <==> self is NoServerAvailable,
            r is ElectionFailed <==> self is ElectionFailed,
    {
        match self {
            MeshError::Timeout => MeshError::Timeout,
            MeshError::ConnectFailed(s) => MeshError::ConnectFailed(s.clone()),
            MeshError::TransportFailed(s) => MeshError::TransportFailed(s.clone()),
            MeshError::Serialization => MeshError::Serialization,
            MeshError::StoreFailed(s) => MeshError::StoreFailed(s.clone()),
            MeshError::NoServerAvailable => MeshError::NoServerAvailable,
            MeshError::ElectionFailed(s) => MeshError::ElectionFailed(s.clone()),
        }
    }

    /// A short human-readable description of the error kind.
    pub fn describe(&self) -> (r: String)
        ensures
            r@.len() > 0,
    {
        let r = match self {
            MeshError::Timeout => "timeout",
            MeshError::ConnectFailed(_) => "connect failed",
            MeshError::TransportFailed(_) => "transport failed",
            MeshError::Serialization => "serialization error",
            MeshError::StoreFailed(_) => "store failed",
            MeshError::NoServerAvailable => "no server available",
            MeshError::ElectionFailed(_) => "election failed",
        };
        proof {
            reveal_strlit("timeout");
            reveal_strlit("connect failed");
            reveal_strlit("transport failed");
            reveal_strlit("serialization error");
            reveal_strlit("store failed");
            reveal_strlit("no server available");
            reveal_strlit("election failed");
        }
        String::from_str(r)
    }
}

} // verus!
