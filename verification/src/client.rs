//! Values of the client-side SDK that talks to the daemon's socket.

use vstd::prelude::*;

verus! {

/// Why an SDK operation failed.
#[derive(Debug)]
pub enum KrillError {
    Connection(String),
    Io(String),
    Serialization(String),
}

impl KrillError {
    /// The human-readable description of the error.
    pub fn message(&self) -> (r: String)
        ensures
            match self {
                KrillError::Connection(s) => r@ == "Connection error: "@ + s@,
                KrillError::Io(s) => r@ == "IO error: "@ + s@,
                KrillError::Serialization(s) => r@ == "Serialization error: "@ + s@,
            },
    {
        let mut m = String::new();
        match self {
            KrillError::Connection(s) => {
                m.append("Connection error: ");
                m.append(s.as_str());
            },
            KrillError::Io(s) => {
                m.append("IO error: ");
                m.append(s.as_str());
            },
            KrillError::Serialization(s) => {
                m.append("Serialization error: ");
                m.append(s.as_str());
            },
        }
        m
    }
}

} // verus!
