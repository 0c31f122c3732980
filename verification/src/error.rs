//! The one error sum type that spans the core; lower layers wrap their
//! failures into this taxonomy at the boundary.

use vstd::prelude::*;

verus! {

#[derive(Debug, Clone, PartialEq, Eq)]
pub enum MeliError {
    /// An operating-system input/output failure.
    Io,
    /// A protocol violation reported by a backend.
    Protocol { detail: Vec<u8> },
    /// Input could not be parsed; `offset` points at the failure.
    Parse { offset: usize },
    /// Authentication was rejected.
    Auth,
    /// The peer closed the connection.
    Disconnected,
    /// A requested object does not exist.
    NotFound,
    /// A value was rejected before any operation was attempted.
    Invalid,
}

impl MeliError {
    /// A short human-readable description of the error class.
    pub fn message(&self) -> (r: &'static str)
        ensures
            r@.len() > 0,
    {
        proof {
            reveal_strlit("input/output error");
            reveal_strlit("protocol error");
            reveal_strlit("parse error");
            reveal_strlit("authentication rejected");
            reveal_strlit("disconnected");
            reveal_strlit("not found");
            reveal_strlit("invalid value");
        }
        match self {
            MeliError::Io => "input/output error",
            MeliError::Protocol { .. } => "protocol error",
            MeliError::Parse { .. } => "parse error",
            MeliError::Auth => "authentication rejected",
            MeliError::Disconnected => "disconnected",
            MeliError::NotFound => "not found",
            MeliError::Invalid => "invalid value",
        }
    }
}

} // verus!
