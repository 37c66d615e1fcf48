//! Errors reported by the carving library.
use vstd::prelude::*;
use vstd::string::StringExecFns;

verus! {

/// Errors reported by the carving library.
///
/// Errors of the storage layer and of the signature file reader are carried
/// as their rendered messages.
#[derive(Debug, Clone)]
pub enum CarveError {
    /// Block device error.
    BlockDevice(String),
    /// Invalid signature definition.
    InvalidSignature(String),
    /// Signature file syntax error.
    TomlParse(String),
    /// I/O error while writing extracted data.
    Io(String),
}

impl CarveError {
    /// Human-readable description of the error.
    pub fn describe(&self) -> (r: String)
        ensures
            r@ == match self {
                CarveError::BlockDevice(m) => "block device error: "@ + m@,
                CarveError::InvalidSignature(m) => "invalid signature definition: "@ + m@,
                CarveError::TomlParse(m) => "TOML parse error: "@ + m@,
                CarveError::Io(m) => "I/O error: "@ + m@,
            },
    {
        let (mut s, m) = match self {
            CarveError::BlockDevice(m) => (String::from_str("block device error: "), m),
            CarveError::InvalidSignature(m) => (String::from_str("invalid signature definition: "), m),
            CarveError::TomlParse(m) => (String::from_str("TOML parse error: "), m),
            CarveError::Io(m) => (String::from_str("I/O error: "), m),
        };
        s.append(m.as_str());
        s
    }
}

} // verus!
