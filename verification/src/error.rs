use vstd::prelude::*;

verus! {

/// Why a received message header could not be decoded.
#[derive(Debug, Clone, Copy, PartialEq, Eq, Structural)]
pub enum DecodeError {
    /// The command field of a request header holds no known command.
    InvalidCommand(u16),
    /// The status field of a response header holds no known status.
    InvalidStatus(u16),
}

/// Errors of the migration machinery.
#[derive(Debug, Clone, PartialEq, Eq)]
pub enum MigratableError {
    /// The migration socket failed; the text describes the failure.
    MigrateSocket(String),
    /// Received bytes do not form a valid message.
    DeserializeError(DecodeError),
    /// Fetching the dirty log failed; the text describes the failure.
    DirtyLog(String),
}

} // verus!
