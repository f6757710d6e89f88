//! The failures that the vault and the chat gateway report.
use vstd::prelude::*;

verus! {

/// Why an operation failed.
#[derive(Debug, Clone, PartialEq, Eq)]
pub enum Failure {
    /// The vault root or a file does not exist.
    NotFound,
    /// The vault root is not a directory, the conversation is empty, or a
    /// relative path is malformed.
    InvalidInput,
    /// No connection settings are available.
    Unconfigured,
    /// The chat backend could not be reached; carries the cause.
    Connection(String),
    /// The chat backend answered with a non-2xx status.
    Api { status: u16, body: String },
    /// The reply body could not be parsed as JSON.
    Malformed,
    /// The reply holds no recognizable content field.
    NoContent,
    /// A read, write or directory creation failed; carries the cause.
    Io(String),
}

} // verus!
