//! Error taxonomy of the connection registry and its transports.

use vstd::prelude::*;

verus! {

/// Why establishing a transport connection failed.
#[derive(Debug, Clone, Copy, PartialEq, Eq)]
pub enum ConnectError {
    /// The transport handshake exceeded its fixed time bound.
    Timeout,
    /// The server rejected the supplied credential.
    AuthFailed,
    /// A public-key credential could not be used. `decrypt_failure` is true
    /// when the key file was found but could not be decrypted, and false
    /// when the file was missing or unreadable.
    KeyError { decrypt_failure: bool },
    /// Lower-level connection refusal or name-resolution failure.
    NetworkError,
    /// The caller cancelled the connect while it was still pending.
    Cancelled,
}

impl ConnectError {
    /// A short, user-displayable description of the failure.
    pub fn message(&self) -> (r: String)
        ensures
            r@ == self.message_spec(),
    {
        match self {
            ConnectError::Timeout => "connection timed out".to_owned(),
            ConnectError::AuthFailed => "authentication failed".to_owned(),
            ConnectError::KeyError { decrypt_failure } => {
                if *decrypt_failure {
                    "failed to decrypt the key file".to_owned()
                } else {
                    "key file not found or unreadable".to_owned()
                }
            },
            ConnectError::NetworkError => "network error".to_owned(),
            ConnectError::Cancelled => "connection cancelled".to_owned(),
        }
    }

    pub open spec fn message_spec(self) -> Seq<char> {
        match self {
            ConnectError::Timeout => "connection timed out"@,
            ConnectError::AuthFailed => "authentication failed"@,
            ConnectError::KeyError { decrypt_failure } => {
                if decrypt_failure {
                    "failed to decrypt the key file"@
                } else {
                    "key file not found or unreadable"@
                }
            },
            ConnectError::NetworkError => "network error"@,
            ConnectError::Cancelled => "connection cancelled"@,
        }
    }
}

/// Why a pseudo-terminal operation failed.
#[derive(Debug, Clone, Copy, PartialEq, Eq)]
pub enum PtyError {
    /// No live session (or no connection) exists under the identifier.
    NotFound,
    /// The session's queue was torn down concurrently.
    Closed,
    /// The bounded input queue is full; the caller must wait and retry,
    /// so that no byte is ever dropped.
    Backpressure,
}

impl PtyError {
    /// A short, user-displayable description of the failure.
    pub fn message(&self) -> (r: String)
        ensures
            r@ == self.message_spec(),
    {
        match self {
            PtyError::NotFound => "pty session not found".to_owned(),
            PtyError::Closed => "pty channel closed".to_owned(),
            PtyError::Backpressure => "pty input queue is full".to_owned(),
        }
    }

    pub open spec fn message_spec(self) -> Seq<char> {
        match self {
            PtyError::NotFound => "pty session not found"@,
            PtyError::Closed => "pty channel closed"@,
            PtyError::Backpressure => "pty input queue is full"@,
        }
    }
}

/// Why a one-shot remote command execution failed: the exit status the
/// server reported, if it reported one.
#[derive(Debug, Clone, Copy, PartialEq, Eq)]
pub struct ExecError {
    pub exit_code: Option<u32>,
}

} // verus!
