//! The error taxonomy shared by the protocol, the workers and the restore
//! path.

use vstd::prelude::*;

verus! {

/// Everything that can go wrong while serving a connection or restoring a
/// shard from its snapshot file.
///
/// - `ParseRequest`: malformed client input; the connection stays open and the
///   server replies `ERROR`.
/// - `RestoreDB`: a snapshot file was unreadable or malformed at startup;
///   restore keeps whatever it had decoded so far.
/// - `Connection`: a socket failure or a client `quit`; the connection closes.
/// - `Ignorable`: an empty or whitespace-only read; no reply is sent.
/// - `Internal`: a worker reply of the wrong kind or a closed channel; the
///   connection closes.
#[derive(Debug)]
pub enum HorcruxError {
    ParseRequest(String),
    RestoreDB(String),
    Connection(String),
    Ignorable,
    Internal,
}

impl HorcruxError {
    /// A human-readable description, in place of a `Display` impl.
    pub fn describe(&self) -> (r: String)
        ensures
            r@ == match self {
                HorcruxError::ParseRequest(m) => "Failed to parse request: "@ + m@,
                HorcruxError::RestoreDB(m) => "Failed to restore DB: "@ + m@,
                HorcruxError::Connection(m) => "Connection error: "@ + m@,
                HorcruxError::Ignorable => "Ignorable error"@,
                HorcruxError::Internal => "Internal error"@,
            },
    {
        match self {
            HorcruxError::ParseRequest(m) => "Failed to parse request: ".to_owned().concat(
                m.as_str(),
            ),
            HorcruxError::RestoreDB(m) => "Failed to restore DB: ".to_owned().concat(m.as_str()),
            HorcruxError::Connection(m) => "Connection error: ".to_owned().concat(m.as_str()),
            HorcruxError::Ignorable => "Ignorable error".to_owned(),
            HorcruxError::Internal => "Internal error".to_owned(),
        }
    }
}

} // verus!
