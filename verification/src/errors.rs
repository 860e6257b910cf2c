use vstd::prelude::*;

verus! {

/// The error taxonomy of the sync core.
///
/// - `ClipboardUnavailable`: a local clipboard read or write failed; callers
///   treat the clipboard as holding empty text and carry on.
/// - `DecodeError`: a wire message was malformed or truncated; the message is
///   dropped and the connection stays up.
/// - `ConnectFailure`: an outbound connection attempt was refused; surfaced to
///   the caller of the connect operation.
/// - `IoFailure`: a mid-session read or write failed; the session is torn down.
/// - `BindFailure`: the listener could not bind its port; fatal to the
///   listener and surfaced to the caller.
#[derive(Clone, Copy, PartialEq, Eq, Structural, Debug)]
pub enum SyncError {
    ClipboardUnavailable,
    DecodeError,
    ConnectFailure,
    IoFailure,
    BindFailure,
}

impl SyncError {
    /// A short human-readable name for the error, for logging by callers.
    pub fn describe(&self) -> (r: &'static str)
        ensures
            r@ == self.spec_describe(),
    {
        match self {
            SyncError::ClipboardUnavailable => "clipboard unavailable",
            SyncError::DecodeError => "wire message could not be decoded",
            SyncError::ConnectFailure => "connection attempt failed",
            SyncError::IoFailure => "socket read or write failed",
            SyncError::BindFailure => "listener could not bind its port",
        }
    }

    pub open spec fn spec_describe(&self) -> Seq<char> {
        match self {
            SyncError::ClipboardUnavailable => "clipboard unavailable"@,
            SyncError::DecodeError => "wire message could not be decoded"@,
            SyncError::ConnectFailure => "connection attempt failed"@,
            SyncError::IoFailure => "socket read or write failed"@,
            SyncError::BindFailure => "listener could not bind its port"@,
        }
    }
}

} // verus!
