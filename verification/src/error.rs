//! The error taxonomy shared by streams and the HTTP layer.

use vstd::prelude::*;

verus! {

/// The family an [`Error`] belongs to.
#[derive(Debug, Clone, Copy, PartialEq, Eq, Structural)]
pub enum ErrorKind {
    /// The host reported an I/O failure.
    Transport,
    /// The peer broke the protocol.
    Protocol,
    /// The handler's own logic failed.
    Application,
}

/// An error of a stream or request operation.
#[derive(Debug, Clone, Copy, PartialEq, Eq, Structural)]
pub enum Error {
    /// The host reported an I/O failure, with the host's code for it.
    Transport(u32),
    /// The status line did not carry a valid status code.
    MalformedStatus,
    /// A header that the exchange requires is absent.
    MissingHeader,
    /// A header value is not encoded as the protocol demands.
    InvalidHeaderValue,
    /// The handler failed, with a code of its own choosing.
    Application(u32),
}

impl Error {
    /// The family of this error.
    pub open spec fn spec_kind(&self) -> ErrorKind {
        match *self {
            Error::Transport(_) => ErrorKind::Transport,
            Error::MalformedStatus => ErrorKind::Protocol,
            Error::MissingHeader => ErrorKind::Protocol,
            Error::InvalidHeaderValue => ErrorKind::Protocol,
            Error::Application(_) => ErrorKind::Application,
        }
    }

    /// The family of this error.
    #[verifier::when_used_as_spec(spec_kind)]
    pub fn kind(&self) -> (k: ErrorKind)
        ensures
            k == self.spec_kind(),
    {
        match *self {
            Error::Transport(_) => ErrorKind::Transport,
            Error::MalformedStatus => ErrorKind::Protocol,
            Error::MissingHeader => ErrorKind::Protocol,
            Error::InvalidHeaderValue => ErrorKind::Protocol,
            Error::Application(_) => ErrorKind::Application,
        }
    }
}

} // verus!
