//! The failures that the gateway core can report.

use vstd::prelude::*;
use vstd::string::*;

verus! {

/// What went wrong, as far as the core distinguishes it.
#[derive(Clone, Copy, Debug, PartialEq, Eq, Structural)]
pub enum MyError {
    /// Admission was refused. Nothing says which admission path failed.
    NotAuthorized,
    /// A command argument is not the text of a network address.
    MalformedAddress,
    /// An `authorization` header is present but carries no bearer credential.
    MalformedCredentialHeader,
    /// A probe or a reply could not be sent: the peer is gone.
    StreamWriteFailure,
    /// The peer showed no sign of life for longer than the timeout.
    PeerTimeout,
}

/// HTTP status that stands for an unauthorized request.
pub const STATUS_UNAUTHORIZED: u16 = 401;

/// HTTP status that stands for a malformed request.
pub const STATUS_BAD_REQUEST: u16 = 400;

/// HTTP status that stands for a request that timed out.
pub const STATUS_REQUEST_TIMEOUT: u16 = 408;

/// HTTP status that stands for a failure on the gateway's side.
pub const STATUS_INTERNAL_ERROR: u16 = 500;

impl MyError {
    /// The status code under which the failure is reported to an HTTP peer.
    pub open spec fn spec_status(self) -> u16 {
        match self {
            MyError::NotAuthorized => STATUS_UNAUTHORIZED,
            MyError::MalformedAddress => STATUS_BAD_REQUEST,
            MyError::MalformedCredentialHeader => STATUS_BAD_REQUEST,
            MyError::StreamWriteFailure => STATUS_INTERNAL_ERROR,
            MyError::PeerTimeout => STATUS_REQUEST_TIMEOUT,
        }
    }

    /// The wording of the failure. A refusal is worded the same whatever
    /// caused it.
    pub open spec fn spec_message(self) -> Seq<char> {
        match self {
            MyError::NotAuthorized => "Client is not authorized"@,
            MyError::MalformedAddress => "Malformed network address"@,
            MyError::MalformedCredentialHeader => "Malformed credential header"@,
            MyError::StreamWriteFailure => "Stream write failure"@,
            MyError::PeerTimeout => "Peer timed out"@,
        }
    }

    /// Whether the failure ends the session on which it occurs.
    pub open spec fn spec_is_fatal(self) -> bool {
        self == MyError::StreamWriteFailure || self == MyError::PeerTimeout
    }

    #[verifier::when_used_as_spec(spec_status)]
    pub fn status(self) -> (code: u16)
        ensures
            code == self.spec_status(),
    {
        match self {
            MyError::NotAuthorized => STATUS_UNAUTHORIZED,
            MyError::MalformedAddress => STATUS_BAD_REQUEST,
            MyError::MalformedCredentialHeader => STATUS_BAD_REQUEST,
            MyError::StreamWriteFailure => STATUS_INTERNAL_ERROR,
            MyError::PeerTimeout => STATUS_REQUEST_TIMEOUT,
        }
    }

    pub fn message(self) -> (text: String)
        ensures
            text@ == self.spec_message(),
    {
        match self {
            MyError::NotAuthorized => String::from_str("Client is not authorized"),
            MyError::MalformedAddress => String::from_str("Malformed network address"),
            MyError::MalformedCredentialHeader => String::from_str("Malformed credential header"),
            MyError::StreamWriteFailure => String::from_str("Stream write failure"),
            MyError::PeerTimeout => String::from_str("Peer timed out"),
        }
    }

    #[verifier::when_used_as_spec(spec_is_fatal)]
    pub fn is_fatal(self) -> (fatal: bool)
        ensures
            fatal == self.spec_is_fatal(),
    {
        match self {
            MyError::StreamWriteFailure => true,
            MyError::PeerTimeout => true,
            _ => false,
        }
    }
}

} // verus!
