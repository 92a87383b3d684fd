//! The proxy's error kinds and their mapping onto HTTP status codes.

use vstd::prelude::*;

verus! {

/// Everything that can go wrong while driving an authentication flow.
/// Each variant carries the human-readable detail that the transport
/// layer writes into the response body.
#[derive(Debug)]
pub enum Error {
    /// The referenced session is missing or expired; served as 404.
    SessionNotFound(String),
    /// A malformed inbound message from a service provider; served as 400.
    InvalidSamlRequest(String),
    /// A malformed or unverifiable upstream message; served as 502.
    InvalidSamlResponse(String),
    /// A metadata-query fetch, signature or parse failure; served as 502.
    MdqFetchFailed(String),
    /// Initiation was attempted before discovery completed; served as 400.
    MissingUniversitySelection,
    /// Anything unexpected; served as 500.
    Internal(String),
}

impl Error {
    /// The HTTP status code under which this error is reported.
    pub fn status_code(&self) -> (code: u16)
        ensures
            code == match *self {
                Error::SessionNotFound(_) => 404u16,
                Error::InvalidSamlRequest(_) => 400u16,
                Error::InvalidSamlResponse(_) => 502u16,
                Error::MdqFetchFailed(_) => 502u16,
                Error::MissingUniversitySelection => 400u16,
                Error::Internal(_) => 500u16,
            },
    {
        match self {
            Error::SessionNotFound(_) => 404,
            Error::InvalidSamlRequest(_) | Error::MissingUniversitySelection => 400,
            Error::InvalidSamlResponse(_) => 502,
            Error::MdqFetchFailed(_) => 502,
            Error::Internal(_) => 500,
        }
    }

    /// The human-readable line the transport layer writes into the
    /// response body.
    pub fn message(&self) -> (msg: String)
        ensures
            msg@ == match *self {
                Error::SessionNotFound(ref id) => "session not found: "@ + id@,
                Error::InvalidSamlRequest(ref d) => "invalid SAML request: "@ + d@,
                Error::InvalidSamlResponse(ref d) => "invalid SAML response: "@ + d@,
                Error::MdqFetchFailed(ref d) => "MDQ fetch failed: "@ + d@,
                Error::MissingUniversitySelection => "missing university selection"@,
                Error::Internal(ref c) => "internal error: "@ + c@,
            },
    {
        let mut msg = String::new();
        match self {
            Error::SessionNotFound(id) => {
                msg.append("session not found: ");
                msg.append(id.as_str());
            },
            Error::InvalidSamlRequest(d) => {
                msg.append("invalid SAML request: ");
                msg.append(d.as_str());
            },
            Error::InvalidSamlResponse(d) => {
                msg.append("invalid SAML response: ");
                msg.append(d.as_str());
            },
            Error::MdqFetchFailed(d) => {
                msg.append("MDQ fetch failed: ");
                msg.append(d.as_str());
            },
            Error::MissingUniversitySelection => {
                msg.append("missing university selection");
            },
            Error::Internal(c) => {
                msg.append("internal error: ");
                msg.append(c.as_str());
            },
        }
        msg
    }
}

} // verus!
