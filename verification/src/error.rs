//! Failure kinds of the login flow and of the URL and header builders.

use vstd::prelude::*;
use vstd::string::*;
use crate::text::{dec_int, dec_string_i32};

verus! {

/// Everything that can go wrong while validating login inputs, building
/// URLs or headers, or carrying out a login.  All variants are terminal:
/// no retry is attempted on the caller's behalf.
#[derive(Debug, Clone)]
pub enum LogInError {
    /// The password was absent or empty.
    MissingCredential,
    /// The username was empty.
    EmptyUsername,
    /// The address was empty.
    EmptyAddress,
    /// The address is not a valid IPv4 or IPv6 literal.
    InvalidAddress,
    /// The login endpoint answered with a status outside the 200..=299 range.
    StatusCodeError(u16),
    /// The HTTP transport failed; carries the transport's own message.
    TransportError(String),
    /// A token or version string holds characters that are illegal in an
    /// HTTP header value.
    InvalidHeaderValue,
    /// URL construction was attempted on a profile with no known URL rule.
    UnresolvedProfile,
    /// The session-style login answered without the session id header.
    MissingSessionHeader,
    /// The login response body could not be read as a login response.
    MalformedLoginBody,
}

impl LogInError {
    /// A human-readable description of the error.
    pub fn message(&self) -> (r: String)
        ensures
            r@ == match self {
                LogInError::MissingCredential => "the password is missing or empty"@,
                LogInError::EmptyUsername => "username cannot be empty"@,
                LogInError::EmptyAddress => "address cannot be empty"@,
                LogInError::InvalidAddress => "address is not a valid IP literal"@,
                LogInError::StatusCodeError(code) => "status code error "@ + dec_int(
                    *code as int,
                ),
                LogInError::TransportError(m) => "transport error: "@ + m@,
                LogInError::InvalidHeaderValue => "value cannot be used in an HTTP header"@,
                LogInError::UnresolvedProfile => "unknown profile type, manual endpoint construction required"@,
                LogInError::MissingSessionHeader => "the session id header is missing from the response"@,
                LogInError::MalformedLoginBody => "the login response body is malformed"@,
            },
    {
        match self {
            LogInError::MissingCredential => String::from_str("the password is missing or empty"),
            LogInError::EmptyUsername => String::from_str("username cannot be empty"),
            LogInError::EmptyAddress => String::from_str("address cannot be empty"),
            LogInError::InvalidAddress => String::from_str("address is not a valid IP literal"),
            LogInError::StatusCodeError(code) => {
                let mut m = String::from_str("status code error ");
                let d = dec_string_i32(*code as i32);
                m.append(d.as_str());
                m
            },
            LogInError::TransportError(msg) => {
                let mut m = String::from_str("transport error: ");
                m.append(msg.as_str());
                m
            },
            LogInError::InvalidHeaderValue => String::from_str(
                "value cannot be used in an HTTP header",
            ),
            LogInError::UnresolvedProfile => String::from_str(
                "unknown profile type, manual endpoint construction required",
            ),
            LogInError::MissingSessionHeader => String::from_str(
                "the session id header is missing from the response",
            ),
            LogInError::MalformedLoginBody => String::from_str(
                "the login response body is malformed",
            ),
        }
    }
}

} // verus!
