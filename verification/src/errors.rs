//! Error kinds of the relay core.
//!
//! Each variant marks one failure class: authentication failures are never
//! fatal and surface as a 401 response, decode failures drop a single
//! message, publish failures surface as a 500 response, delivery failures
//! are scoped to one chat channel, and connection failures are retried by
//! the supervisor.

use vstd::prelude::*;

verus! {

#[derive(Debug, Clone)]
pub enum GitFriendsError {
    /// A malformed or unknown credential was presented.
    AuthenticationFailed,
    /// The broker was unreachable within the allowed time.
    ConnectionFailed(String),
    /// An inbound payload could not be decoded as a commit event.
    DecodeFailed(String),
    /// The transport rejected a publish; the event is not retried here.
    PublishFailed(String),
    /// One chat channel rejected a relayed line; other channels are unaffected.
    DeliveryFailed(String),
    /// A configuration value was rejected.
    InvalidConfig(String),
    /// Any other failure.
    Unknown(String),
}

impl GitFriendsError {
    /// True exactly on the authentication-failure kind.
    pub fn is_authentication_failed(&self) -> (r: bool)
        ensures
            r == (self is AuthenticationFailed),
    {
        match self {
            GitFriendsError::AuthenticationFailed => true,
            _ => false,
        }
    }

    /// True exactly on the decode-failure kind.
    pub fn is_decode_failed(&self) -> (r: bool)
        ensures
            r == (self is DecodeFailed),
    {
        match self {
            GitFriendsError::DecodeFailed(_) => true,
            _ => false,
        }
    }
}

} // verus!
