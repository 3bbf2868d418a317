//! Forwards commit events from source-control hooks into topics on a
//! publish/subscribe broker, keyed by repository and identity, and relays
//! matching broker messages onward to a chat network.
//!
//! The verified core covers authenticated ingestion, topic derivation, the
//! wire codec for commit events, the supervisor and dispatcher decision
//! logic, and the display formatting of relayed lines.

pub mod auth;
pub mod codec;
pub mod commit;
pub mod config;
pub mod errors;
pub mod mock;
pub mod mqtt;
pub mod strutil;
pub mod webhook;

pub use config::Config;
pub use errors::GitFriendsError;
