//! Route resolution, policy storage, credential exchange and inlet lifecycle
//! rules for policy-gated tunnels, with machine-checked contracts.

pub mod cli_state;
pub mod codec;
pub mod credentials;
pub mod delete;
pub mod enroll;
pub mod error;
pub mod expr;
pub mod identifier;
pub mod inlet;
pub mod multiaddr;
pub mod policy;
pub mod route;
pub mod text;
pub mod transports;
pub mod users;
