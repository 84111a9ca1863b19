//! A connection-oriented message relay: every payload received from one
//! connected peer is delivered to all currently registered peers, the
//! sender included.
//!
//! The crate holds the decisions of the relay: which identities are
//! registered, what a connection does with each inbound frame, and to whom
//! one payload is delivered. Sockets, tasks and locks belong to the caller.

pub mod client;
pub mod connection;
pub mod delivery;
pub mod endpoint;
pub mod frame;
pub mod identity;
pub mod registry;
