//! A verified signaling relay core: the envelope wire codec, the server-side
//! connection registry and relay-connection state machine, and the peer-side
//! signaling client and negotiation coordinator, with the settings and bridge
//! plumbing around them.
pub mod bridge;
pub mod bytes;
pub mod client;
pub mod codec;
pub mod config;
pub mod coordinator;
pub mod registry;
pub mod relay;
pub mod render;
pub mod settings;
pub mod utils;
