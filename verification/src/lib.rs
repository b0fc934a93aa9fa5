//! Verified core of a Soulseek-protocol client: the byte-level message
//! codec, the protocol messages, and the bookkeeping that decides what the
//! client does with them.

pub mod client;
pub mod network;
pub mod protocol;
pub mod text;
pub mod types;
