//! The network side of the client: frame size limits and which responses
//! a peer may send, the addresses of users and the attempts to connect to
//! them, transfer pacing, and the distributed search network.

pub mod addresses;
pub mod attempts;
pub mod distributed;
pub mod codec;
pub mod frames;
pub mod pacing;
pub mod state;
