//! The Soulseek wire protocol: encoding, and the message families of the
//! server, peer, peer-init, distributed and file connections.

pub mod compress;
pub mod distributed;
pub mod fields;
pub mod listing;
pub mod peer;
pub mod peer_init;
pub mod server_request;
pub mod server_response;
pub mod file;
pub mod wire;

pub use file::{FileOffset, FileTransferInit};
pub use wire::{MessageReader, MessageWriter, ProtocolError};

use vstd::prelude::*;

verus! {

pub const LOGIN_VERSION: u32 = 160;

pub const LOGIN_MINOR_VERSION: u32 = 3;

/// Fractional part of the current wall-clock second, in nanoseconds.
/// Calls `SystemTime::now` and `Duration::subsec_nanos` of std; a clock set
/// before 1970 counts as zero.  Documented bound: below one second.
#[verifier::external_body]
pub(crate) fn clock_subsec_nanos() -> (nanos: u32)
    ensures
        nanos < 1_000_000_000,
{
    std::time::SystemTime::now()
        .duration_since(std::time::UNIX_EPOCH)
        .unwrap_or_default()
        .subsec_nanos()
}

/// First token of a session, drawn from the clock: any value below
/// `u32::MAX / 1000`, leaving room to count up.
pub fn initial_token() -> (token: u32)
    ensures
        token < u32::MAX / 1000,
{
    token_from_nanos(clock_subsec_nanos())
}

/// The first token for a clock reading.
pub fn token_from_nanos(nanos: u32) -> (token: u32)
    ensures
        token == nanos % (u32::MAX / 1000),
{
    nanos % (u32::MAX / 1000)
}

/// The token after `token`: one more, wrapping to 1 (never 0).
pub fn increment_token(token: u32) -> (next: u32)
    ensures
        next == if token == u32::MAX { 1 } else { token + 1 },
        next != 0,
{
    let next = token.wrapping_add(1);
    if next < 1 {
        1
    } else {
        next
    }
}

/// Frame of a message with a one-byte code: length, code, payload.
pub open spec fn frame_u8(code: u8, payload: Seq<u8>) -> Seq<u8> {
    wire::le_bytes((payload.len() + 1) as nat, 4) + seq![code] + payload
}

/// Frame of a message with a four-byte code: length, code, payload.
pub open spec fn frame_u32(code: u32, payload: Seq<u8>) -> Seq<u8> {
    wire::le_bytes((payload.len() + 4) as nat, 4) + wire::le_bytes(code as nat, 4) + payload
}

/// Frames a payload behind a one-byte code.
pub fn frame_with_u8_code(code: u8, payload: &[u8]) -> (framed: Vec<u8>)
    requires
        payload@.len() < u32::MAX,
    ensures
        framed@ == frame_u8(code, payload@),
{
    let mut framed = MessageWriter::new();
    framed.write_u32(payload.len() as u32 + 1);
    framed.write_u8(code);
    framed.write_raw(payload);
    framed.into_bytes()
}

/// Frames a payload behind a four-byte code.
pub fn frame_with_u32_code(code: u32, payload: &[u8]) -> (framed: Vec<u8>)
    requires
        payload@.len() <= u32::MAX - 4,
    ensures
        framed@ == frame_u32(code, payload@),
{
    let mut framed = MessageWriter::new();
    framed.write_u32(payload.len() as u32 + 4);
    framed.write_u32(code);
    framed.write_raw(payload);
    framed.into_bytes()
}

} // verus!
