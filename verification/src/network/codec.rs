//! Frame sizes and the errors of reading a frame.
use vstd::prelude::*;

use crate::protocol::ProtocolError;

verus! {

pub const MAX_SERVER_MESSAGE_SIZE: usize = 16777216;

pub const MAX_PEER_MESSAGE_SIZE: usize = 16777216;

pub const MAX_LARGE_RESPONSE_SIZE: usize = 469762048;

pub const MAX_CONTROL_MESSAGE_SIZE: usize = 16384;

/// What can go wrong while reading a frame.
#[derive(Debug)]
pub enum FrameError {
    Io(std::io::Error),
    TooLarge { size: usize, limit: usize },
    Truncated,
    Protocol(ProtocolError),
}

/// A frame with a one-byte code announces `size` bytes, code included: it
/// is refused when larger than `max_size` or too short for the code;
/// otherwise its payload is `size - 1` bytes long.
pub fn frame_u8_payload_len(size: usize, max_size: usize) -> (res: Result<usize, FrameError>)
    ensures
        size > max_size ==> (res matches Err(FrameError::TooLarge { size: s, limit }) && s
            == size && limit == max_size),
        size <= max_size && size < 1 ==> res matches Err(FrameError::Truncated),
        size <= max_size && size >= 1 ==> res == Ok::<usize, FrameError>((size - 1) as usize),
{
    if size > max_size {
        return Err(FrameError::TooLarge { size, limit: max_size });
    }
    if size < 1 {
        return Err(FrameError::Truncated);
    }
    Ok(size - 1)
}

/// A server frame announces its size, the four-byte code included: it is
/// read when that size is at least four and at most the server limit.
pub fn server_frame_size_ok(size: usize) -> (ok: bool)
    ensures
        ok == (4 <= size && size <= MAX_SERVER_MESSAGE_SIZE),
{
    4 <= size && size <= MAX_SERVER_MESSAGE_SIZE
}

/// A server message that does not parse because its code is unknown is
/// skipped; any other parse error ends the connection.
pub fn is_unsupported_message(error: &ProtocolError) -> (skip: bool)
    ensures
        skip == (error is UnknownMessageCode),
{
    match error {
        ProtocolError::UnknownMessageCode { .. } => true,
        _ => false,
    }
}

} // verus!
