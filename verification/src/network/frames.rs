//! Which frames a peer connection accepts.
//!
//! Share listings and user info are large, and are read only from users
//! they were asked of; search results only for searches this client runs;
//! folder contents are never taken from a peer connection.
use std::collections::HashSet;

use vstd::prelude::*;

use super::codec::{MAX_LARGE_RESPONSE_SIZE, MAX_PEER_MESSAGE_SIZE};
use crate::client::users::{contains_name, name_set};
use crate::protocol::peer::PeerMessage;

verus! {

/// The responses this client asked for.
#[derive(Default)]
pub struct AllowedResponses {
    pub search_tokens: HashSet<u32>,
    pub shared_list_users: Vec<String>,
    pub user_info_users: Vec<String>,
}

/// A large response (a share list or user info) is read only from a user
/// it was asked of; frames of other codes are not held back here.
pub fn is_large_response_allowed(allowed: &AllowedResponses, username: &str, code: u32) -> (ok:
    bool)
    ensures
        code == 5 ==> ok == name_set(allowed.shared_list_users@).contains(username@),
        code == 16 ==> ok == name_set(allowed.user_info_users@).contains(username@),
        code != 5 && code != 16 ==> ok,
{
    if code == 5 {
        contains_name(&allowed.shared_list_users, username)
    } else if code == 16 {
        contains_name(&allowed.user_info_users, username)
    } else {
        true
    }
}

/// Search results are kept only for searches of this client; folder
/// contents never; any other message is kept.
pub fn is_parsed_message_allowed(allowed: &AllowedResponses, message: &PeerMessage) -> (ok: bool)
    ensures
        message matches PeerMessage::FileSearchResponse { token, .. } ==> ok
            == allowed.search_tokens@.contains(*token),
        message is FolderContentsResponse ==> !ok,
        !(message is FileSearchResponse) && !(message is FolderContentsResponse) ==> ok,
{
    match message {
        PeerMessage::FileSearchResponse { token, .. } => allowed.search_tokens.contains(token),
        PeerMessage::FolderContentsResponse { .. } => false,
        _ => true,
    }
}

/// Why a peer frame ends its connection.
#[derive(Debug, Clone, Copy, PartialEq, Eq, Structural)]
pub enum PeerFrameRefusal {
    /// Too short to hold a message code.
    Truncated,
    /// Larger than the limit of its code.
    TooLarge { size: usize, limit: usize },
    /// A large response that was not asked for; the connection is closed
    /// without an error.
    NotAllowed,
}

/// The payload limit of a peer message code: share lists may be larger.
pub open spec fn peer_payload_limit(code: u32) -> usize {
    if code == 5 {
        MAX_LARGE_RESPONSE_SIZE
    } else {
        MAX_PEER_MESSAGE_SIZE
    }
}

/// Checks the header of a peer frame: `size` counts the four-byte code and
/// the payload.  The answer is the payload length to read, or why the
/// connection ends.
pub fn check_peer_frame(allowed: &AllowedResponses, username: &str, size: usize, code: u32) -> (res:
    Result<usize, PeerFrameRefusal>)
    ensures
        size < 4 ==> res == Err::<usize, PeerFrameRefusal>(PeerFrameRefusal::Truncated),
        size >= 4 && size - 4 > peer_payload_limit(code) ==> res == Err::<
            usize,
            PeerFrameRefusal,
        >(PeerFrameRefusal::TooLarge { size, limit: peer_payload_limit(code) }),
        size >= 4 && size - 4 <= peer_payload_limit(code) ==> (res is Ok <==> ((code == 5
            ==> name_set(allowed.shared_list_users@).contains(username@)) && (code == 16
            ==> name_set(allowed.user_info_users@).contains(username@)))),
        size >= 4 && size - 4 <= peer_payload_limit(code) && res is Err ==> res == Err::<
            usize,
            PeerFrameRefusal,
        >(PeerFrameRefusal::NotAllowed),
        res is Ok ==> res == Ok::<usize, PeerFrameRefusal>((size - 4) as usize),
{
    if size < 4 {
        return Err(PeerFrameRefusal::Truncated);
    }
    let limit = if code == 5 {
        MAX_LARGE_RESPONSE_SIZE
    } else {
        MAX_PEER_MESSAGE_SIZE
    };
    if size - 4 > limit {
        return Err(PeerFrameRefusal::TooLarge { size, limit });
    }
    let is_large_response = code == 5 || code == 16;
    if is_large_response && !is_large_response_allowed(allowed, username, code) {
        return Err(PeerFrameRefusal::NotAllowed);
    }
    Ok(size - 4)
}

} // verus!
