//! Peer requests for shared files held back while the share index is
//! being built, answered once it is ready.
use vstd::prelude::*;

use crate::protocol::peer::PeerMessage;
use crate::text::text_eq;
use crate::types::TransferDirection;

verus! {

/// Most requests held back at once.
pub const PENDING_REQUEST_LIMIT: usize = 128;

/// The shared file a request asks for, when the request waits for the
/// share index: a queue request or a request to download from us.
pub open spec fn deferred_file(message: PeerMessage) -> Option<Seq<char>> {
    match message {
        PeerMessage::QueueUpload { file, .. } => Some(file@),
        PeerMessage::TransferRequest { direction: TransferDirection::Download, file, .. } => Some(
            file@,
        ),
        _ => None,
    }
}

/// The shared file a request asks for, when the request waits for the
/// share index.
pub fn deferrable_path(message: &PeerMessage) -> (path: Option<&str>)
    ensures
        match deferred_file(*message) {
            Some(f) => path matches Some(p) && p@ == f,
            None => path is None,
        },
{
    match message {
        PeerMessage::QueueUpload { file, .. } => Some(file.as_str()),
        PeerMessage::TransferRequest { direction: TransferDirection::Download, file, .. } => Some(
            file.as_str(),
        ),
        _ => None,
    }
}

/// Requests held back, at most one per user and file, in the order they
/// came.
pub struct PendingRequests {
    requests: Vec<(String, PeerMessage)>,
}

impl PendingRequests {
    /// The requests held back: user and message.
    pub closed spec fn held(&self) -> Seq<(Seq<char>, PeerMessage)> {
        self.requests@.map_values(|r: (String, PeerMessage)| (r.0@, r.1))
    }

    pub fn new() -> (p: Self)
        ensures
            p.held().len() == 0,
    {
        PendingRequests { requests: Vec::new() }
    }

    /// Holds back a request while the share index is built.  A later
    /// request of the same user for the same file takes the place of the
    /// earlier one; a new one is added while there is room.  A request
    /// that is not held back is handed back.
    pub fn defer(&mut self, username: String, message: PeerMessage) -> (back: Option<(String, PeerMessage)>)
        ensures
            match deferred_file(message) {
                None => back == Some((username, message)) && final(self).held() == old(self).held(),
                Some(f) => if exists|i: int|
                    0 <= i < old(self).held().len() && old(self).held()[i].0 == username@
                        && deferred_file(old(self).held()[i].1) == Some(f) {
                    &&& back is None
                    &&& exists|i: int|
                        0 <= i < old(self).held().len() && old(self).held()[i].0 == username@
                            && deferred_file(old(self).held()[i].1) == Some(f) && final(self).held()
                            == old(self).held().update(i, (username@, message))
                } else if old(self).held().len() < PENDING_REQUEST_LIMIT {
                    back is None && final(self).held() == old(self).held().push((username@, message))
                } else {
                    back == Some((username, message)) && final(self).held() == old(self).held()
                },
            },
    {
        let path = match deferrable_path(&message) {
            Some(p) => p.to_owned(),
            None => {
                return Some((username, message));
            },
        };
        let ghost f = path@;
        let ghost held = self.held();
        let mut i: usize = 0;
        while i < self.requests.len()
            invariant
                held == self.held(),
                *self == *old(self),
                deferred_file(message) == Some(f),
                path@ == f,
                i <= held.len(),
                forall|j: int|
                    0 <= j < i ==> !(held[j].0 == username@ && deferred_file(#[trigger] held[j].1)
                        == Some(f)),
            decreases held.len() - i,
        {
            let same = match deferrable_path(&self.requests[i].1) {
                Some(p) => text_eq(self.requests[i].0.as_str(), username.as_str()) && text_eq(
                    p,
                    path.as_str(),
                ),
                None => false,
            };
            proof {
                assert(held[i as int] == (self.requests@[i as int].0@, self.requests@[i as int].1));
            }
            if same {
                self.requests.set(i, (username, message));
                proof {
                    assert(self.held() =~= held.update(i as int, (username@, message)));
                }
                return None;
            }
            i = i + 1;
        }
        if self.requests.len() < PENDING_REQUEST_LIMIT {
            let ghost uv = username@;
            self.requests.push((username, message));
            proof {
                assert(self.held() =~= held.push((uv, message)));
            }
            return None;
        }
        Some((username, message))
    }

    /// Hands back every request held, in order, and holds none.
    pub fn take_all(&mut self) -> (all: Vec<(String, PeerMessage)>)
        ensures
            all@.map_values(|r: (String, PeerMessage)| (r.0@, r.1)) == old(self).held(),
            final(self).held().len() == 0,
    {
        let mut all: Vec<(String, PeerMessage)> = Vec::new();
        std::mem::swap(&mut all, &mut self.requests);
        proof {
            assert(self.held() =~= Seq::<(Seq<char>, PeerMessage)>::empty());
        }
        all
    }

    pub fn len(&self) -> (n: usize)
        ensures
            n == self.held().len(),
    {
        self.requests.len()
    }
}

} // verus!
