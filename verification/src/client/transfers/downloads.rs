//! A download as the client tracks it.
use vstd::prelude::*;

use super::files::{
    clean_file_name, clean_name, incomplete_file_path, incomplete_file_path_of, join_path,
    path_join, virtual_basename, virtual_basename_of, DEFAULT_BASENAME_BYTE_LIMIT,
};
use super::queue::{key_view, keys_view, TransferKey};
use super::registry::{EntryView, KeyView, Registry};
use super::{
    AbortResult, EnqueueResult, RetryResult, TransferIds, TransferPhase, TransferRejectReason,
    TransferWork,
};
use crate::protocol::peer::PeerMessage;
use crate::protocol::server_request::ServerRequest;
use crate::client::users::{contains_name, name_set, names_of};
use crate::text::text_eq;
use crate::types::{
    ConnId, FileAttributes, TransferDirection, TransferId, TransferSnapshot, TransferStatus,
};

verus! {

/// A transfer, keyed by user name and virtual path.
#[derive(Debug)]
pub struct Transfer {
    pub id: TransferId,
    pub username: String,
    pub virtual_path: String,
    pub size: u64,
    pub attributes: FileAttributes,
    pub phase: TransferPhase,
    pub bytes_done: u64,
    pub file_path: Option<String>,
    pub queue_place: u32,
    pub speed_bps: u32,
    pub retry_attempt: bool,
    pub legacy_attempt: bool,
    pub size_changed: bool,
    pub incomplete_path: Option<String>,
    /// When the current attempt was granted, on the caller's clock.
    pub activated_at: Option<u64>,
}

impl Transfer {
    /// The key of a transfer: the user and the virtual path.
    pub fn key(&self) -> (key: (String, String))
        ensures
            key.0@ == self.username@,
            key.1@ == self.virtual_path@,
    {
        (self.username.clone(), self.virtual_path.clone())
    }

    /// The file name: the last component of the virtual path.
    pub fn basename(&self) -> (name: String)
        ensures
            name@ == virtual_basename_of(self.virtual_path@),
    {
        virtual_basename(self.virtual_path.as_str())
    }

    /// The download as reported: its phase's status, the failure reason of a
    /// failed one, and a speed only while it transfers.
    pub fn snapshot(&self) -> (s: TransferSnapshot)
        ensures
            s.id == self.id,
            s.direction == TransferDirection::Download,
            s.username@ == self.username@,
            s.virtual_path@ == self.virtual_path@,
            s.size == self.size,
            s.bytes_done == self.bytes_done,
            s.status == self.phase.spec_status(),
            match self.phase {
                TransferPhase::Failed(r) => s.failure_reason matches Some(x) && x@ == r@,
                _ => s.failure_reason is None,
            },
            match self.file_path {
                Some(p) => s.file_path matches Some(x) && x@ == p@,
                None => s.file_path is None,
            },
            s.queue_place == self.queue_place,
            s.speed_bps == if self.phase is Transferring { self.speed_bps } else { 0 },
            s.attributes == self.attributes,
    {
        TransferSnapshot {
            id: self.id,
            direction: TransferDirection::Download,
            username: self.username.clone(),
            virtual_path: self.virtual_path.clone(),
            size: self.size,
            bytes_done: self.bytes_done,
            status: self.phase.status(),
            failure_reason: match &self.phase {
                TransferPhase::Failed(reason) => Some(reason.clone()),
                _ => None,
            },
            file_path: match &self.file_path {
                Some(p) => Some(p.clone()),
                None => None,
            },
            queue_place: self.queue_place,
            speed_bps: match self.phase {
                TransferPhase::Transferring => self.speed_bps,
                _ => 0,
            },
            attributes: self.attributes,
        }
    }
}

/// A file connection to open the partial file for.
pub struct FileStart {
    pub key: TransferKey,
    pub incomplete_dir: String,
    pub incomplete_path: String,
    /// The size changed since the partial file was begun: start it anew.
    pub truncate: bool,
}

/// A finished download whose file is to be moved into place.
pub struct Placement {
    pub key: TransferKey,
    pub destination_dir: String,
    pub incomplete_path: String,
    pub basename: String,
}

/// The bytes to receive on a file connection.
pub struct DownloadStart {
    pub conn_id: ConnId,
    pub offset: u64,
    pub bytes_left: u64,
}

/// What the download bookkeeping asks of the network.
pub enum NetAction {
    Server(ServerRequest),
    Peer { username: String, message: PeerMessage },
    CloseConnection(ConnId),
    /// Open a file connection to a user for the upload with this token.
    RequestFileConnection { username: String, token: u32 },
    /// Send the file just opened over a file connection.
    UploadFile { conn_id: ConnId, size: u64 },
    /// Stop reading share lists from a user.
    DisallowSharedListUser(String),
    /// Stop reading user info from a user.
    DisallowUserInfoUser(String),
    /// Read the share list a user sends.
    AllowSharedListUser(String),
    /// Read the user info a user sends.
    AllowUserInfoUser(String),
    /// Keep the results of a search of ours.
    AllowSearchToken(u32),
    /// Drop the results of a search of ours.
    DisallowSearchToken(u32),
    /// Connect and log in to the server.
    ServerConnect,
    /// Close the server connection.
    ServerDisconnect,
    /// Pace file transfers to these rates, in bytes per second (0: no limit).
    SetTransferLimits { upload_bps: u64, download_bps: u64 },
}

/// The request that asks a peer to queue a file for us.
pub open spec fn queue_request(key: KeyView, legacy: bool, action: NetAction) -> bool {
    action matches NetAction::Peer { username, message: PeerMessage::QueueUpload { file, legacy_client } }
        && username@ == key.0 && file@ == key.1 && legacy_client == legacy
}

/// The held-back queue requests that are sent, in order: one for each key
/// whose download is still queued, with its recorded legacy flag.
pub open spec fn flushed_requests(keys: Seq<KeyView>, t: Map<KeyView, EntryView<Transfer>>) -> Seq<(KeyView, bool)>
    decreases keys.len(),
{
    if keys.len() == 0 {
        Seq::empty()
    } else {
        let k = keys.last();
        flushed_requests(keys.drop_last(), t) + if t.contains_key(k) && t[k].3.phase is Queued {
            seq![(k, t[k].3.legacy_attempt)]
        } else {
            Seq::empty()
        }
    }
}

/// `after` is `before` followed by one queue request for each of `reqs`.
pub open spec fn requests_sent(before: Seq<NetAction>, after: Seq<NetAction>, reqs: Seq<(KeyView, bool)>) -> bool {
    &&& after.len() == before.len() + reqs.len()
    &&& after.take(before.len() as int) =~= before
    &&& forall|i: int| 0 <= i < reqs.len() ==> queue_request(reqs[i].0, reqs[i].1, #[trigger] after[before.len() + i])
}

/// `m` asks a peer to queue file `f`.
pub open spec fn queued_file(m: PeerMessage, f: Seq<char>) -> bool {
    m matches PeerMessage::QueueUpload { file, .. } && file@ == f
}

/// One of `messages` asks a peer to queue file `f`.
pub open spec fn asks_queue_of(messages: Seq<PeerMessage>, f: Seq<char>) -> bool {
    exists|i: int| 0 <= i < messages.len() && queued_file(#[trigger] messages[i], f)
}

/// Why downloads fail when their peer cannot be reached.
pub open spec fn connection_failure(is_offline: bool) -> Seq<char> {
    if is_offline {
        "user is offline"@
    } else {
        "connection timeout"@
    }
}

/// `after` is download `before` failed with `reason`, without its token and
/// connection.
pub open spec fn failed_by_connection(before: EntryView<Transfer>, after: EntryView<Transfer>, reason: Seq<char>) -> bool {
    &&& after.0 == before.0
    &&& after.1 is None
    &&& after.2 is None
    &&& after.3.phase matches TransferPhase::Failed(r) && r@ == reason
    &&& after.3 == (Transfer { phase: after.3.phase, ..before.3 })
}

/// The server is asked to watch `user` by one of `actions`.
pub open spec fn watches(actions: Seq<NetAction>, user: Seq<char>) -> bool {
    exists|j: int| 0 <= j < actions.len() && (#[trigger] actions[j] matches NetAction::Server(
        ServerRequest::WatchUser { user: u },
    ) && u@ == user)
}

/// One of `actions` asks the peer to queue the file of `key`.
pub open spec fn asks_queue(actions: Seq<NetAction>, key: KeyView, legacy: bool) -> bool {
    exists|j: int| 0 <= j < actions.len() && queue_request(key, legacy, #[trigger] actions[j])
}

/// Queue places are asked for once this long has passed since the last
/// round (milliseconds).
pub const QUEUE_POSITION_INTERVAL_MS: u64 = 300_000;

/// Whether a round of queue-place requests is due at `now`.
pub open spec fn positions_due(asked_at: Option<u64>, now: u64) -> bool {
    match asked_at {
        None => false,
        Some(at) => now >= at && now - at >= QUEUE_POSITION_INTERVAL_MS,
    }
}

/// `action` asks the peer of `key` for the file's place in its queue.
pub open spec fn place_request(key: KeyView, legacy: bool, action: NetAction) -> bool {
    action matches NetAction::Peer { username, message: PeerMessage::PlaceInQueueRequest { file, legacy_client } }
        && username@ == key.0 && file@ == key.1 && legacy_client == legacy
}

/// One of `actions` asks for the queue place of `key`.
pub open spec fn asks_place(actions: Seq<NetAction>, key: KeyView, legacy: bool) -> bool {
    exists|j: int| 0 <= j < actions.len() && place_request(key, legacy, #[trigger] actions[j])
}

/// `action` asks for the queue place of one of the queued downloads.
pub open spec fn place_for_queued(transfers: Map<KeyView, EntryView<Transfer>>, action: NetAction) -> bool {
    exists|k: KeyView| #[trigger] transfers.contains_key(k) && transfers[k].3.phase is Queued
        && place_request(k, transfers[k].3.legacy_attempt, action)
}

proof fn lemma_places_kept(a: Seq<NetAction>, b: Seq<NetAction>)
    requires
        a.len() <= b.len(),
        b.take(a.len() as int) == a,
    ensures
        forall|k: KeyView, l: bool| asks_place(a, k, l) ==> #[trigger] asks_place(b, k, l),
        forall|x: int| 0 <= x < a.len() ==> #[trigger] b[x] == a[x],
{
    assert forall|x: int| 0 <= x < a.len() implies #[trigger] b[x] == a[x] by {
        assert(b.take(a.len() as int)[x] == b[x]);
    }
    assert forall|k: KeyView, l: bool| asks_place(a, k, l) implies #[trigger] asks_place(b, k, l) by {
        let j = choose|j: int| 0 <= j < a.len() && place_request(k, l, #[trigger] a[j]);
        assert(b[j] == a[j]);
    }
}

/// Actions already listed stay listed when more are added behind them.
proof fn lemma_actions_kept(a: Seq<NetAction>, b: Seq<NetAction>)
    requires
        a.len() <= b.len(),
        b.take(a.len() as int) == a,
    ensures
        forall|u: Seq<char>| watches(a, u) ==> #[trigger] watches(b, u),
        forall|k: KeyView, l: bool| asks_queue(a, k, l) ==> #[trigger] asks_queue(b, k, l),
        forall|x: int| 0 <= x < a.len() ==> #[trigger] b[x] == a[x],
{
    assert forall|x: int| 0 <= x < a.len() implies #[trigger] b[x] == a[x] by {
        assert(b.take(a.len() as int)[x] == b[x]);
    }
    assert forall|u: Seq<char>| watches(a, u) implies #[trigger] watches(b, u) by {
        let j = choose|j: int| 0 <= j < a.len() && (#[trigger] a[j] matches NetAction::Server(
            ServerRequest::WatchUser { user: w },
        ) && w@ == u);
        assert(b[j] == a[j]);
    }
    assert forall|k: KeyView, l: bool| asks_queue(a, k, l) implies #[trigger] asks_queue(b, k, l) by {
        let j = choose|j: int| 0 <= j < a.len() && queue_request(k, l, #[trigger] a[j]);
        assert(b[j] == a[j]);
    }
}

/// A fresh download, queued.
pub open spec fn queued_download(
    t: Transfer,
    id: TransferId,
    key: KeyView,
    size: u64,
    attributes: FileAttributes,
) -> bool {
    &&& t.id == id
    &&& t.username@ == key.0
    &&& t.virtual_path@ == key.1
    &&& t.size == size
    &&& t.attributes == attributes
    &&& t.phase == TransferPhase::Queued
    &&& t.bytes_done == 0
    &&& t.file_path is None
    &&& t.queue_place == 0
    &&& t.speed_bps == 0
    &&& !t.retry_attempt
    &&& !t.legacy_attempt
    &&& !t.size_changed
    &&& t.incomplete_path is None
    &&& t.activated_at is None
}

/// The downloads of the client.
pub struct Downloads {
    download_dir: String,
    incomplete_dir: String,
    username_subfolders: bool,
    transfers: Registry<Transfer>,
    pending_queue_requests: Vec<TransferKey>,
    queue_positions_at: Option<u64>,
}

impl Downloads {
    /// The downloads by key.
    pub closed spec fn transfers(&self) -> Map<KeyView, EntryView<Transfer>> {
        self.transfers.entries()
    }

    /// The keys by (user, token) of the current attempts.
    pub closed spec fn tokens(&self) -> Map<(Seq<char>, u32), KeyView> {
        self.transfers.tokens()
    }

    /// The keys by file connection.
    pub closed spec fn conns(&self) -> Map<ConnId, KeyView> {
        self.transfers.conns()
    }

    /// The keys by id.
    pub closed spec fn ids(&self) -> Map<TransferId, KeyView> {
        self.transfers.ids()
    }

    /// When the queue places were last asked for, in milliseconds; none
    /// before the first round.
    pub closed spec fn positions_asked_at(&self) -> Option<u64> {
        self.queue_positions_at
    }

    /// Queue requests held back until the share index is ready.
    pub closed spec fn pending(&self) -> Seq<KeyView> {
        keys_view(self.pending_queue_requests@)
    }

    /// Each transfer is filed under its own key and id.
    pub closed spec fn wf(&self) -> bool {
        &&& self.transfers.wf()
        &&& forall|k: KeyView| #[trigger]
            self.transfers.entries().contains_key(k) ==> self.transfers.entries()[k].3.id
                == self.transfers.entries()[k].0 && key_view(
                (self.transfers.entries()[k].3.username, self.transfers.entries()[k].3.virtual_path),
            ) == k
    }

    /// Where downloads land, where they are written meanwhile, and whether
    /// each user gets a folder of its own.
    pub closed spec fn dirs(&self) -> (Seq<char>, Seq<char>, bool) {
        (self.download_dir@, self.incomplete_dir@, self.username_subfolders)
    }

    pub fn set_dirs(&mut self, download_dir: String, incomplete_dir: String, username_subfolders: bool)
        ensures
            final(self).dirs() == (download_dir@, incomplete_dir@, username_subfolders),
            final(self).wf() == old(self).wf(),
            final(self).transfers() == old(self).transfers(),
            final(self).tokens() == old(self).tokens(),
            final(self).conns() == old(self).conns(),
            final(self).ids() == old(self).ids(),
            final(self).pending() == old(self).pending(),
    {
        self.download_dir = download_dir;
        self.incomplete_dir = incomplete_dir;
        self.username_subfolders = username_subfolders;
    }

    pub fn new(download_dir: String, incomplete_dir: String, username_subfolders: bool) -> (d:
        Self)
        ensures
            d.wf(),
            d.transfers() == Map::<KeyView, EntryView<Transfer>>::empty(),
            d.tokens() == Map::<(Seq<char>, u32), KeyView>::empty(),
            d.conns() == Map::<ConnId, KeyView>::empty(),
            d.pending() == Seq::<KeyView>::empty(),
            d.dirs() == (download_dir@, incomplete_dir@, username_subfolders),
            d.positions_asked_at() is None,
    {
        let d = Self {
            download_dir,
            incomplete_dir,
            username_subfolders,
            transfers: Registry::new(),
            pending_queue_requests: Vec::new(),
            queue_positions_at: None,
        };
        proof {
            assert(d.pending() =~= Seq::<KeyView>::empty());
        }
        d
    }

    /// Asks the peer to queue a file, or holds the request back.
    fn send_queue_request(&mut self, key: TransferKey, defer_requests: bool, net: &mut Vec<NetAction>)
        requires
            old(self).wf(),
            old(self).transfers().contains_key(key_view(key)),
        ensures
            final(self).wf(),
            final(self).transfers == old(self).transfers,
            defer_requests ==> final(net)@ == old(net)@ && final(self).pending() == if old(
                self,
            ).pending().contains(key_view(key)) {
                old(self).pending()
            } else {
                old(self).pending().push(key_view(key))
            },
            !defer_requests ==> final(self).pending() == old(self).pending() && final(net)@.len()
                == old(net)@.len() + 1 && final(net)@.take(old(net)@.len() as int) == old(net)@
                && queue_request(
                key_view(key),
                old(self).transfers()[key_view(key)].3.legacy_attempt,
                final(net)@.last(),
            ),
    {
        if defer_requests {
            let mut i: usize = 0;
            let ghost pend = self.pending();
            while i < self.pending_queue_requests.len()
                invariant
                    *self == *old(self),
                    self.wf(),
                    net@ == old(net)@,
                    defer_requests,
                    pend == keys_view(self.pending_queue_requests@),
                    i <= pend.len(),
                    forall|j: int| 0 <= j < i ==> pend[j] != key_view(key),
                decreases pend.len() - i,
            {
                if text_eq(self.pending_queue_requests[i].0.as_str(), key.0.as_str()) && text_eq(
                    self.pending_queue_requests[i].1.as_str(),
                    key.1.as_str(),
                ) {
                    proof {
                        assert(pend[i as int] == key_view(key));
                    }
                    return;
                }
                i = i + 1;
            }
            let ghost kv = key_view(key);
            self.pending_queue_requests.push(key);
            proof {
                assert(self.pending() =~= pend.push(kv));
            }
            return;
        }
        let legacy_client = match self.transfers.get(&key) {
            Some(t) => t.legacy_attempt,
            None => false,
        };
        let (username, file) = key;
        net.push(NetAction::Peer { username, message: PeerMessage::QueueUpload { file, legacy_client } });
        proof {
            assert(net@.take(old(net)@.len() as int) =~= old(net)@);
        }
    }

    /// Takes in a transfer kept from before.
    pub fn seed(&mut self, seed: TransferSnapshot)
        requires
            old(self).wf(),
            seed.status != TransferStatus::Transferring,
        ensures
            final(self).wf(),
            final(self).transfers().contains_key((seed.username@, seed.virtual_path@)),
            final(self).transfers()[(seed.username@, seed.virtual_path@)].0 == seed.id,
            forall|k: KeyView| k != (seed.username@, seed.virtual_path@) ==> final(self).transfers().get(k)
                == old(self).transfers().get(k),
    {
        let phase = TransferPhase::from_seed(&seed);
        let key = (seed.username.clone(), seed.virtual_path.clone());
        let transfer = Transfer {
            id: seed.id,
            username: seed.username,
            virtual_path: seed.virtual_path,
            size: seed.size,
            attributes: seed.attributes,
            phase,
            bytes_done: seed.bytes_done,
            file_path: seed.file_path,
            queue_place: 0,
            speed_bps: 0,
            retry_attempt: false,
            legacy_attempt: false,
            size_changed: false,
            incomplete_path: None,
            activated_at: None,
        };
        self.transfers.insert(seed.id, key, transfer);
    }

    /// What `enqueue` does, as its contract states it.
    pub open spec fn enqueue_effect(before: Downloads, after: Downloads, ids0: nat, ids1: nat, username: Seq<char>, virtual_path: Seq<char>, size: u64, attributes: FileAttributes, defer_requests: bool, net0: Seq<NetAction>, net1: Seq<NetAction>, result: EnqueueResult, work: Seq<TransferWork>) -> bool {
        &&& (({
                let k = (username, virtual_path);
                match before.transfers().get(k) {
                    Some(e) if e.3.phase.spec_is_active() => {
                        &&& result == EnqueueResult::AlreadyActive
                        &&& work.len() == 0
                        &&& after.transfers() =~= before.transfers()
                        &&& net1 =~= net0
                        &&& ids1 == ids0
                    },
                    _ => {
                        let id = match before.transfers().get(k) {
                            Some(e) => e.3.id,
                            None => TransferId(ids0 as u64),
                        };
                        &&& result == EnqueueResult::Enqueued
                        &&& work.len() == 1
                        &&& work[0] matches TransferWork::Update(snap) && snap.id == id
                            && snap.status == TransferStatus::Queued
                        &&& after.transfers().contains_key(k)
                        &&& after.transfers()[k].0 == id
                        &&& queued_download(after.transfers()[k].3, id, k, size, attributes)
                        &&& forall|k2: KeyView| k2 != k ==> after.transfers().get(k2) == before.transfers().get(k2)
                        &&& ids1 == if before.transfers().contains_key(k) {
                            ids0
                        } else {
                            ids0 + 1
                        }
                        &&& net1.len() >= net0.len() + 1
                        &&& net1[net0.len() as int] matches NetAction::Server(
                            ServerRequest::WatchUser { user },
                        ) && user@ == username
                        &&& !defer_requests ==> net1.len() == net0.len() + 2
                            && queue_request(k, false, net1.last())
                    },
                }
            }))
    }

    /// Queues a download: one under way is left alone; otherwise a new
    /// transfer (keeping the id of a finished one under the same key) is
    /// queued, the user watched, and the peer asked to queue the file.
    pub fn enqueue(
        &mut self,
        ids: &mut TransferIds,
        username: String,
        virtual_path: String,
        size: u64,
        attributes: FileAttributes,
        defer_requests: bool,
        net: &mut Vec<NetAction>,
    ) -> (res: (EnqueueResult, Vec<TransferWork>))
        requires
            old(self).wf(),
            old(ids)@ < u64::MAX,
        ensures
            final(self).wf(),
            Self::enqueue_effect(*old(self), *final(self), old(ids)@, final(ids)@, username@, virtual_path@, size, attributes, defer_requests, old(net)@, final(net)@, res.0, res.1@),
    {
        let key = (username.clone(), virtual_path.clone());
        let ghost k = key_view(key);
        let existing = match self.transfers.get(&key) {
            Some(t) => {
                if t.phase.is_active() {
                    return (EnqueueResult::AlreadyActive, Vec::new());
                }
                Some(t.id)
            },
            None => None,
        };
        let id = match existing {
            Some(id) => id,
            None => ids.mint(),
        };
        let transfer = Transfer {
            id,
            username: username.clone(),
            virtual_path,
            size,
            attributes,
            phase: TransferPhase::Queued,
            bytes_done: 0,
            file_path: None,
            queue_place: 0,
            speed_bps: 0,
            retry_attempt: false,
            legacy_attempt: false,
            size_changed: false,
            incomplete_path: None,
            activated_at: None,
        };
        let queued = TransferWork::Update(transfer.snapshot());
        let key_copy = (key.0.clone(), key.1.clone());
        self.transfers.insert(id, key_copy, transfer);
        net.push(NetAction::Server(ServerRequest::WatchUser { user: username }));
        let ghost mid = net@;
        self.send_queue_request(key, defer_requests, net);
        proof {
            if !defer_requests {
                assert(net@[old(net)@.len() as int] == mid[old(net)@.len() as int]);
            }
            if defer_requests {
                assert(net@ == mid);
            }
        }
        (EnqueueResult::Enqueued, vec![queued])
    }
    /// A download in this phase is over and can no longer fail.
    pub open spec fn settled(phase: TransferPhase) -> bool {
        phase is Finished || phase is Aborted || phase is Failed
    }

    /// Fails a download that is not over: it loses its token and
    /// connection, and is reported.
    pub fn fail(&mut self, key: &TransferKey, reason: String) -> (work: Vec<TransferWork>)
        requires
            old(self).wf(),
        ensures
            final(self).wf(),
            match old(self).transfers().get(key_view(*key)) {
                Some(e) if !Self::settled(e.3.phase) => {
                    &&& final(self).transfers().contains_key(key_view(*key))
                    &&& final(self).transfers()[key_view(*key)] == (
                        e.0,
                        None::<u32>,
                        None::<ConnId>,
                        Transfer { phase: TransferPhase::Failed(reason), ..e.3 },
                    )
                    &&& forall|k: KeyView| k != key_view(*key) ==> final(self).transfers().get(k)
                        == old(self).transfers().get(k)
                    &&& work@.len() == 1
                    &&& work@[0] matches TransferWork::Update(snap) && snap.status
                        == TransferStatus::Failed && snap.id == e.3.id
                },
                _ => work@.len() == 0 && final(self).transfers() == old(self).transfers()
                    && final(self).tokens() == old(self).tokens() && final(self).conns() == old(self).conns(),
            },
            final(self).pending() == old(self).pending(),
            final(self).ids() == old(self).ids(),
    {
        let ongoing = match self.transfers.get(key) {
            None => false,
            Some(t) => match t.phase {
                TransferPhase::Finished | TransferPhase::Aborted | TransferPhase::Failed(_) => false,
                _ => true,
            },
        };
        if !ongoing {
            return Vec::new();
        }
        self.transfers.detach(key);
        match self.transfers.get_mut(key) {
            Some(t) => {
                t.phase = TransferPhase::Failed(reason);
                let snap = t.snapshot();
                vec![TransferWork::Update(snap)]
            },
            None => Vec::new(),
        }
    }
    /// What `abort` does, as its contract states it.
    pub open spec fn abort_effect(before: Downloads, after: Downloads, id: TransferId, net0: Seq<NetAction>, net1: Seq<NetAction>, result: AbortResult, work: Seq<TransferWork>) -> bool {
        &&& (!before.ids().contains_key(id) ==> result == AbortResult::NotFound && work.len() == 0
                && after.transfers() =~= before.transfers() && net1 =~= net0)
        &&& (before.ids().contains_key(id) && !before.transfers().contains_key(before.ids()[id])
                ==> result == AbortResult::NotFound && work.len() == 0)
        &&& (({
                let k = before.ids()[id];
                before.ids().contains_key(id) && before.transfers().contains_key(k) ==> {
                    let e = before.transfers()[k];
                    &&& result == AbortResult::Aborted
                    &&& !e.3.phase.spec_is_active() ==> work.len() == 0 && after.transfers()
                        == before.transfers() && net1 =~= net0
                    &&& e.3.phase.spec_is_active() ==> {
                        &&& after.transfers()[k] == (
                            e.0,
                            None::<u32>,
                            None::<ConnId>,
                            Transfer { phase: TransferPhase::Aborted, ..e.3 },
                        )
                        &&& work.len() == 1
                        &&& (work[0] matches TransferWork::Update(snap) && snap.status
                            == TransferStatus::Aborted)
                        &&& net1 =~= match e.2 {
                            Some(c) => net0.push(NetAction::CloseConnection(c)),
                            None => net0,
                        }
                    }
                }
            }))
    }

    /// Aborts a download under way: it loses its token and connection,
    /// whose closing is asked for.
    pub fn abort(&mut self, id: TransferId, net: &mut Vec<NetAction>) -> (res: (
        AbortResult,
        Vec<TransferWork>,
    ))
        requires
            old(self).wf(),
        ensures
            final(self).wf(),
            Self::abort_effect(*old(self), *final(self), id, old(net)@, final(net)@, res.0, res.1@),
    {
        let key = match self.transfers.key_of(id) {
            Some(k) => (k.0.clone(), k.1.clone()),
            None => return (AbortResult::NotFound, Vec::new()),
        };
        let active = match self.transfers.get(&key) {
            Some(t) => t.phase.is_active(),
            None => return (AbortResult::NotFound, Vec::new()),
        };
        if !active {
            return (AbortResult::Aborted, Vec::new());
        }
        let detached = self.transfers.detach(&key);
        let aborted = match self.transfers.get_mut(&key) {
            Some(t) => {
                t.phase = TransferPhase::Aborted;
                TransferWork::Update(t.snapshot())
            },
            None => return (AbortResult::NotFound, Vec::new()),
        };
        if let Some(conn_id) = detached.conn_id {
            net.push(NetAction::CloseConnection(conn_id));
        }
        (AbortResult::Aborted, vec![aborted])
    }

    /// What `retry` does, as its contract states it.
    pub open spec fn retry_effect(before: Downloads, after: Downloads, id: TransferId, result: RetryResult) -> bool {
        &&& (!(before.ids().contains_key(id) && before.transfers().contains_key(
                before.ids()[id],
            )) ==> result == RetryResult::NotFound && after.transfers() =~= before.transfers())
        &&& (({
                let k = before.ids()[id];
                before.ids().contains_key(id) && before.transfers().contains_key(k) ==> {
                    let e = before.transfers()[k];
                    &&& e.3.phase.spec_is_active() ==> result == RetryResult::AlreadyActive
                        && after.transfers() =~= before.transfers()
                    &&& !e.3.phase.spec_is_active() ==> result == RetryResult::Requeued
                        && after.transfers().contains_key(k) && queued_download(
                        after.transfers()[k].3,
                        e.3.id,
                        k,
                        e.3.size,
                        e.3.attributes,
                    )
                }
            }))
    }

    /// Queues a download again under its id; one under way is left alone.
    pub fn retry(
        &mut self,
        ids: &mut TransferIds,
        id: TransferId,
        defer_requests: bool,
        net: &mut Vec<NetAction>,
    ) -> (res: (RetryResult, Vec<TransferWork>))
        requires
            old(self).wf(),
            old(ids)@ < u64::MAX,
        ensures
            final(self).wf(),
            Self::retry_effect(*old(self), *final(self), id, res.0),
    {
        let key = match self.transfers.key_of(id) {
            Some(k) => (k.0.clone(), k.1.clone()),
            None => return (RetryResult::NotFound, Vec::new()),
        };
        let (username, virtual_path, size, attributes) = match self.transfers.get(&key) {
            Some(t) => {
                if t.phase.is_active() {
                    return (RetryResult::AlreadyActive, Vec::new());
                }
                (t.username.clone(), t.virtual_path.clone(), t.size, t.attributes)
            },
            None => return (RetryResult::NotFound, Vec::new()),
        };
        let (result, work) = self.enqueue(
            ids,
            username,
            virtual_path,
            size,
            attributes,
            defer_requests,
            net,
        );
        match result {
            EnqueueResult::Enqueued => (RetryResult::Requeued, work),
            EnqueueResult::AlreadyActive => (RetryResult::AlreadyActive, work),
        }
    }

    /// What `queue_place` does, as its contract states it.
    pub open spec fn queue_place_effect(before: Downloads, after: Downloads, username: Seq<char>, virtual_path: Seq<char>, place: u32, work: Option<TransferWork>) -> bool {
        &&& (match before.transfers().get((username, virtual_path)) {
                Some(e) => work matches Some(TransferWork::Progress(snap)) && snap.queue_place
                    == place && after.transfers() =~= before.transfers().insert(
                    (username, virtual_path),
                    (e.0, e.1, e.2, Transfer { queue_place: place, ..e.3 }),
                ),
                None => work is None && after.transfers() =~= before.transfers(),
            })
        &&& (after.tokens() =~= before.tokens())
        &&& (after.conns() =~= before.conns())
    }

    /// Records a download's place in the peer's queue.
    pub fn queue_place(&mut self, username: &str, virtual_path: &str, place: u32) -> (work: Option<
        TransferWork,
    >)
        requires
            old(self).wf(),
        ensures
            final(self).wf(),
            Self::queue_place_effect(*old(self), *final(self), username@, virtual_path@, place, work),
    {
        let key = (username.to_owned(), virtual_path.to_owned());
        match self.transfers.get_mut(&key) {
            Some(t) => {
                t.queue_place = place;
                Some(TransferWork::Progress(t.snapshot()))
            },
            None => None,
        }
    }

    /// Whether a token is that of a download's current attempt.
    pub fn owns_token(&self, username: &str, token: u32) -> (b: bool)
        requires
            self.wf(),
        ensures
            b == self.tokens().contains_key((username@, token)),
    {
        self.transfers.owns_token(username, token)
    }

    /// Whether a download of this key has its partial file named.
    pub fn has_partial_file(&self, key: &TransferKey) -> (b: bool)
        requires
            self.wf(),
        ensures
            b == (self.transfers().contains_key(key_view(*key))
                && self.transfers()[key_view(*key)].3.incomplete_path is Some),
    {
        match self.transfers.get(key) {
            Some(t) => t.incomplete_path.is_some(),
            None => false,
        }
    }

    /// Whether a finished file arriving on this token has its partial file
    /// named.
    pub fn token_has_partial_file(&self, username: &str, token: u32) -> (b: bool)
        requires
            self.wf(),
        ensures
            b == (self.tokens().contains_key((username@, token))
                && self.transfers().contains_key(self.tokens()[(username@, token)])
                && self.transfers()[self.tokens()[(username@, token)]].3.incomplete_path is Some),
    {
        match self.transfers.key_by_token(username, token) {
            Some(key) => self.has_partial_file(key),
            None => false,
        }
    }

    /// What `handle_transfer_request` does, as its contract states it.
    pub open spec fn transfer_request_effect(before: Downloads, after: Downloads, username: Seq<char>, token: u32, file: Seq<char>, filesize: Option<u64>, now: u64, net0: Seq<NetAction>, net1: Seq<NetAction>) -> bool {
        &&& (net1.len() == net0.len() + 1)
        &&& (net1.take(net0.len() as int) == net0)
        &&& (({
                let k = (username, file);
                let accepted = before.transfers().contains_key(k) && (before.transfers()[k].3.phase
                    is Queued || before.transfers()[k].3.phase is GettingStatus || before.transfers()[k].3.phase is Failed);
                let finished = before.transfers().contains_key(k) && before.transfers()[k].3.phase is Finished;
                &&& net1.last() matches NetAction::Peer {
                    username: u,
                    message: PeerMessage::TransferResponse { token: t, allowed, reason, filesize: None },
                } && u@ == username && t == token && allowed == accepted && (accepted ==> reason is None)
                    && (!accepted && finished ==> (reason matches Some(r) && r@ == "Complete"@))
                    && (!accepted && !finished ==> (reason matches Some(r) && r@ == "Cancelled"@))
                &&& accepted ==> after.transfers().contains_key(k) && after.transfers()[k].3.phase
                    == TransferPhase::GettingStatus && after.transfers()[k].3.activated_at
                    == Some(now) && after.transfers()[k].1 == Some(token) && after.tokens().contains_key((username, token)) && after.tokens()[(username, token)] == k
                &&& !accepted ==> after.transfers() =~= before.transfers()
                    && after.tokens() =~= before.tokens()
            }))
    }

    /// A peer is ready to send a file: a download waiting for it is
    /// accepted (its size updated when the peer gives one) and takes the
    /// token; a finished one is refused as complete, anything else as
    /// cancelled.  The answer goes to the peer.
    pub fn handle_transfer_request(
        &mut self,
        username: &str,
        token: u32,
        file: &str,
        filesize: Option<u64>,
        now: u64,
        net: &mut Vec<NetAction>,
    )
        requires
            old(self).wf(),
        ensures
            final(self).wf(),
            Self::transfer_request_effect(*old(self), *final(self), username@, token, file@, filesize, now, old(net)@, final(net)@),
    {
        proof {
            reveal_strlit("Complete");
            reveal_strlit("Cancelled");
        }
        let key = (username.to_owned(), file.to_owned());
        let mut accepted = false;
        let response = match self.transfers.get_mut(&key) {
            Some(transfer) => {
                let waiting = match transfer.phase {
                    TransferPhase::Queued | TransferPhase::GettingStatus | TransferPhase::Failed(
                        _,
                    ) => true,
                    _ => false,
                };
                if waiting {
                    if let Some(size) = filesize {
                        if size > 0 {
                            if transfer.size != size && transfer.size != 0 {
                                transfer.size_changed = true;
                            }
                            transfer.size = size;
                        }
                    }
                    transfer.phase = TransferPhase::GettingStatus;
                    transfer.activated_at = Some(now);
                    accepted = true;
                    PeerMessage::TransferResponse { token, allowed: true, reason: None, filesize: None }
                } else {
                    let finished = match transfer.phase {
                        TransferPhase::Finished => true,
                        _ => false,
                    };
                    let reason = if finished {
                        TransferRejectReason::COMPLETE
                    } else {
                        TransferRejectReason::CANCELLED
                    };
                    PeerMessage::TransferResponse {
                        token,
                        allowed: false,
                        reason: Some(reason.to_owned()),
                        filesize: None,
                    }
                }
            },
            None => PeerMessage::TransferResponse {
                token,
                allowed: false,
                reason: Some(TransferRejectReason::CANCELLED.to_owned()),
                filesize: None,
            },
        };
        if accepted {
            self.transfers.attach_token(&key, token);
        }
        net.push(NetAction::Peer { username: username.to_owned(), message: response });
        proof {
            assert(net@.take(old(net)@.len() as int) =~= old(net)@);
        }
    }
    /// What `handle_upload_denied` does, as its contract states it.
    pub open spec fn upload_denied_effect(before: Downloads, after: Downloads, username: Seq<char>, file: Seq<char>, reason: Seq<char>, defer_requests: bool, net0: Seq<NetAction>, net1: Seq<NetAction>, work: Seq<TransferWork>) -> bool {
        &&& (({
                let k = (username, file);
                match before.transfers().get(k) {
                    None => work.len() == 0 && after.transfers() =~= before.transfers(),
                    Some(e) => if e.3.phase is Finished {
                        work.len() == 0 && after.transfers() =~= before.transfers()
                    } else if reason == "File not shared."@ && e.3.phase is Queued
                        && !e.3.legacy_attempt {
                        &&& work.len() == 0
                        &&& after.transfers().dom() =~= before.transfers().dom()
                        &&& forall|k2: KeyView| k2 != k ==> #[trigger] after.transfers().get(k2) == before.transfers().get(k2)
                        &&& after.transfers()[k] == (
                            e.0,
                            None::<u32>,
                            None::<ConnId>,
                            Transfer { legacy_attempt: true, activated_at: None, ..e.3 },
                        )
                    } else if !Self::settled(e.3.phase) {
                        &&& after.transfers().dom() =~= before.transfers().dom()
                        &&& forall|k2: KeyView| k2 != k ==> #[trigger] after.transfers().get(k2) == before.transfers().get(k2)
                        &&& after.transfers()[k].0 == e.0
                        &&& after.transfers()[k].1 is None
                        &&& after.transfers()[k].2 is None
                        &&& (after.transfers()[k].3.phase matches TransferPhase::Failed(r)
                            && r@ == reason)
                        &&& after.transfers()[k].3 == Transfer { phase: after.transfers()[k].3.phase, ..e.3 }
                        &&& work.len() == 1
                        &&& work[0] matches TransferWork::Update(snap) && snap.status == TransferStatus::Failed
                            && snap.id == e.3.id
                    } else {
                        work.len() == 0 && after.transfers() =~= before.transfers()
                    },
                }
            }))
        &&& (({
                let k = (username, file);
                match before.transfers().get(k) {
                    Some(e) if !(e.3.phase is Finished) && reason == "File not shared."@ && e.3.phase is Queued
                        && !e.3.legacy_attempt => {
                        &&& defer_requests ==> net1 =~= net0
                        &&& !defer_requests ==> net1.len() == net0.len() + 1
                            && net1.take(net0.len() as int) == net0
                            && queue_request(k, true, net1.last())
                    },
                    _ => net1 =~= net0,
                }
            }))
    }

    /// A peer refused a download: a queued one refused as "file not
    /// shared" is asked for once more with the path in the legacy
    /// encoding; a finished one is left alone; any other fails with the
    /// peer's reason.
    pub fn handle_upload_denied(
        &mut self,
        username: &str,
        file: &str,
        reason: &str,
        defer_requests: bool,
        net: &mut Vec<NetAction>,
    ) -> (work: Vec<TransferWork>)
        requires
            old(self).wf(),
        ensures
            final(self).wf(),
            Self::upload_denied_effect(*old(self), *final(self), username@, file@, reason@, defer_requests, old(net)@, final(net)@, work@),
    {
        proof {
            reveal_strlit("File not shared.");
        }
        let key = (username.to_owned(), file.to_owned());
        let (finished, queued, legacy) = match self.transfers.get(&key) {
            None => return Vec::new(),
            Some(t) => (
                match t.phase {
                    TransferPhase::Finished => true,
                    _ => false,
                },
                match t.phase {
                    TransferPhase::Queued => true,
                    _ => false,
                },
                t.legacy_attempt,
            ),
        };
        if finished {
            return Vec::new();
        }
        if text_eq(reason, TransferRejectReason::FILE_NOT_SHARED) && queued && !legacy {
            self.transfers.detach(&key);
            match self.transfers.get_mut(&key) {
                Some(t) => {
                    t.legacy_attempt = true;
                    t.activated_at = None;
                },
                None => {},
            }
            self.send_queue_request(key, defer_requests, net);
            proof {
                assert(self.transfers().dom() =~= old(self).transfers().dom());
            }
            return Vec::new();
        }
        let work = self.fail(&key, reason.to_owned());
        proof {
            let k = (username@, file@);
            if old(self).transfers().contains_key(k) && !Self::settled(old(self).transfers()[k].3.phase) {
                assert(self.transfers().dom() =~= old(self).transfers().dom()) by {
                    assert forall|k2: KeyView| self.transfers().contains_key(k2) <==> old(self).transfers().contains_key(k2) by {
                        if k2 != k {
                            assert(self.transfers().get(k2) == old(self).transfers().get(k2));
                        }
                    }
                }
            }
        }
        work
    }
    /// What `handle_upload_failed` does, as its contract states it.
    pub open spec fn upload_failed_effect(before: Downloads, after: Downloads, username: Seq<char>, file: Seq<char>, defer_requests: bool, net0: Seq<NetAction>, net1: Seq<NetAction>, work: Seq<TransferWork>) -> bool {
        &&& (({
                let k = (username, file);
                match before.transfers().get(k) {
                    None => work.len() == 0 && after.transfers() =~= before.transfers(),
                    Some(e) => if e.3.phase is Finished || e.3.phase is Aborted {
                        work.len() == 0 && after.transfers() =~= before.transfers()
                    } else if !e.3.retry_attempt {
                        &&& work.len() == 0
                        &&& after.transfers()[k] == (
                            e.0,
                            None::<u32>,
                            None::<ConnId>,
                            Transfer {
                                retry_attempt: true,
                                legacy_attempt: true,
                                phase: TransferPhase::Queued,
                                activated_at: None,
                                ..e.3
                            },
                        )
                    } else if !(e.3.phase is Failed) {
                        &&& (after.transfers()[k].3.phase matches TransferPhase::Failed(r)
                            && r@ == "upload failed"@)
                        &&& work.len() == 1
                    } else {
                        work.len() == 0 && after.transfers() =~= before.transfers()
                    },
                }
            }))
    }

    /// A peer reports that sending failed: the first time, the download is
    /// queued again with the legacy path encoding; after that it fails.
    /// Finished and aborted downloads are left alone.
    pub fn handle_upload_failed(
        &mut self,
        username: &str,
        file: &str,
        defer_requests: bool,
        net: &mut Vec<NetAction>,
    ) -> (work: Vec<TransferWork>)
        requires
            old(self).wf(),
        ensures
            final(self).wf(),
            Self::upload_failed_effect(*old(self), *final(self), username@, file@, defer_requests, old(net)@, final(net)@, work@),
    {
        proof {
            reveal_strlit("upload failed");
        }
        let key = (username.to_owned(), file.to_owned());
        let (over, retried) = match self.transfers.get(&key) {
            None => return Vec::new(),
            Some(t) => (
                match t.phase {
                    TransferPhase::Finished | TransferPhase::Aborted => true,
                    _ => false,
                },
                t.retry_attempt,
            ),
        };
        if over {
            return Vec::new();
        }
        if !retried {
            self.transfers.detach(&key);
            match self.transfers.get_mut(&key) {
                Some(t) => {
                    t.retry_attempt = true;
                    t.legacy_attempt = true;
                    t.phase = TransferPhase::Queued;
                    t.activated_at = None;
                },
                None => {},
            }
            self.send_queue_request(key, defer_requests, net);
            return Vec::new();
        }
        self.fail(&key, "upload failed".to_owned())
    }

    /// The transfer on a token failed with the given error.
    pub fn handle_transfer_error(&mut self, username: &str, token: u32, error: &str) -> (work:
        Vec<TransferWork>)
        requires
            old(self).wf(),
        ensures
            final(self).wf(),
            !old(self).tokens().contains_key((username@, token)) ==> work@.len() == 0
                && final(self).transfers() == old(self).transfers(),
            ({
                let k = old(self).tokens()[(username@, token)];
                old(self).tokens().contains_key((username@, token)) && old(self).transfers().contains_key(k)
                    && !Self::settled(old(self).transfers()[k].3.phase) ==> (final(self).transfers()[k].3.phase matches TransferPhase::Failed(r) && r@ == error@)
            }),
    {
        let key = match self.transfers.key_by_token(username, token) {
            Some(k) => (k.0.clone(), k.1.clone()),
            None => return Vec::new(),
        };
        self.fail(&key, error.to_owned())
    }

    /// The file of a finished download was put in place, or could not be:
    /// a download still being placed then finishes with its file's path,
    /// or fails.
    pub fn handle_placement_done(&mut self, key: &TransferKey, result: Result<String, String>) -> (work:
        Vec<TransferWork>)
        requires
            old(self).wf(),
        ensures
            final(self).wf(),
            ({
                let k = key_view(*key);
                match old(self).transfers().get(k) {
                    Some(e) if e.3.phase is Placing => match result {
                        Ok(path) => {
                            &&& final(self).transfers()[k].3.phase == TransferPhase::Finished
                            &&& final(self).transfers()[k].3.file_path == Some(path)
                            &&& final(self).transfers()[k].1 is None
                            &&& work@.len() == 1
                            &&& work@[0] matches TransferWork::Finished { snapshot, avg_speed_bps }
                                && snapshot.status == TransferStatus::Finished && avg_speed_bps
                                is None
                        },
                        Err(error) => final(self).transfers()[k].3.phase matches TransferPhase::Failed(
                            r,
                        ) && r@ == "cannot place finished download: "@ + error@,
                    },
                    _ => work@.len() == 0 && final(self).transfers() == old(self).transfers(),
                }
            }),
    {
        proof {
            reveal_strlit("cannot place finished download: ");
        }
        let placing = match self.transfers.get(key) {
            Some(t) => match t.phase {
                TransferPhase::Placing => true,
                _ => false,
            },
            None => false,
        };
        if !placing {
            return Vec::new();
        }
        match result {
            Ok(destination) => {
                self.transfers.detach_token(key);
                match self.transfers.get_mut(key) {
                    Some(t) => {
                        t.phase = TransferPhase::Finished;
                        t.file_path = Some(destination);
                        vec![TransferWork::Finished { snapshot: t.snapshot(), avg_speed_bps: None }]
                    },
                    None => Vec::new(),
                }
            },
            Err(error) => {
                let mut reason = "cannot place finished download: ".to_owned();
                let chars = crate::protocol::wire::chars_of(error.as_str());
                let ghost start = reason@;
                let mut i: usize = 0;
                while i < chars.len()
                    invariant
                        i <= chars@.len(),
                        chars@ == error@,
                        reason@ == start + chars@.take(i as int),
                    decreases chars@.len() - i,
                {
                    crate::protocol::wire::push_char(&mut reason, chars[i]);
                    proof {
                        assert(chars@.take(i + 1) =~= chars@.take(i as int).push(chars@[i as int]));
                    }
                    i = i + 1;
                }
                proof {
                    assert(chars@.take(i as int) =~= chars@);
                }
                self.fail(key, reason)
            },
        }
    }
    /// A download being asked for or transferred goes back to the queue,
    /// losing its token and connection; the others are kept as they are.
    pub open spec fn after_reset(e: EntryView<Transfer>) -> EntryView<Transfer> {
        if e.3.phase is GettingStatus || e.3.phase is Transferring {
            (e.0, None, None, Transfer { phase: TransferPhase::Queued, activated_at: None, ..e.3 })
        } else {
            e
        }
    }

    /// What `reset` does, as its contract states it.
    pub open spec fn reset_effect(before: Downloads, after: Downloads, work: Seq<TransferWork>) -> bool {
        &&& (after.transfers().dom() == before.transfers().dom())
        &&& (forall|k: KeyView| #[trigger]
                before.transfers().contains_key(k) ==> after.transfers()[k]
                    == Self::after_reset(before.transfers()[k]))
        &&& (forall|i: int|
                0 <= i < work.len() ==> (#[trigger] work[i] matches TransferWork::Update(snap)
                    && snap.status == TransferStatus::Queued))
    }

    /// After a disconnection: every download being asked for or transferred
    /// is queued again, and reported.
    pub fn reset(&mut self) -> (work: Vec<TransferWork>)
        requires
            old(self).wf(),
        ensures
            final(self).wf(),
            Self::reset_effect(*old(self), *final(self), work@),
    {
        let keys = self.transfers.keys();
        let ghost ks = keys@.map_values(|k: TransferKey| key_view(k));
        let ghost start = self.transfers();
        let mut updates: Vec<TransferWork> = Vec::new();
        let mut i: usize = 0;
        proof {
            assert forall|a: int, b: int| 0 <= a < ks.len() && 0 <= b < ks.len() && ks[a] == ks[b] implies a == b by {
                assert(ks[a] == key_view(keys@[a]));
                assert(ks[b] == key_view(keys@[b]));
            }
            assert forall|k: KeyView| start.contains_key(k) implies exists|j: int| 0 <= j < ks.len() && #[trigger] ks[j] == k by {
                let j = choose|j: int| 0 <= j < keys@.len() && key_view(#[trigger] keys@[j]) == k;
                assert(ks[j] == k);
            }
            assert forall|j: int| 0 <= j < ks.len() implies start.contains_key(#[trigger] ks[j]) by {
                assert(ks[j] == key_view(keys@[j]));
            }
        }
        while i < keys.len()
            invariant
                self.wf(),
                ks == keys@.map_values(|k: TransferKey| key_view(k)),
                i <= keys@.len(),
                forall|a: int, b: int| 0 <= a < ks.len() && 0 <= b < ks.len() && ks[a] == ks[b] ==> a == b,
                forall|j: int| 0 <= j < ks.len() ==> start.contains_key(#[trigger] ks[j]),
                forall|k: KeyView| start.contains_key(k) ==> exists|j: int| 0 <= j < ks.len() && #[trigger] ks[j] == k,
                self.transfers().dom() == start.dom(),
                forall|j: int| 0 <= j < i ==> self.transfers()[#[trigger] ks[j]] == Self::after_reset(start[ks[j]]),
                forall|j: int| i <= j < ks.len() ==> self.transfers()[#[trigger] ks[j]] == start[ks[j]],
                forall|j: int|
                    0 <= j < updates@.len() ==> (#[trigger] updates@[j] matches TransferWork::Update(snap)
                        && snap.status == TransferStatus::Queued),
            decreases keys@.len() - i,
        {
            let key = &keys[i];
            let ghost ki = ks[i as int];
            proof {
                assert(ki == key_view(*key));
            }
            let active = match self.transfers.get(key) {
                Some(t) => match t.phase {
                    TransferPhase::GettingStatus | TransferPhase::Transferring => true,
                    _ => false,
                },
                None => false,
            };
            if active {
                let ghost before = self.transfers();
                self.transfers.detach(key);
                match self.transfers.get_mut(key) {
                    Some(t) => {
                        t.phase = TransferPhase::Queued;
                        t.activated_at = None;
                        updates.push(TransferWork::Update(t.snapshot()));
                    },
                    None => {},
                }
                proof {
                    assert forall|j: int| 0 <= j < ks.len() && j != i implies self.transfers()[#[trigger] ks[j]]
                        == before[ks[j]] by {
                        assert(ks[j] != ki);
                    }
                    assert(self.transfers().dom() =~= start.dom());
                }
            }
            i = i + 1;
        }
        proof {
            assert forall|k: KeyView| #[trigger] start.contains_key(k) implies self.transfers()[k]
                == Self::after_reset(start[k]) by {
                let j = choose|j: int| 0 <= j < ks.len() && #[trigger] ks[j] == k;
                assert(self.transfers()[ks[j]] == Self::after_reset(start[ks[j]]));
            }
        }
        updates
    }
    /// A download of `username` that failed because the user was offline.
    pub open spec fn failed_offline(e: EntryView<Transfer>, username: Seq<char>) -> bool {
        e.3.username@ == username && (e.3.phase matches TransferPhase::Failed(r) && r@
            == "user is offline"@)
    }

    /// The user came online: its downloads that failed because it was
    /// offline are queued again and asked for.
    pub fn retry_offline(&mut self, username: &str, defer_requests: bool, net: &mut Vec<NetAction>)
        requires
            old(self).wf(),
        ensures
            final(self).wf(),
            final(self).transfers().dom() == old(self).transfers().dom(),
            forall|k: KeyView| #[trigger]
                old(self).transfers().contains_key(k) ==> final(self).transfers()[k] == if Self::failed_offline(
                    old(self).transfers()[k],
                    username@,
                ) {
                    let e = old(self).transfers()[k];
                    (e.0, e.1, e.2, Transfer { phase: TransferPhase::Queued, retry_attempt: false, ..e.3 })
                } else {
                    old(self).transfers()[k]
                },
    {
        proof {
            reveal_strlit("user is offline");
        }
        let keys = self.transfers.keys();
        let ghost ks = keys@.map_values(|k: TransferKey| key_view(k));
        let ghost start = self.transfers();
        let mut i: usize = 0;
        proof {
            assert forall|a: int, b: int| 0 <= a < ks.len() && 0 <= b < ks.len() && ks[a] == ks[b] implies a == b by {
                assert(ks[a] == key_view(keys@[a]));
                assert(ks[b] == key_view(keys@[b]));
            }
            assert forall|k: KeyView| start.contains_key(k) implies exists|j: int| 0 <= j < ks.len() && #[trigger] ks[j] == k by {
                let j = choose|j: int| 0 <= j < keys@.len() && key_view(#[trigger] keys@[j]) == k;
                assert(ks[j] == k);
            }
            assert forall|j: int| 0 <= j < ks.len() implies start.contains_key(#[trigger] ks[j]) by {
                assert(ks[j] == key_view(keys@[j]));
            }
        }
        while i < keys.len()
            invariant
                self.wf(),
                ks == keys@.map_values(|k: TransferKey| key_view(k)),
                i <= keys@.len(),
                forall|a: int, b: int| 0 <= a < ks.len() && 0 <= b < ks.len() && ks[a] == ks[b] ==> a == b,
                forall|j: int| 0 <= j < ks.len() ==> start.contains_key(#[trigger] ks[j]),
                forall|k: KeyView| start.contains_key(k) ==> exists|j: int| 0 <= j < ks.len() && #[trigger] ks[j] == k,
                self.transfers().dom() == start.dom(),
                forall|j: int| 0 <= j < i ==> self.transfers()[#[trigger] ks[j]] == if Self::failed_offline(
                    start[ks[j]],
                    username@,
                ) {
                    (start[ks[j]].0, start[ks[j]].1, start[ks[j]].2, Transfer { phase: TransferPhase::Queued, retry_attempt: false, ..start[ks[j]].3 })
                } else {
                    start[ks[j]]
                },
                forall|j: int| i <= j < ks.len() ==> self.transfers()[#[trigger] ks[j]] == start[ks[j]],
            decreases keys@.len() - i,
        {
            let key = &keys[i];
            let ghost ki = ks[i as int];
            proof {
                assert(ki == key_view(*key));
            }
            let matches_user = match self.transfers.get(key) {
                Some(t) => text_eq(t.username.as_str(), username) && match &t.phase {
                    TransferPhase::Failed(reason) => text_eq(reason.as_str(), "user is offline"),
                    _ => false,
                },
                None => false,
            };
            if matches_user {
                let ghost before = self.transfers();
                match self.transfers.get_mut(key) {
                    Some(t) => {
                        t.phase = TransferPhase::Queued;
                        t.retry_attempt = false;
                    },
                    None => {},
                }
                let ghost after = self.transfers();
                let owned = (key.0.clone(), key.1.clone());
                self.send_queue_request(owned, defer_requests, net);
                proof {
                    assert forall|j: int| 0 <= j < ks.len() && j != i implies self.transfers()[#[trigger] ks[j]]
                        == before[ks[j]] by {
                        assert(ks[j] != ki);
                    }
                    assert(self.transfers().dom() =~= start.dom());
                }
            }
            i = i + 1;
        }
        proof {
            assert forall|k: KeyView| #[trigger] start.contains_key(k) implies self.transfers()[k]
                == if Self::failed_offline(start[k], username@) {
                    (start[k].0, start[k].1, start[k].2, Transfer { phase: TransferPhase::Queued, retry_attempt: false, ..start[k].3 })
                } else {
                    start[k]
                } by {
                let j = choose|j: int| 0 <= j < ks.len() && #[trigger] ks[j] == k;
                assert(ks[j] == k);
            }
        }
    }
    /// Every `QUEUE_POSITION_INTERVAL_MS`, the peer of each queued download
    /// is asked for its place in the queue.  The first call starts the
    /// clock.
    pub fn request_queue_positions(&mut self, now_ms: u64, net: &mut Vec<NetAction>)
        requires
            old(self).wf(),
        ensures
            final(self).wf(),
            final(self).transfers() == old(self).transfers(),
            final(self).tokens() == old(self).tokens(),
            final(self).conns() == old(self).conns(),
            final(self).ids() == old(self).ids(),
            final(self).pending() == old(self).pending(),
            final(self).dirs() == old(self).dirs(),
            !positions_due(old(self).positions_asked_at(), now_ms) ==> final(net)@ == old(net)@
                && final(self).positions_asked_at() == match old(self).positions_asked_at() {
                    None => Some(now_ms),
                    Some(at) => Some(at),
                },
            positions_due(old(self).positions_asked_at(), now_ms) ==> {
                &&& final(self).positions_asked_at() == Some(now_ms)
                &&& old(net)@.len() <= final(net)@.len()
                &&& final(net)@.take(old(net)@.len() as int) == old(net)@
                &&& forall|k: KeyView| #[trigger] old(self).transfers().contains_key(k)
                    && old(self).transfers()[k].3.phase is Queued ==> asks_place(
                    final(net)@,
                    k,
                    old(self).transfers()[k].3.legacy_attempt,
                )
                &&& forall|j: int| old(net)@.len() <= j < final(net)@.len() ==> place_for_queued(
                    old(self).transfers(),
                    #[trigger] final(net)@[j],
                )
            },
    {
        let due = match self.queue_positions_at {
            None => false,
            Some(at) => now_ms >= at && now_ms - at >= QUEUE_POSITION_INTERVAL_MS,
        };
        if !due {
            if self.queue_positions_at.is_none() {
                self.queue_positions_at = Some(now_ms);
            }
            return;
        }
        self.queue_positions_at = Some(now_ms);
        let keys = self.transfers.keys();
        let ghost ks = keys@.map_values(|k: TransferKey| key_view(k));
        let ghost start = self.transfers();
        let ghost n0 = net@.len();
        let mut i: usize = 0;
        proof {
            assert forall|k: KeyView| start.contains_key(k) implies exists|j: int| 0 <= j < ks.len() && #[trigger] ks[j] == k by {
                let j = choose|j: int| 0 <= j < keys@.len() && key_view(#[trigger] keys@[j]) == k;
                assert(ks[j] == k);
            }
            assert forall|j: int| 0 <= j < ks.len() implies start.contains_key(#[trigger] ks[j]) by {
                assert(ks[j] == key_view(keys@[j]));
            }
            assert(net@.take(n0 as int) =~= old(net)@);
        }
        while i < keys.len()
            invariant
                self.wf(),
                ks == keys@.map_values(|k: TransferKey| key_view(k)),
                i <= keys@.len(),
                start == old(self).transfers(),
                self.transfers() == start,
                forall|j: int| 0 <= j < ks.len() ==> start.contains_key(#[trigger] ks[j]),
                forall|k: KeyView| start.contains_key(k) ==> exists|j: int| 0 <= j < ks.len() && #[trigger] ks[j] == k,
                n0 == old(net)@.len(),
                n0 <= net@.len(),
                self.positions_asked_at() == Some(now_ms),
                self.pending() == old(self).pending(),
                self.tokens() == old(self).tokens(),
                self.conns() == old(self).conns(),
                self.ids() == old(self).ids(),
                self.dirs() == old(self).dirs(),
                net@.take(n0 as int) == old(net)@,
                forall|j: int| 0 <= j < i && start[#[trigger] ks[j]].3.phase is Queued ==> asks_place(
                    net@,
                    ks[j],
                    start[ks[j]].3.legacy_attempt,
                ),
                forall|j: int| n0 <= j < net@.len() ==> place_for_queued(start, #[trigger] net@[j]),
            decreases keys@.len() - i,
        {
            let key = &keys[i];
            let ghost ki = ks[i as int];
            proof {
                assert(ki == key_view(*key));
            }
            let request = match self.transfers.get(key) {
                Some(t) => match t.phase {
                    TransferPhase::Queued => Some(
                        NetAction::Peer {
                            username: t.username.clone(),
                            message: PeerMessage::PlaceInQueueRequest {
                                file: t.virtual_path.clone(),
                                legacy_client: t.legacy_attempt,
                            },
                        },
                    ),
                    _ => None,
                },
                None => None,
            };
            match request {
                Some(action) => {
                    let ghost net0 = net@;
                    proof {
                        assert(place_request(ki, start[ki].3.legacy_attempt, action));
                        assert(start[ki].3.phase is Queued);
                    }
                    net.push(action);
                    proof {
                        assert(net@.take(net0.len() as int) =~= net0);
                        lemma_places_kept(net0, net@);
                        assert(asks_place(net@, ki, start[ki].3.legacy_attempt)) by {
                            assert(place_request(ki, start[ki].3.legacy_attempt, net@[net@.len() - 1]));
                        }
                        assert(net@.take(n0 as int) =~= old(net)@) by {
                            assert forall|x: int| 0 <= x < n0 implies net@[x] == old(net)@[x] by {
                                assert(net@[x] == net0[x]);
                                assert(net0.take(n0 as int)[x] == net0[x]);
                            }
                        }
                        assert(place_for_queued(start, action)) by {
                            assert(start.contains_key(ki));
                        }
                        assert forall|j: int| n0 <= j < net@.len() implies place_for_queued(start, #[trigger] net@[j]) by {
                            if j < net0.len() {
                                assert(net@[j] == net0[j]);
                            } else {
                                assert(net@[j] == action);
                            }
                        }
                    }
                },
                None => {},
            }
            i = i + 1;
        }
        proof {
            assert forall|k: KeyView| #[trigger] start.contains_key(k) && start[k].3.phase is Queued implies asks_place(
                net@,
                k,
                start[k].3.legacy_attempt,
            ) by {
                let j = choose|j: int| 0 <= j < ks.len() && #[trigger] ks[j] == k;
                assert(start[ks[j]].3.phase is Queued);
            }
        }
    }

    /// Once logged in, each queued download is asked for again (or held
    /// back while our shares are scanned), and the server is asked to
    /// watch each of their users.
    pub fn request_queued(&mut self, defer_requests: bool, net: &mut Vec<NetAction>)
        requires
            old(self).wf(),
        ensures
            final(self).wf(),
            final(self).transfers() == old(self).transfers(),
            old(net)@.len() <= final(net)@.len(),
            final(net)@.take(old(net)@.len() as int) == old(net)@,
            forall|k: KeyView| #[trigger] old(self).transfers().contains_key(k) && old(self).transfers()[k].3.phase is Queued
                ==> {
                    &&& watches(final(net)@, k.0)
                    &&& defer_requests ==> final(self).pending().contains(k)
                    &&& !defer_requests ==> asks_queue(final(net)@, k, old(self).transfers()[k].3.legacy_attempt)
                },
            forall|k: KeyView| old(self).pending().contains(k) ==> #[trigger] final(self).pending().contains(k),
            !defer_requests ==> final(self).pending() == old(self).pending(),
    {
        let keys = self.transfers.keys();
        let ghost ks = keys@.map_values(|k: TransferKey| key_view(k));
        let ghost start = self.transfers();
        let ghost pend0 = self.pending();
        let mut watched: Vec<String> = Vec::new();
        let mut i: usize = 0;
        proof {
            assert forall|k: KeyView| start.contains_key(k) implies exists|j: int| 0 <= j < ks.len() && #[trigger] ks[j] == k by {
                let j = choose|j: int| 0 <= j < keys@.len() && key_view(#[trigger] keys@[j]) == k;
                assert(ks[j] == k);
            }
            assert forall|j: int| 0 <= j < ks.len() implies start.contains_key(#[trigger] ks[j]) by {
                assert(ks[j] == key_view(keys@[j]));
            }
            assert(net@.take(old(net)@.len() as int) =~= old(net)@);
        }
        while i < keys.len()
            invariant
                self.wf(),
                ks == keys@.map_values(|k: TransferKey| key_view(k)),
                i <= keys@.len(),
                start == old(self).transfers(),
                pend0 == old(self).pending(),
                self.transfers() == start,
                forall|j: int| 0 <= j < ks.len() ==> start.contains_key(#[trigger] ks[j]),
                forall|k: KeyView| start.contains_key(k) ==> exists|j: int| 0 <= j < ks.len() && #[trigger] ks[j] == k,
                old(net)@.len() <= net@.len(),
                net@.take(old(net)@.len() as int) == old(net)@,
                forall|n: Seq<char>| #[trigger] name_set(watched@).contains(n) ==> watches(net@, n),
                forall|j: int| 0 <= j < i && start[#[trigger] ks[j]].3.phase is Queued ==> {
                    &&& watches(net@, ks[j].0)
                    &&& defer_requests ==> self.pending().contains(ks[j])
                    &&& !defer_requests ==> asks_queue(net@, ks[j], start[ks[j]].3.legacy_attempt)
                },
                forall|k: KeyView| pend0.contains(k) ==> #[trigger] self.pending().contains(k),
                !defer_requests ==> self.pending() == pend0,
            decreases keys@.len() - i,
        {
            let key = &keys[i];
            let ghost ki = ks[i as int];
            proof {
                assert(ki == key_view(*key));
            }
            let queued = match self.transfers.get(key) {
                Some(t) => match t.phase {
                    TransferPhase::Queued => true,
                    _ => false,
                },
                None => false,
            };
            if queued {
                let ghost net0 = net@;
                let ghost pend_before = self.pending();
                if !contains_name(&watched, key.0.as_str()) {
                    let ghost w0 = watched@;
                    watched.push(key.0.clone());
                    net.push(NetAction::Server(ServerRequest::WatchUser { user: key.0.clone() }));
                    proof {
                        assert(net@.take(net0.len() as int) =~= net0);
                        lemma_actions_kept(net0, net@);
                        assert(net@[net@.len() - 1] matches NetAction::Server(ServerRequest::WatchUser { user: u }) && u@ == ki.0);
                        assert(watches(net@, ki.0));
                        assert forall|n: Seq<char>| #[trigger] name_set(watched@).contains(n) implies watches(net@, n) by {
                            let j = choose|j: int| 0 <= j < names_of(watched@).len() && names_of(watched@)[j] == n;
                            if j < w0.len() {
                                assert(names_of(w0)[j] == n);
                                assert(name_set(w0).contains(n));
                                assert(watches(net0, n));
                            } else {
                                assert(n == ki.0);
                            }
                        }
                    }
                }
                let ghost net1 = net@;
                assert(watches(net1, ki.0));
                let owned = (key.0.clone(), key.1.clone());
                assert(key_view(owned) == ki);
                self.send_queue_request(owned, defer_requests, net);
                proof {
                    assert(net@.take(net1.len() as int) =~= net1);
                    assert(net1.take(net0.len() as int) =~= net0);
                    lemma_actions_kept(net1, net@);
                    lemma_actions_kept(net0, net1);
                    if defer_requests {
                        if !pend_before.contains(ki) {
                            assert(self.pending()[self.pending().len() - 1] == ki);
                        }
                        assert(self.pending().contains(ki));
                        assert forall|k: KeyView| pend_before.contains(k) implies #[trigger] self.pending().contains(k) by {
                            if !pend_before.contains(ki) {
                                assert(self.pending() == pend_before.push(ki));
                                let x = choose|x: int| 0 <= x < pend_before.len() && pend_before[x] == k;
                                assert(self.pending()[x] == k);
                            }
                        }
                    }
                    if !defer_requests {
                        assert(queue_request(ki, start[ki].3.legacy_attempt, net@[net@.len() - 1]));
                        assert(asks_queue(net@, ki, start[ki].3.legacy_attempt));
                    }
                    assert(net@.take(old(net)@.len() as int) =~= old(net)@) by {
                        assert(net0.take(old(net)@.len() as int) == old(net)@);
                        assert forall|x: int| 0 <= x < old(net)@.len() implies net@[x] == old(net)@[x] by {
                            assert(net1[x] == net0[x]);
                            assert(net@[x] == net1[x]);
                        }
                    }
                    assert forall|j: int| 0 <= j < i + 1 && start[#[trigger] ks[j]].3.phase is Queued implies {
                        &&& watches(net@, ks[j].0)
                        &&& defer_requests ==> self.pending().contains(ks[j])
                        &&& !defer_requests ==> asks_queue(net@, ks[j], start[ks[j]].3.legacy_attempt)
                    } by {
                        if j < i {
                            if defer_requests {
                                assert(pend_before.contains(ks[j]));
                            }
                        }
                    }
                }
            }
            i = i + 1;
        }
        proof {
            assert forall|k: KeyView| #[trigger] start.contains_key(k) && start[k].3.phase is Queued implies {
                &&& watches(net@, k.0)
                &&& defer_requests ==> self.pending().contains(k)
                &&& !defer_requests ==> asks_queue(net@, k, start[k].3.legacy_attempt)
            } by {
                let j = choose|j: int| 0 <= j < ks.len() && #[trigger] ks[j] == k;
                assert(start[ks[j]].3.phase is Queued);
            }
        }
    }

    /// A peer opened a file connection for the token of a download: the
    /// connection is attached, and the partial file is to be opened.  An
    /// unknown token, or a download that has a connection already, gets
    /// the connection closed.
    pub fn begin_file_transfer(
        &mut self,
        username: &str,
        token: u32,
        conn_id: ConnId,
        net: &mut Vec<NetAction>,
    ) -> (start: Option<FileStart>)
        requires
            old(self).wf(),
        ensures
            final(self).wf(),
            ({
                let ut = (username@, token);
                let k = old(self).tokens()[ut];
                if old(self).tokens().contains_key(ut) && old(self).transfers().contains_key(k)
                    && old(self).transfers()[k].2 is None && k.1.len() <= usize::MAX / 8 {
                    &&& start matches Some(st) && key_view(st.key) == k && st.incomplete_dir@
                        == old(self).dirs().1 && st.incomplete_path@ == incomplete_file_path_of(
                        old(self).dirs().1,
                        username@,
                        k.1,
                        DEFAULT_BASENAME_BYTE_LIMIT as int,
                    ) && st.truncate == old(self).transfers()[k].3.size_changed
                    &&& final(self).transfers()[k].2 == Some(conn_id)
                    &&& final(self).transfers()[k].3.activated_at is None
                    &&& final(net)@ == old(net)@
                } else {
                    &&& start is None
                    &&& final(net)@ == old(net)@.push(NetAction::CloseConnection(conn_id))
                }
            }),
    {
        let key = match self.transfers.key_by_token(username, token) {
            Some(k) => (k.0.clone(), k.1.clone()),
            None => {
                net.push(NetAction::CloseConnection(conn_id));
                return None;
            },
        };
        let attached = match self.transfers.get(&key) {
            Some(_) => self.transfers.conn_of(&key).is_some(),
            None => true,
        };
        let path_chars = crate::protocol::wire::chars_of(key.1.as_str()).len();
        if attached || path_chars > usize::MAX / 8 {
            net.push(NetAction::CloseConnection(conn_id));
            return None;
        }
        self.transfers.attach_conn(&key, conn_id);
        let incomplete_path = incomplete_file_path(
            self.incomplete_dir.as_str(),
            username,
            key.1.as_str(),
            DEFAULT_BASENAME_BYTE_LIMIT,
        );
        let mut truncate = false;
        match self.transfers.get_mut(&key) {
            Some(t) => {
                t.activated_at = None;
                t.incomplete_path = Some(incomplete_path.clone());
                truncate = t.size_changed;
            },
            None => {},
        }
        Some(
            FileStart {
                key,
                incomplete_dir: self.incomplete_dir.clone(),
                incomplete_path,
                truncate,
            },
        )
    }
    /// Where a finished download of `username` is put.
    pub open spec fn destination_dir(&self, username: Seq<char>) -> Seq<char> {
        if self.dirs().2 {
            path_join(self.dirs().0, clean_name(username))
        } else {
            self.dirs().0
        }
    }

    /// The whole file has arrived: the download is being placed, and its
    /// partial file is to be moved into the download folder.
    pub fn finish(&mut self, key: &TransferKey) -> (res: (Vec<TransferWork>, Placement))
        requires
            old(self).wf(),
            old(self).transfers().contains_key(key_view(*key)),
            old(self).transfers()[key_view(*key)].3.incomplete_path is Some,
        ensures
            final(self).wf(),
            ({
                let e = old(self).transfers()[key_view(*key)];
                &&& final(self).transfers() == old(self).transfers().insert(
                    key_view(*key),
                    (
                        e.0,
                        e.1,
                        e.2,
                        Transfer {
                            phase: TransferPhase::Placing,
                            bytes_done: e.3.size,
                            speed_bps: 0,
                            ..e.3
                        },
                    ),
                )
                &&& key_view(res.1.key) == key_view(*key)
                &&& res.1.destination_dir@ == old(self).destination_dir(e.3.username@)
                &&& res.1.incomplete_path@ == e.3.incomplete_path->Some_0@
                &&& res.1.basename@ == virtual_basename_of(e.3.virtual_path@)
                &&& res.0@.len() == 1
                &&& res.0@[0] matches TransferWork::Update(snap) && snap.status
                    == TransferStatus::Transferring && snap.bytes_done == e.3.size
            }),
            final(self).tokens() == old(self).tokens(),
            final(self).conns() == old(self).conns(),
            final(self).dirs() == old(self).dirs(),
            final(self).pending() == old(self).pending(),
    {
        let destination_dir = if self.username_subfolders {
            match self.transfers.get(key) {
                Some(t) => {
                    let cleaned = clean_file_name(t.username.as_str());
                    join_path(self.download_dir.as_str(), cleaned.as_str())
                },
                None => self.download_dir.clone(),
            }
        } else {
            self.download_dir.clone()
        };
        match self.transfers.get_mut(key) {
            Some(t) => {
                t.phase = TransferPhase::Placing;
                t.bytes_done = t.size;
                t.speed_bps = 0;
                let update = TransferWork::Update(t.snapshot());
                let basename = t.basename();
                let incomplete_path = match &t.incomplete_path {
                    Some(p) => p.clone(),
                    None => String::new(),
                };
                (
                    vec![update],
                    Placement {
                        key: (key.0.clone(), key.1.clone()),
                        destination_dir,
                        incomplete_path,
                        basename,
                    },
                )
            },
            None => (
                Vec::new(),
                Placement {
                    key: (key.0.clone(), key.1.clone()),
                    destination_dir,
                    incomplete_path: String::new(),
                    basename: String::new(),
                },
            ),
        }
    }

    /// The partial file was opened at `offset`, or could not be: the rest
    /// of the file is then received; a file already complete is finished;
    /// an error fails the download.  In the last two cases the connection
    /// is closed.
    pub fn file_opened(
        &mut self,
        key: &TransferKey,
        conn_id: ConnId,
        opened: Result<u64, String>,
        net: &mut Vec<NetAction>,
    ) -> (res: (Vec<TransferWork>, Option<DownloadStart>, Option<Placement>))
        requires
            old(self).wf(),
            old(self).transfers().contains_key(key_view(*key)),
            old(self).transfers()[key_view(*key)].3.incomplete_path is Some,
        ensures
            final(self).wf(),
            ({
                let k = key_view(*key);
                let e = old(self).transfers()[k];
                match opened {
                    Ok(offset) => if e.3.size > offset {
                        &&& final(self).transfers()[k] == (
                            e.0,
                            e.1,
                            e.2,
                            Transfer {
                                phase: TransferPhase::Transferring,
                                bytes_done: offset,
                                queue_place: 0,
                                speed_bps: 0,
                                ..e.3
                            },
                        )
                        &&& res.1 matches Some(d) && d.conn_id == conn_id && d.offset == offset
                            && d.bytes_left == e.3.size - offset
                        &&& res.2 is None
                        &&& final(net)@ == old(net)@
                    } else {
                        &&& final(self).transfers()[k].3.phase == TransferPhase::Placing
                        &&& res.1 is None
                        &&& res.2 is Some
                        &&& final(net)@ == old(net)@.push(NetAction::CloseConnection(conn_id))
                    },
                    Err(error) => {
                        &&& (!Self::settled(e.3.phase) ==> (final(self).transfers()[k].3.phase matches TransferPhase::Failed(r)
                            && r@ == "local file error: "@ + error@))
                        &&& res.1 is None
                        &&& res.2 is None
                        &&& final(net)@ == old(net)@.push(NetAction::CloseConnection(conn_id))
                    },
                }
            }),
    {
        proof {
            reveal_strlit("local file error: ");
        }
        match opened {
            Ok(offset) => {
                let size = match self.transfers.get(key) {
                    Some(t) => t.size,
                    None => 0,
                };
                if size > offset {
                    match self.transfers.get_mut(key) {
                        Some(t) => {
                            t.phase = TransferPhase::Transferring;
                            t.bytes_done = offset;
                            t.queue_place = 0;
                            t.speed_bps = 0;
                            let started = TransferWork::Update(t.snapshot());
                            (
                                vec![started],
                                Some(DownloadStart { conn_id, offset, bytes_left: size - offset }),
                                None,
                            )
                        },
                        None => (Vec::new(), None, None),
                    }
                } else {
                    net.push(NetAction::CloseConnection(conn_id));
                    let (work, placement) = self.finish(key);
                    (work, None, Some(placement))
                }
            },
            Err(error) => {
                net.push(NetAction::CloseConnection(conn_id));
                let mut reason = "local file error: ".to_owned();
                let chars = crate::protocol::wire::chars_of(error.as_str());
                let ghost start = reason@;
                let mut i: usize = 0;
                while i < chars.len()
                    invariant
                        i <= chars@.len(),
                        chars@ == error@,
                        reason@ == start + chars@.take(i as int),
                    decreases chars@.len() - i,
                {
                    crate::protocol::wire::push_char(&mut reason, chars[i]);
                    proof {
                        assert(chars@.take(i + 1) =~= chars@.take(i as int).push(chars@[i as int]));
                    }
                    i = i + 1;
                }
                proof {
                    assert(chars@.take(i as int) =~= chars@);
                }
                (self.fail(key, reason), None, None)
            },
        }
    }
    /// What a progress report of a download does: the transfer holding the
    /// token counts the bytes done; one that is complete goes to be placed.
    pub open spec fn progress_effect(
        before: Downloads,
        after: Downloads,
        username: Seq<char>,
        token: u32,
        bytes_left: u64,
        speed_bps: u32,
        work: Seq<TransferWork>,
        placement: Option<Placement>,
    ) -> bool {
        &&& !before.tokens().contains_key((username, token)) ==> work.len() == 0 && placement is None
            && after.transfers() == before.transfers()
        &&& ({
            let k = before.tokens()[(username, token)];
            let e = before.transfers()[k];
            before.tokens().contains_key((username, token)) && before.transfers().contains_key(k) ==> {
                &&& after.transfers()[k].3.bytes_done == if e.3.size >= bytes_left {
                    (e.3.size - bytes_left) as u64
                } else {
                    0
                }
                &&& bytes_left == 0 ==> after.transfers()[k].3.phase == TransferPhase::Placing
                    && placement is Some
                &&& bytes_left > 0 ==> after.transfers()[k] == (
                    e.0,
                    e.1,
                    e.2,
                    Transfer {
                        bytes_done: if e.3.size >= bytes_left { (e.3.size - bytes_left) as u64 } else { 0 },
                        speed_bps,
                        ..e.3
                    },
                ) && placement is None && work.len() == 1
            }
        })
    }

    /// A complete download can be placed: its transfer is known and its
    /// partial file named.
    pub open spec fn progress_placeable(d: Downloads, username: Seq<char>, token: u32, bytes_left: u64) -> bool {
        d.tokens().contains_key((username, token)) && bytes_left == 0 ==> d.transfers().contains_key(
            d.tokens()[(username, token)],
        ) && d.transfers()[d.tokens()[(username, token)]].3.incomplete_path is Some
    }

    /// A progress report from a file connection: handled as
    /// `handle_download_progress` does, except for a complete download that
    /// cannot be placed, which is left alone and gives `None`.
    pub fn report_progress(
        &mut self,
        username: &str,
        token: u32,
        bytes_left: u64,
        speed_bps: u32,
    ) -> (res: Option<(Vec<TransferWork>, Option<Placement>)>)
        requires
            old(self).wf(),
        ensures
            final(self).wf(),
            res is None <==> !Self::progress_placeable(*old(self), username@, token, bytes_left),
            res is None ==> *final(self) == *old(self),
            res matches Some((work, placement)) ==> Self::progress_effect(
                *old(self),
                *final(self),
                username@,
                token,
                bytes_left,
                speed_bps,
                work@,
                placement,
            ),
    {
        let owns = self.owns_token(username, token);
        if bytes_left != 0 || !owns || self.token_has_partial_file(username, token) {
            Some(self.handle_download_progress(username, token, bytes_left, speed_bps))
        } else {
            None
        }
    }


    /// Bytes arrived on the file connection of a token: the download's
    /// count is updated with the speed measured by the caller, and a
    /// download with nothing left is finished.
    pub fn handle_download_progress(
        &mut self,
        username: &str,
        token: u32,
        bytes_left: u64,
        speed_bps: u32,
    ) -> (res: (Vec<TransferWork>, Option<Placement>))
        requires
            old(self).wf(),
            old(self).tokens().contains_key((username@, token)) && bytes_left == 0 && old(self).transfers().contains_key(old(self).tokens()[(username@, token)])
                ==> old(self).transfers()[old(self).tokens()[(username@, token)]].3.incomplete_path is Some,
        ensures
            final(self).wf(),
            Self::progress_effect(*old(self), *final(self), username@, token, bytes_left, speed_bps, res.0@, res.1),
    {
        let key = match self.transfers.key_by_token(username, token) {
            Some(k) => (k.0.clone(), k.1.clone()),
            None => return (Vec::new(), None),
        };
        match self.transfers.get_mut(&key) {
            Some(t) => {
                t.bytes_done = t.size.saturating_sub(bytes_left);
                if bytes_left > 0 {
                    t.speed_bps = speed_bps;
                    return (vec![TransferWork::Progress(t.snapshot())], None);
                }
            },
            None => return (Vec::new(), None),
        }
        let (work, placement) = self.finish(&key);
        (work, Some(placement))
    }
    /// A file connection closed: the download on it (found by the
    /// connection, else by the token) loses the connection; one that was
    /// transferring fails, any other also loses its token.
    pub fn handle_file_connection_closed(
        &mut self,
        username: &str,
        token: Option<u32>,
        conn_id: ConnId,
    ) -> (work: Vec<TransferWork>)
        requires
            old(self).wf(),
        ensures
            final(self).wf(),
            ({
                let found = if old(self).conns().contains_key(conn_id) {
                    Some(old(self).conns()[conn_id])
                } else {
                    match token {
                        Some(t) => if old(self).tokens().contains_key((username@, t)) {
                            Some(old(self).tokens()[(username@, t)])
                        } else {
                            None
                        },
                        None => None,
                    }
                };
                match found {
                    None => work@.len() == 0 && final(self).transfers() == old(self).transfers(),
                    Some(k) => old(self).transfers().contains_key(k) ==> {
                        let e = old(self).transfers()[k];
                        &&& final(self).transfers()[k].2 is None
                        &&& e.3.phase is Transferring ==> (final(self).transfers()[k].3.phase matches TransferPhase::Failed(
                            r,
                        ) && r@ == "connection closed"@)
                        &&& !(e.3.phase is Transferring) ==> final(self).transfers()[k] == (
                            e.0,
                            None::<u32>,
                            None::<ConnId>,
                            e.3,
                        ) && work@.len() == 0
                    },
                }
            }),
    {
        proof {
            reveal_strlit("connection closed");
        }
        let key = match self.transfers.key_by_conn(conn_id) {
            Some(k) => (k.0.clone(), k.1.clone()),
            None => match token {
                Some(t) => match self.transfers.key_by_token(username, t) {
                    Some(k) => (k.0.clone(), k.1.clone()),
                    None => return Vec::new(),
                },
                None => return Vec::new(),
            },
        };
        self.transfers.detach_conn(&key);
        let transferring = match self.transfers.get(&key) {
            Some(t) => match t.phase {
                TransferPhase::Transferring => true,
                _ => false,
            },
            None => return Vec::new(),
        };
        if transferring {
            self.fail(&key, "connection closed".to_owned())
        } else {
            self.transfers.detach_token(&key);
            Vec::new()
        }
    }

    /// Messages to a peer could not be sent: each queue request among them
    /// fails its download, as offline or timed out.
    pub fn handle_peer_connection_error(
        &mut self,
        username: &str,
        unsent: &[PeerMessage],
        is_offline: bool,
    ) -> (work: Vec<TransferWork>)
        requires
            old(self).wf(),
        ensures
            final(self).wf(),
            final(self).transfers().dom() == old(self).transfers().dom(),
            forall|k: KeyView| #[trigger] old(self).transfers().contains_key(k) ==> if k.0 == username@
                && asks_queue_of(unsent@, k.1) && !Self::settled(old(self).transfers()[k].3.phase) {
                failed_by_connection(old(self).transfers()[k], final(self).transfers()[k], connection_failure(is_offline))
            } else {
                final(self).transfers()[k] == old(self).transfers()[k]
            },
            forall|j: int| 0 <= j < work@.len() ==> (#[trigger] work@[j] matches TransferWork::Update(snap)
                && snap.status == TransferStatus::Failed),
            final(self).pending() == old(self).pending(),
            final(self).ids() == old(self).ids(),
    {
        proof {
            reveal_strlit("user is offline");
            reveal_strlit("connection timeout");
        }
        let ghost start = self.transfers();
        let ghost reason_v = connection_failure(is_offline);
        let mut updates: Vec<TransferWork> = Vec::new();
        let mut i: usize = 0;
        while i < unsent.len()
            invariant
                self.wf(),
                i <= unsent@.len(),
                start == old(self).transfers(),
                reason_v == connection_failure(is_offline),
                self.transfers().dom() == start.dom(),
                self.pending() == old(self).pending(),
                self.ids() == old(self).ids(),
                forall|k: KeyView| #[trigger] start.contains_key(k) ==> if k.0 == username@
                    && asks_queue_of(unsent@.take(i as int), k.1) && !Self::settled(start[k].3.phase) {
                    failed_by_connection(start[k], self.transfers()[k], reason_v)
                } else {
                    self.transfers()[k] == start[k]
                },
                forall|j: int| 0 <= j < updates@.len() ==> (#[trigger] updates@[j] matches TransferWork::Update(snap)
                    && snap.status == TransferStatus::Failed),
            decreases unsent@.len() - i,
        {
            let ghost before = self.transfers();
            let ghost prefix = unsent@.take(i as int);
            let ghost next = unsent@.take(i + 1);
            proof {
                assert(next =~= prefix.push(unsent@[i as int]));
                assert forall|f: Seq<char>| asks_queue_of(prefix, f) implies asks_queue_of(next, f) by {
                    let x = choose|x: int| 0 <= x < prefix.len() && queued_file(prefix[x], f);
                    assert(next[x] == prefix[x]);
                }
            }
            if let PeerMessage::QueueUpload { file, .. } = &unsent[i] {
                let key = (username.to_owned(), file.clone());
                let reason = if is_offline {
                    "user is offline"
                } else {
                    "connection timeout"
                };
                let ghost kv = key_view(key);
                let reason_s = reason.to_owned();
                assert(reason_s@ == reason_v);
                let mut more = self.fail(&key, reason_s);
                let ghost w0 = updates@;
                let ghost m0 = more@;
                updates.append(&mut more);
                proof {
                    assert(queued_file(unsent@[i as int], kv.1));
                    assert(asks_queue_of(next, kv.1)) by {
                        assert(queued_file(next[i as int], kv.1));
                    }
                    assert forall|j: int| 0 <= j < updates@.len() implies (#[trigger] updates@[j] matches TransferWork::Update(snap)
                        && snap.status == TransferStatus::Failed) by {
                        if j < w0.len() {
                            assert(updates@[j] == w0[j]);
                        } else {
                            assert(updates@[j] == m0[j - w0.len()]);
                        }
                    }
                    assert forall|k: KeyView| k != kv implies self.transfers().get(k) == before.get(k) by {
                    }
                    assert forall|k: KeyView| self.transfers().dom().contains(k) == before.dom().contains(k) by {
                        if k != kv {
                            assert(self.transfers().get(k) == before.get(k));
                        }
                    }
                    assert(self.transfers().dom() =~= before.dom());
                    assert forall|k: KeyView| #[trigger] start.contains_key(k) implies if k.0 == username@
                        && asks_queue_of(next, k.1) && !Self::settled(start[k].3.phase) {
                        failed_by_connection(start[k], self.transfers()[k], reason_v)
                    } else {
                        self.transfers()[k] == start[k]
                    } by {
                        if k != kv {
                            assert(self.transfers().get(k) == before.get(k));
                            if k.0 == username@ && asks_queue_of(next, k.1) {
                                let x = choose|x: int| 0 <= x < next.len() && queued_file(next[x], k.1);
                                if x == i {
                                    assert(k == kv);
                                } else {
                                    assert(prefix[x] == next[x]);
                                    assert(asks_queue_of(prefix, k.1));
                                }
                            }
                        } else {
                            if asks_queue_of(prefix, k.1) && !Self::settled(start[k].3.phase) {
                                assert(Self::settled(before[k].3.phase));
                            }
                        }
                    }
                }
            } else {
                proof {
                    assert forall|f: Seq<char>| asks_queue_of(next, f) implies asks_queue_of(prefix, f) by {
                        let x = choose|x: int| 0 <= x < next.len() && queued_file(next[x], f);
                        if x < i {
                            assert(prefix[x] == next[x]);
                        }
                    }
                }
            }
            i = i + 1;
        }
        proof {
            assert(unsent@.take(unsent@.len() as int) =~= unsent@);
        }
        updates
    }
    /// What `clear` does, as its contract states it.
    pub open spec fn clear_effect(before: Downloads, after: Downloads, statuses: Seq<TransferStatus>, removed: Seq<TransferId>) -> bool {
        &&& (forall|i: int| 0 <= i < removed.len() ==> !after.ids().contains_key(#[trigger] removed[i]))
        &&& (forall|k: KeyView| #[trigger]
                before.transfers().contains_key(k) && statuses.contains(
                    before.transfers()[k].3.phase.spec_status(),
                ) ==> removed.contains(before.transfers()[k].3.id))
    }

    /// Removes the downloads whose status is listed, closing their
    /// connections; returns their ids.
    pub fn clear(&mut self, statuses: &[TransferStatus], net: &mut Vec<NetAction>) -> (removed: Vec<
        TransferId,
    >)
        requires
            old(self).wf(),
        ensures
            final(self).wf(),
            Self::clear_effect(*old(self), *final(self), statuses@, removed@),
    {
        let keys = self.transfers.keys();
        let mut ids: Vec<TransferId> = Vec::new();
        let mut i: usize = 0;
        while i < keys.len()
            invariant
                self.wf(),
                *self == *old(self),
                i <= keys@.len(),
                forall|j: int| 0 <= j < keys@.len() ==> self.transfers().contains_key(key_view(#[trigger] keys@[j])),
                forall|k: KeyView| #[trigger]
                    self.transfers().contains_key(k) ==> exists|j: int|
                        0 <= j < keys@.len() && key_view(#[trigger] keys@[j]) == k,
                forall|j: int| 0 <= j < i && statuses@.contains(
                    self.transfers()[key_view(#[trigger] keys@[j])].3.phase.spec_status(),
                ) ==> ids@.contains(self.transfers()[key_view(keys@[j])].3.id),
            decreases keys@.len() - i,
        {
            let ghost kv = key_view(keys@[i as int]);
            match self.transfers.get(&keys[i]) {
                Some(t) => {
                    let status = t.phase.status();
                    let mut listed = false;
                    let mut s: usize = 0;
                    while s < statuses.len()
                        invariant
                            s <= statuses@.len(),
                            listed == exists|q: int| 0 <= q < s && statuses@[q] == status,
                        decreases statuses@.len() - s,
                    {
                        if statuses[s] == status {
                            listed = true;
                        }
                        s = s + 1;
                    }
                    if listed {
                        let ghost before = ids@;
                        ids.push(t.id);
                        proof {
                            assert forall|x: TransferId| before.contains(x) implies ids@.contains(x) by {
                                let q = choose|q: int| 0 <= q < before.len() && before[q] == x;
                                assert(ids@[q] == x);
                            }
                            assert(ids@[ids@.len() - 1] == t.id);
                        }
                    }
                },
                None => {},
            }
            i = i + 1;
        }
        proof {
            assert forall|k: KeyView| #[trigger]
                self.transfers().contains_key(k) && statuses@.contains(
                    self.transfers()[k].3.phase.spec_status(),
                ) implies ids@.contains(self.transfers()[k].3.id) by {
                let j = choose|j: int| 0 <= j < keys@.len() && key_view(#[trigger] keys@[j]) == k;
            }
        }
        let mut r: usize = 0;
        while r < ids.len()
            invariant
                self.wf(),
                r <= ids@.len(),
                forall|j: int| 0 <= j < r ==> !self.ids().contains_key(#[trigger] ids@[j]),
            decreases ids@.len() - r,
        {
            let removed = self.remove_entry(ids[r]);
            if let Some(conn_id) = removed {
                net.push(NetAction::CloseConnection(conn_id));
            }
            r = r + 1;
        }
        ids
    }

    /// Removes the download with this id; returns its connection, if any.
    fn remove_entry(&mut self, id: TransferId) -> (conn: Option<ConnId>)
        requires
            old(self).wf(),
        ensures
            final(self).wf(),
            !final(self).ids().contains_key(id),
            forall|x: TransferId| x != id && !old(self).ids().contains_key(x) ==> !final(self).ids().contains_key(x),
    {
        match self.transfers.remove(id) {
            Some((_, detached)) => detached.conn_id,
            None => None,
        }
    }

    /// What `clear_all` does, as its contract states it.
    pub open spec fn clear_all_effect(before: Downloads, after: Downloads, removed: Seq<TransferId>) -> bool {
        &&& (forall|i: int| 0 <= i < removed.len() ==> !after.ids().contains_key(#[trigger] removed[i]))
        &&& (forall|k: KeyView| #[trigger]
                before.transfers().contains_key(k) ==> removed.contains(before.transfers()[k].3.id))
    }

    /// Removes every download, closing their connections; returns their ids.
    pub fn clear_all(&mut self, net: &mut Vec<NetAction>) -> (removed: Vec<TransferId>)
        requires
            old(self).wf(),
        ensures
            final(self).wf(),
            Self::clear_all_effect(*old(self), *final(self), removed@),
    {
        let all = [
            TransferStatus::Queued,
            TransferStatus::Transferring,
            TransferStatus::Finished,
            TransferStatus::Aborted,
            TransferStatus::Failed,
        ];
        proof {
            assert forall|st: TransferStatus| all@.contains(st) by {
                match st {
                    TransferStatus::Queued => assert(all@[0] == st),
                    TransferStatus::Transferring => assert(all@[1] == st),
                    TransferStatus::Finished => assert(all@[2] == st),
                    TransferStatus::Aborted => assert(all@[3] == st),
                    TransferStatus::Failed => assert(all@[4] == st),
                }
            }
        }
        self.clear(&all, net)
    }

    /// Sends the queue requests that were held back, for downloads still
    /// queued; forgets them.
    pub fn flush_queued_requests(&mut self, net: &mut Vec<NetAction>)
        requires
            old(self).wf(),
        ensures
            final(self).wf(),
            final(self).pending() == Seq::<KeyView>::empty(),
            final(self).transfers() == old(self).transfers(),
            requests_sent(old(net)@, final(net)@, flushed_requests(old(self).pending(), old(self).transfers())),
    {
        let mut pending: Vec<TransferKey> = Vec::new();
        std::mem::swap(&mut pending, &mut self.pending_queue_requests);
        let mut i: usize = 0;
        proof {
            assert(net@.take(old(net)@.len() as int) =~= old(net)@);
        }
        while i < pending.len()
            invariant
                self.wf(),
                self.transfers() == old(self).transfers(),
                self.pending_queue_requests@.len() == 0,
                i <= pending@.len(),
                keys_view(pending@) == old(self).pending(),
                requests_sent(old(net)@, net@, flushed_requests(keys_view(pending@).take(i as int), old(self).transfers())),
            decreases pending@.len() - i,
        {
            let key = &pending[i];
            let send = match self.transfers.get(key) {
                Some(t) => match t.phase {
                    TransferPhase::Queued => Some(t.legacy_attempt),
                    _ => None,
                },
                None => None,
            };
            let ghost ks = keys_view(pending@);
            proof {
                assert(ks.take(i + 1).drop_last() =~= ks.take(i as int));
                assert(ks.take(i + 1).last() == key_view(*key));
            }
            let ghost before = net@;
            if let Some(legacy_client) = send {
                net.push(
                    NetAction::Peer {
                        username: key.0.clone(),
                        message: PeerMessage::QueueUpload { file: key.1.clone(), legacy_client },
                    },
                );
                proof {
                    assert(net@.take(old(net)@.len() as int) =~= before.take(old(net)@.len() as int));
                    assert forall|j: int| 0 <= j < before.len() implies net@[j] == before[j] by {}
                }
            }
            i = i + 1;
        }
        proof {
            assert(keys_view(pending@).take(pending@.len() as int) =~= old(self).pending());
            assert(self.pending() =~= Seq::<KeyView>::empty());
        }
    }
    /// A request that was granted at `at` and is still unanswered at `now`
    /// has expired when more than `timeout` passed.
    pub open spec fn expired(e: EntryView<Transfer>, now: u64, timeout: u64) -> bool {
        e.3.phase is GettingStatus && (e.3.activated_at matches Some(at) && now >= at && now - at
            > timeout)
    }

    /// Fails the downloads whose transfer request went unanswered for
    /// longer than `timeout`.
    pub fn sweep_request_timeouts(&mut self, now: u64, timeout: u64) -> (work: Vec<TransferWork>)
        requires
            old(self).wf(),
        ensures
            final(self).wf(),
            final(self).transfers().dom() == old(self).transfers().dom(),
            forall|k: KeyView| #[trigger]
                old(self).transfers().contains_key(k) ==> if Self::expired(old(self).transfers()[k], now, timeout) {
                    final(self).transfers()[k].3.phase matches TransferPhase::Failed(r) && r@
                        == "request timed out"@
                } else {
                    final(self).transfers()[k] == old(self).transfers()[k]
                },
    {
        proof {
            reveal_strlit("request timed out");
        }
        let keys = self.transfers.keys();
        let ghost ks = keys@.map_values(|k: TransferKey| key_view(k));
        let ghost start = self.transfers();
        let mut updates: Vec<TransferWork> = Vec::new();
        let mut i: usize = 0;
        proof {
            assert forall|a: int, b: int| 0 <= a < ks.len() && 0 <= b < ks.len() && ks[a] == ks[b] implies a == b by {
                assert(ks[a] == key_view(keys@[a]));
                assert(ks[b] == key_view(keys@[b]));
            }
            assert forall|k: KeyView| start.contains_key(k) implies exists|j: int| 0 <= j < ks.len() && #[trigger] ks[j] == k by {
                let j = choose|j: int| 0 <= j < keys@.len() && key_view(#[trigger] keys@[j]) == k;
                assert(ks[j] == k);
            }
            assert forall|j: int| 0 <= j < ks.len() implies start.contains_key(#[trigger] ks[j]) by {
                assert(ks[j] == key_view(keys@[j]));
            }
        }
        while i < keys.len()
            invariant
                self.wf(),
                ks == keys@.map_values(|k: TransferKey| key_view(k)),
                i <= keys@.len(),
                forall|a: int, b: int| 0 <= a < ks.len() && 0 <= b < ks.len() && ks[a] == ks[b] ==> a == b,
                forall|j: int| 0 <= j < ks.len() ==> start.contains_key(#[trigger] ks[j]),
                forall|k: KeyView| start.contains_key(k) ==> exists|j: int| 0 <= j < ks.len() && #[trigger] ks[j] == k,
                self.transfers().dom() == start.dom(),
                forall|j: int| 0 <= j < i ==> if Self::expired(start[#[trigger] ks[j]], now, timeout) {
                    self.transfers()[ks[j]].3.phase matches TransferPhase::Failed(r) && r@
                        == "request timed out"@
                } else {
                    self.transfers()[ks[j]] == start[ks[j]]
                },
                forall|j: int| i <= j < ks.len() ==> self.transfers()[#[trigger] ks[j]] == start[ks[j]],
            decreases keys@.len() - i,
        {
            let key = &keys[i];
            let ghost ki = ks[i as int];
            proof {
                assert(ki == key_view(*key));
            }
            let expired = match self.transfers.get(key) {
                Some(t) => match t.phase {
                    TransferPhase::GettingStatus => match t.activated_at {
                        Some(at) => now >= at && now - at > timeout,
                        None => false,
                    },
                    _ => false,
                },
                None => false,
            };
            if expired {
                let ghost before = self.transfers();
                let mut more = self.fail(key, "request timed out".to_owned());
                updates.append(&mut more);
                proof {
                    assert forall|j: int| 0 <= j < ks.len() && j != i implies self.transfers()[#[trigger] ks[j]]
                        == before[ks[j]] by {
                        assert(ks[j] != ki);
                        assert(self.transfers().get(ks[j]) == before.get(ks[j]));
                    }
                    assert forall|k: KeyView| self.transfers().dom().contains(k) == before.dom().contains(k) by {
                        if k != ki {
                            assert(self.transfers().get(k) == before.get(k));
                        }
                    }
                    assert(self.transfers().dom() =~= start.dom());
                }
            }
            i = i + 1;
        }
        proof {
            assert forall|k: KeyView| #[trigger] start.contains_key(k) implies if Self::expired(start[k], now, timeout) {
                self.transfers()[k].3.phase matches TransferPhase::Failed(r) && r@ == "request timed out"@
            } else {
                self.transfers()[k] == start[k]
            } by {
                let j = choose|j: int| 0 <= j < ks.len() && #[trigger] ks[j] == k;
                assert(ks[j] == k);
            }
        }
        updates
    }
}

} // verus!
