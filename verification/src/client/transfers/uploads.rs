//! Uploads: requests from peers, the queue of waiting uploads, and the
//! state of each upload.
use vstd::prelude::*;

use super::downloads::NetAction;
use super::queue::{count_of, key_view, TransferKey, UploadQueue};
use super::registry::{EntryView, KeyView, Registry};
use super::{AbortResult, TransferIds, TransferPhase, TransferRejectReason, TransferWork};
use crate::client::shares::index::SharesIndex;
use crate::client::speed::SpeedMeter;
use crate::client::users::Users;
use crate::protocol::peer::PeerMessage;
use crate::protocol::server_request::ServerRequest;
use crate::protocol::{increment_token, initial_token};
use crate::text::lowercase_of;
use crate::types::{
    ConnId, FileAttributes, Restriction, TransferDirection, TransferId, TransferSnapshot,
    TransferStatus,
};

verus! {

/// An upload to a peer.
pub struct UploadTransfer {
    pub id: TransferId,
    pub username: String,
    pub virtual_path: String,
    pub real_path: Option<String>,
    pub size: u64,
    pub attributes: FileAttributes,
    pub phase: TransferPhase,
    pub bytes_done: u64,
    pub speed_bps: u32,
    pub started_offset: u64,
    pub activated_at: Option<u64>,
    pub started_at: Option<u64>,
    pub speed: SpeedMeter,
}

impl UploadTransfer {
    pub fn key(&self) -> (key: TransferKey)
        ensures
            key_view(key) == (self.username@, self.virtual_path@),
    {
        (self.username.clone(), self.virtual_path.clone())
    }

    pub fn snapshot(&self) -> (s: TransferSnapshot)
        ensures
            s.id == self.id,
            s.direction == TransferDirection::Upload,
            s.username@ == self.username@,
            s.virtual_path@ == self.virtual_path@,
            s.size == self.size,
            s.bytes_done == self.bytes_done,
            s.status == self.phase.spec_status(),
            match self.phase {
                TransferPhase::Failed(r) => s.failure_reason matches Some(x) && x@ == r@,
                _ => s.failure_reason is None,
            },
            match self.real_path {
                Some(p) => s.file_path matches Some(x) && x@ == p@,
                None => s.file_path is None,
            },
            s.queue_place == 0,
            s.speed_bps == if self.phase is Transferring { self.speed_bps } else { 0 },
            s.attributes == self.attributes,
    {
        TransferSnapshot {
            id: self.id,
            direction: TransferDirection::Upload,
            username: self.username.clone(),
            virtual_path: self.virtual_path.clone(),
            size: self.size,
            bytes_done: self.bytes_done,
            status: self.phase.status(),
            failure_reason: match &self.phase {
                TransferPhase::Failed(reason) => Some(reason.clone()),
                _ => None,
            },
            file_path: match &self.real_path {
                Some(p) => Some(p.clone()),
                None => None,
            },
            queue_place: 0,
            speed_bps: match self.phase {
                TransferPhase::Transferring => self.speed_bps,
                _ => 0,
            },
            attributes: self.attributes,
        }
    }
}

/// What a file to upload is: where it is on disk, its size and attributes.
pub type Resolved = (String, u64, FileAttributes);

/// Uploads, their queue and the slots they are served in.
pub struct Uploads {
    upload_slots: usize,
    queue_file_limit: usize,
    transfers: Registry<UploadTransfer>,
    queue: UploadQueue,
    token: u32,
    pub upload_speed: u32,
}

/// Why a peer's request for a file is refused, if it is: the user is
/// banned, denied by a restriction, the file is not shared with it, or the
/// user has too many files queued.
pub open spec fn refusal(
    users: &Users,
    shares: Option<&SharesIndex>,
    queued: Seq<KeyView>,
    limit: usize,
    username: Seq<char>,
    virtual_path: Seq<char>,
) -> Option<Seq<char>> {
    if users.banned().contains(username) {
        Some("Banned"@)
    } else if users.restriction_of(username) is Some && users.restriction_of(username)->0 is Denied {
        Some(users.restriction_of(username)->0->reason@)
    } else {
        match shares {
            None => Some("File not shared."@),
            Some(ix) => match ix.resolved(virtual_path) {
                None => Some("File not shared."@),
                Some(f) => if ix.file_list()[f as int].buddy_only && !users.buddies().contains(
                    username,
                ) {
                    Some("File not shared."@)
                } else if count_of(queued, username) >= limit {
                    Some("Too many files"@)
                } else {
                    None
                },
            },
        }
    }
}

impl Uploads {
    pub closed spec fn transfers(&self) -> Map<KeyView, EntryView<UploadTransfer>> {
        self.transfers.entries()
    }

    pub closed spec fn tokens(&self) -> Map<(Seq<char>, u32), KeyView> {
        self.transfers.tokens()
    }

    pub closed spec fn conns(&self) -> Map<ConnId, KeyView> {
        self.transfers.conns()
    }

    pub closed spec fn ids(&self) -> Map<TransferId, KeyView> {
        self.transfers.ids()
    }

    /// The uploads waiting for a slot, in the order they came.
    pub closed spec fn queued(&self) -> Seq<KeyView> {
        self.queue.entries()
    }

    /// The token of the upload a user is being served, if any.
    pub closed spec fn serving(&self, name: Seq<char>) -> Option<u32> {
        self.queue.active_token(name)
    }

    pub closed spec fn slots(&self) -> usize {
        self.upload_slots
    }

    pub closed spec fn file_limit(&self) -> usize {
        self.queue_file_limit
    }

    /// The average speed of the last upload finished.
    pub closed spec fn speed(&self) -> u32 {
        self.upload_speed
    }

    /// The token of the last upload requested.
    pub closed spec fn last_token(&self) -> u32 {
        self.token
    }

    /// Each upload is filed under its own key and id, and each queued
    /// upload is a known one.
    pub closed spec fn wf(&self) -> bool {
        &&& self.transfers.wf()
        &&& self.queue.wf()
        &&& forall|k: KeyView| #[trigger]
            self.transfers.entries().contains_key(k) ==> self.transfers.entries()[k].3.id
                == self.transfers.entries()[k].0 && (
                self.transfers.entries()[k].3.username@,
                self.transfers.entries()[k].3.virtual_path@,
            ) == k
        &&& forall|i: int|
            0 <= i < self.queue.entries().len() ==> self.transfers.entries().contains_key(
                #[trigger] self.queue.entries()[i],
            )
    }

    /// The turn counter of the queue has room for the queue operations of
    /// any one call.
    pub closed spec fn room(&self) -> bool {
        self.queue.counter() + self.queue.entries().len() + self.transfers.entries().dom().len() + 8
            <= u64::MAX
    }

    /// With room, the turns given out so far leave room for one per
    /// transfer and more.
    pub proof fn lemma_room_bounds_turns(&self)
        requires
            self.room(),
        ensures
            self.used() + self.transfers().dom().len() + 8 <= u64::MAX,
    {
    }

    pub fn new(upload_slots: usize, queue_file_limit: usize) -> (u: Self)
        ensures
            u.wf(),
            u.room(),
            u.slots() == upload_slots,
            u.file_limit() == queue_file_limit,
            u.transfers() == Map::<KeyView, EntryView<UploadTransfer>>::empty(),
            u.queued().len() == 0,
            u.speed() == 0,
    {
        let u = Uploads {
            upload_slots,
            queue_file_limit,
            transfers: Registry::new(),
            queue: UploadQueue::new(),
            token: initial_token(),
            upload_speed: 0,
        };
        proof {
            assert(u.transfers.entries().dom() =~= Set::<KeyView>::empty());
        }
        u
    }

    pub fn total_slots(&self) -> (n: u32)
        ensures
            n == self.slots() as u32,
    {
        self.upload_slots as u32
    }

    pub fn set_limits(&mut self, upload_slots: usize, queue_file_limit: usize)
        ensures
            final(self).slots() == upload_slots,
            final(self).file_limit() == queue_file_limit,
            final(self).transfers() == old(self).transfers(),
            final(self).tokens() == old(self).tokens(),
            final(self).conns() == old(self).conns(),
            final(self).ids() == old(self).ids(),
            final(self).queued() == old(self).queued(),
            old(self).wf() ==> final(self).wf(),
            old(self).room() ==> final(self).room(),
    {
        self.upload_slots = upload_slots;
        self.queue_file_limit = queue_file_limit;
    }

    /// Whether a slot is free for one more upload.
    pub fn is_new_upload_accepted(&self) -> (b: bool)
        requires
            self.wf(),
        ensures
            b == (self.tokens().dom().len() < self.slots()),
    {
        self.transfers.token_count() < self.upload_slots
    }

    /// Number of uploads waiting for a slot.
    pub fn queue_size(&self) -> (n: u32)
        ensures
            n == self.queued().len() as u32,
    {
        self.queue.len() as u32
    }

    /// Whether a token is that of an upload's current attempt.
    pub fn owns_token(&self, username: &str, token: u32) -> (b: bool)
        requires
            self.wf(),
        ensures
            b == self.tokens().contains_key((username@, token)),
    {
        self.transfers.owns_token(username, token)
    }

    /// The average speed of the last upload finished.
    pub fn avg_speed(&self) -> (s: u32)
        ensures
            s == self.speed(),
    {
        self.upload_speed
    }

    /// Number of uploads waiting for a slot.
    pub fn queue_len(&self) -> (n: usize)
        ensures
            n == self.queued().len(),
    {
        self.queue.len()
    }

    /// Whether a user is being served an upload.
    pub fn is_serving(&self, username: &str) -> (b: bool)
        requires
            self.wf(),
        ensures
            b == self.serving(username@) is Some,
    {
        self.queue.is_active(username)
    }

    /// Whether the turn counter has room for the next call.
    pub fn has_room(&self) -> (b: bool)
        requires
            self.wf(),
        ensures
            b == self.room(),
    {
        let counter = self.queue.counter_value();
        let queued = self.queue.len() as u64;
        let known = self.transfers.len() as u64;
        counter <= u64::MAX - 8 && queued <= u64::MAX - 8 - counter && known <= u64::MAX - 8 - counter
            - queued
    }

    /// What `handle_place_in_queue_request` does, as its contract states it.
    pub open spec fn place_request_effect(before: Uploads, username: Seq<char>, virtual_path: Seq<char>, net0: Seq<NetAction>, net1: Seq<NetAction>) -> bool {
        &&& (match super::queue::place_in(before.queued(), (username, virtual_path)) {
                None => net1 =~= net0,
                Some(p) => net1 =~= net0.push(net1.last()) && (net1.last() matches NetAction::Peer {
                    username: u,
                    message: PeerMessage::PlaceInQueueResponse { filename, place },
                } && u@ == username && filename@ == virtual_path && place == p as u32),
            })
    }

    /// Asks nothing of the network when the upload is not queued; otherwise
    /// tells the peer its place in the queue.
    pub fn handle_place_in_queue_request(&self, username: &str, virtual_path: &str, net: &mut Vec<
        NetAction,
    >)
        requires
            self.queued().len() < u32::MAX,
        ensures
            Self::place_request_effect(*self, username@, virtual_path@, old(net)@, final(net)@),
    {
        match self.queue.place_of(username, virtual_path) {
            Some(place) => {
                net.push(
                    NetAction::Peer {
                        username: username.to_owned(),
                        message: PeerMessage::PlaceInQueueResponse {
                            filename: virtual_path.to_owned(),
                            place,
                        },
                    },
                );
                proof {
                    assert(net@.drop_last() =~= old(net)@);
                }
            },
            None => {},
        }
    }

    /// Checks a peer's request for a file: the file to upload, or the
    /// reason to refuse.
    fn validate_request(
        &self,
        username: &str,
        virtual_path: &str,
        shares: Option<&SharesIndex>,
        users: &Users,
    ) -> (res: Result<Resolved, String>)
        requires
            self.wf(),
            users.wf(),
            shares matches Some(ix) ==> ix.wf(),
        ensures
            match refusal(users, shares, self.queued(), self.file_limit(), username@, virtual_path@) {
                Some(r) => res matches Err(e) && e@ == r,
                None => res matches Ok(x) && ({
                    let ix = shares->0;
                    let f = ix.resolved(virtual_path@)->0;
                    &&& x.0@ == ix.file_list()[f as int].real_path@
                    &&& x.1 == ix.file_list()[f as int].size
                    &&& x.2 == ix.file_list()[f as int].attributes
                }),
            },
    {
        proof {
            reveal_strlit("Banned");
            reveal_strlit("File not shared.");
            reveal_strlit("Too many files");
        }
        if users.is_banned(username) {
            return Err(TransferRejectReason::BANNED.to_owned());
        }
        match users.restriction(username) {
            Some(Restriction::Denied { reason }) => {
                return Err(reason.clone());
            },
            _ => {},
        }
        let found = match shares {
            Some(ix) => ix.resolve(virtual_path, users.is_buddy(username)),
            None => None,
        };
        match found {
            None => Err(TransferRejectReason::FILE_NOT_SHARED.to_owned()),
            Some((real_path, size, attributes)) => {
                if self.queue.queued_for(username) >= self.queue_file_limit {
                    return Err(TransferRejectReason::TOO_MANY_FILES.to_owned());
                }
                Ok((real_path.clone(), size, *attributes))
            },
        }
    }
}

/// Dropping every entry equal to an element that occurs leaves fewer.
proof fn lemma_without_shorter(s: Seq<KeyView>, k: KeyView, i: int)
    requires
        0 <= i < s.len(),
        s[i] == k,
    ensures
        super::queue::without(s, k).len() < s.len(),
    decreases s.len(),
{
    reveal(Seq::filter);
    let p = super::queue::other_than(k);
    if i == s.len() - 1 {
        s.drop_last().lemma_filter_len(p);
        assert(!p(s.last()));
    } else {
        lemma_without_shorter(s.drop_last(), k, i);
        if p(s.last()) {
        } else {
        }
    }
}

/// A download or upload in this phase is over.
pub open spec fn settled(phase: TransferPhase) -> bool {
    phase is Finished || phase is Aborted || phase is Failed
}

/// The average speed of an upload that finished at `now_ns`, if it ran for
/// at least a second and sent something since it started.
pub open spec fn average_speed(t: UploadTransfer, now_ns: u64) -> Option<u32> {
    match t.started_at {
        Some(at) => {
            let sent = t.size - t.started_offset;
            if now_ns >= at && now_ns - at >= crate::client::speed::SAMPLE_WINDOW_NS && sent > 0 {
                Some(crate::client::speed::rate_of(sent as nat, (now_ns - at) as nat))
            } else {
                None
            }
        },
        None => None,
    }
}

impl Uploads {
    /// Turn counter and queue length together; each queue operation adds
    /// at most one, a push two.
    pub closed spec fn used(&self) -> int {
        self.queue.counter() + self.queue.entries().len()
    }

    /// The last turn number the queue gave out.
    pub closed spec fn turns(&self) -> u64 {
        self.queue.counter()
    }

    /// Takes in an upload kept from before.
    pub fn seed(&mut self, seed: TransferSnapshot)
        requires
            old(self).wf(),
            seed.status != TransferStatus::Transferring,
        ensures
            final(self).wf(),
            final(self).transfers().contains_key((seed.username@, seed.virtual_path@)),
            final(self).transfers()[(seed.username@, seed.virtual_path@)].0 == seed.id,
            forall|k: KeyView| k != (seed.username@, seed.virtual_path@) ==> final(self).transfers().get(k)
                == old(self).transfers().get(k),
            final(self).queued() == old(self).queued(),
            final(self).used() == old(self).used(),
    {
        let phase = TransferPhase::from_seed(&seed);
        let key = (seed.username.clone(), seed.virtual_path.clone());
        let transfer = UploadTransfer {
            id: seed.id,
            username: seed.username,
            virtual_path: seed.virtual_path,
            real_path: seed.file_path,
            size: seed.size,
            attributes: seed.attributes,
            phase,
            bytes_done: seed.bytes_done,
            speed_bps: 0,
            started_offset: 0,
            activated_at: None,
            started_at: None,
            speed: SpeedMeter::new(),
        };
        self.transfers.insert(seed.id, key, transfer);
    }

    /// The upload stops being served: it loses its token and leaves the
    /// queue.
    fn deactivate(&mut self, key: &TransferKey)
        requires
            old(self).wf(),
            old(self).used() + 1 <= u64::MAX,
        ensures
            final(self).wf(),
            final(self).transfers() == match old(self).transfers().get(key_view(*key)) {
                Some(e) => old(self).transfers().insert(key_view(*key), (e.0, None, e.2, e.3)),
                None => old(self).transfers(),
            },
            final(self).queued() == super::queue::without(old(self).queued(), key_view(*key)),
            final(self).used() <= old(self).used() + 1,
            final(self).conns() == old(self).conns(),
            final(self).ids() == old(self).ids(),
            final(self).slots() == old(self).slots(),
            final(self).file_limit() == old(self).file_limit(),
            final(self).last_token() == old(self).last_token(),
            final(self).speed() == old(self).speed(),
    {
        let token = self.transfers.detach_token(key);
        proof {
            old(self).queue.entries().lemma_filter_len(super::queue::other_than(key_view(*key)));
        }
        self.queue.release(key, token);
        proof {
            assert forall|i: int| 0 <= i < self.queue.entries().len() implies self.transfers.entries().contains_key(
                #[trigger] self.queue.entries()[i],
            ) by {
                let e = self.queue.entries()[i];
                assert(self.queue.entries().contains(e));
                old(self).queue.entries().lemma_filter_contains_rev(
                    super::queue::other_than(key_view(*key)),
                    e,
                );
                let j = choose|j: int| 0 <= j < old(self).queue.entries().len() && old(self).queue.entries()[j] == e;
                assert(old(self).transfers.entries().contains_key(old(self).queue.entries()[j]));
            }
        }
    }

    /// Fails an upload that is not over: it stops being served, loses its
    /// connection, and is reported.
    fn fail(&mut self, key: &TransferKey, reason: String) -> (work: Vec<TransferWork>)
        requires
            old(self).wf(),
            old(self).used() + 1 <= u64::MAX,
        ensures
            final(self).wf(),
            final(self).used() <= old(self).used() + 1,
            final(self).slots() == old(self).slots(),
            final(self).file_limit() == old(self).file_limit(),
            final(self).last_token() == old(self).last_token(),
            final(self).speed() == old(self).speed(),
            final(self).ids() == old(self).ids(),
            match old(self).transfers().get(key_view(*key)) {
                Some(e) if !settled(e.3.phase) => {
                    &&& final(self).transfers() == old(self).transfers().insert(
                        key_view(*key),
                        (e.0, None, None, UploadTransfer { phase: TransferPhase::Failed(reason), ..e.3 }),
                    )
                    &&& final(self).queued() == super::queue::without(old(self).queued(), key_view(*key))
                    &&& work@.len() == 1
                    &&& work@[0] matches TransferWork::Update(snap) && snap.status
                        == TransferStatus::Failed && snap.id == e.0 && (snap.failure_reason
                        matches Some(r) && r@ == reason@)
                },
                _ => {
                    &&& work@.len() == 0
                    &&& final(self).transfers() == old(self).transfers()
                    &&& final(self).queued() == old(self).queued()
                    &&& final(self).conns() == old(self).conns()
                },
            },
    {
        let ongoing = match self.transfers.get(key) {
            None => false,
            Some(t) => match t.phase {
                TransferPhase::Finished | TransferPhase::Aborted | TransferPhase::Failed(_) => false,
                _ => true,
            },
        };
        if !ongoing {
            return Vec::new();
        }
        self.deactivate(key);
        self.transfers.detach_conn(key);
        match self.transfers.get_mut(key) {
            Some(t) => {
                t.phase = TransferPhase::Failed(reason);
                let snap = t.snapshot();
                proof {
                    assert(self.transfers.entries() =~= old(self).transfers.entries().insert(
                        key_view(*key),
                        (
                            old(self).transfers.entries()[key_view(*key)].0,
                            None,
                            None,
                            UploadTransfer {
                                phase: TransferPhase::Failed(reason),
                                ..old(self).transfers.entries()[key_view(*key)].3
                            },
                        ),
                    ));
                }
                vec![TransferWork::Update(snap)]
            },
            None => Vec::new(),
        }
    }
}

impl Uploads {
    /// Ends an upload: it stops being served and loses its connection; it
    /// is finished with all its bytes.  With `send_speed`, an upload that
    /// ran for a second or more reports its average speed to the server.
    fn finish(&mut self, key: &TransferKey, send_speed: bool, now_ns: u64, net: &mut Vec<NetAction>) -> (work:
        Vec<TransferWork>)
        requires
            old(self).wf(),
            old(self).used() + 1 <= u64::MAX,
            old(self).transfers().contains_key(key_view(*key)),
        ensures
            final(self).wf(),
            final(self).used() <= old(self).used() + 1,
            final(self).slots() == old(self).slots(),
            final(self).file_limit() == old(self).file_limit(),
            final(self).last_token() == old(self).last_token(),
            final(self).ids() == old(self).ids(),
            final(self).queued() == super::queue::without(old(self).queued(), key_view(*key)),
            ({
                let e = old(self).transfers()[key_view(*key)];
                let avg = if send_speed {
                    average_speed(e.3, now_ns)
                } else {
                    None
                };
                &&& final(self).transfers().contains_key(key_view(*key))
                &&& final(self).transfers()[key_view(*key)].0 == e.0
                &&& final(self).transfers()[key_view(*key)].1 is None
                &&& final(self).transfers()[key_view(*key)].2 is None
                &&& final(self).transfers()[key_view(*key)].3.phase == TransferPhase::Finished
                &&& final(self).transfers()[key_view(*key)].3.bytes_done == e.3.size
                &&& forall|k: KeyView| k != key_view(*key) ==> final(self).transfers().get(k) == old(self).transfers().get(k)
                &&& work@.len() == 1
                &&& work@[0] matches TransferWork::Finished { snapshot, avg_speed_bps } && snapshot.status
                    == TransferStatus::Finished && snapshot.id == e.0 && avg_speed_bps == avg
                &&& match avg {
                    Some(speed) => final(self).speed() == speed && final(net)@ == old(net)@.push(
                        NetAction::Server(ServerRequest::SendUploadSpeed { speed }),
                    ),
                    None => final(self).speed() == old(self).speed() && final(net)@ == old(net)@,
                }
            }),
    {
        self.deactivate(key);
        self.transfers.detach_conn(key);
        let ghost mid = self.transfers.entries();
        let mut avg_speed_bps: Option<u32> = None;
        let snapshot = match self.transfers.get_mut(key) {
            Some(t) => {
                t.phase = TransferPhase::Finished;
                t.bytes_done = t.size;
                if send_speed {
                    match t.started_at {
                        Some(at) => {
                            let sent = if t.size >= t.started_offset {
                                t.size - t.started_offset
                            } else {
                                0
                            };
                            if now_ns >= at && now_ns - at >= crate::client::speed::SAMPLE_WINDOW_NS
                                && sent > 0 {
                                let delta = sent as u128;
                                let elapsed = (now_ns - at) as u128;
                                assert(delta * 1_000_000_000 <= u128::MAX) by (nonlinear_arith)
                                    requires
                                        delta <= u64::MAX,
                                ;
                                let r = delta * 1_000_000_000 / elapsed;
                                let speed: u32 = if r > 0xffff_ffff {
                                    0xffff_ffff
                                } else {
                                    r as u32
                                };
                                avg_speed_bps = Some(speed);
                            }
                        },
                        None => {},
                    }
                }
                t.snapshot()
            },
            None => {
                proof {
                    assert(false);
                }
                return Vec::new();
            },
        };
        if let Some(speed) = avg_speed_bps {
            self.upload_speed = speed;
            net.push(NetAction::Server(ServerRequest::SendUploadSpeed { speed }));
        }
        proof {
            let e = old(self).transfers()[key_view(*key)];
            if send_speed {
                if e.3.started_at is Some && e.3.size < e.3.started_offset {
                    assert(average_speed(e.3, now_ns) is None);
                }
            }
        }
        vec![TransferWork::Finished { snapshot, avg_speed_bps }]
    }

    /// Grants the next slot to an upload: it leaves the queue, gets a new
    /// token, and the peer is asked to take the file.
    fn activate(&mut self, key: &TransferKey, now_ns: u64, net: &mut Vec<NetAction>)
        requires
            old(self).wf(),
            old(self).used() + 1 <= u64::MAX,
            old(self).transfers().contains_key(key_view(*key)),
        ensures
            final(self).wf(),
            final(self).used() <= old(self).used() + 1,
            final(self).slots() == old(self).slots(),
            final(self).file_limit() == old(self).file_limit(),
            final(self).speed() == old(self).speed(),
            final(self).ids() == old(self).ids(),
            final(self).conns() == old(self).conns(),
            final(self).last_token() == increment_spec(old(self).last_token()),
            final(self).turns() <= old(self).turns() + 1,
            final(self).queued() == super::queue::without(old(self).queued(), key_view(*key)),
            final(self).serving(key.0@) == Some(final(self).last_token()),
            ({
                let e = old(self).transfers()[key_view(*key)];
                let token = final(self).last_token();
                &&& final(self).transfers() == old(self).transfers().insert(
                    key_view(*key),
                    (
                        e.0,
                        Some(token),
                        e.2,
                        UploadTransfer {
                            phase: TransferPhase::GettingStatus,
                            activated_at: Some(now_ns),
                            ..e.3
                        },
                    ),
                )
                &&& final(self).tokens() == (match e.1 {
                    Some(p) => old(self).tokens().remove((key.0@, p)),
                    None => old(self).tokens(),
                }).insert((key.0@, token), key_view(*key))
                &&& final(net)@ == old(net)@.push(
                    NetAction::Peer {
                        username: final(net)@.last()->Peer_username,
                        message: PeerMessage::TransferRequest {
                            direction: TransferDirection::Upload,
                            token,
                            file: final(net)@.last()->Peer_message->TransferRequest_file,
                            filesize: Some(e.3.size),
                        },
                    },
                )
                &&& final(net)@.last()->Peer_username@ == key.0@
                &&& final(net)@.last()->Peer_message->TransferRequest_file@ == key.1@
            }),
    {
        let token = increment_token(self.token);
        self.token = token;
        let ghost before_queue = self.queue.entries();
        self.queue.mark_active(key, token);
        proof {
            before_queue.lemma_filter_len(super::queue::other_than(key_view(*key)));
            assert forall|i: int| 0 <= i < self.queue.entries().len() implies self.transfers.entries().contains_key(
                #[trigger] self.queue.entries()[i],
            ) by {
                let e = self.queue.entries()[i];
                assert(self.queue.entries().contains(e));
                before_queue.lemma_filter_contains_rev(super::queue::other_than(key_view(*key)), e);
                let j = choose|j: int| 0 <= j < before_queue.len() && before_queue[j] == e;
                assert(self.transfers.entries().contains_key(before_queue[j]));
            }
        }
        let (username, virtual_path, size) = match self.transfers.get_mut(key) {
            Some(t) => {
                t.phase = TransferPhase::GettingStatus;
                t.activated_at = Some(now_ns);
                (t.username.clone(), t.virtual_path.clone(), t.size)
            },
            None => {
                proof {
                    assert(false);
                }
                return;
            },
        };
        self.transfers.attach_token(key, token);
        net.push(
            NetAction::Peer {
                username,
                message: PeerMessage::TransferRequest {
                    direction: TransferDirection::Upload,
                    token,
                    file: virtual_path,
                    filesize: Some(size),
                },
            },
        );
        proof {
            let e = old(self).transfers()[key_view(*key)];
            assert(self.transfers.entries() =~= old(self).transfers().insert(
                key_view(*key),
                (
                    e.0,
                    Some(token),
                    e.2,
                    UploadTransfer {
                        phase: TransferPhase::GettingStatus,
                        activated_at: Some(now_ns),
                        ..e.3
                    },
                ),
            ));
        }
    }
}

/// The token after `token`, as `increment_token` gives it.
pub open spec fn increment_spec(token: u32) -> u32 {
    if token == u32::MAX {
        1
    } else {
        (token + 1) as u32
    }
}

impl Uploads {
    /// A user whose upload may be served next.
    pub closed spec fn may_serve(&self, users: &Users, name: Seq<char>) -> bool {
        self.queue.eligible(users, name)
    }

    /// Grants free slots to waiting uploads, in the queue's order of turns,
    /// until the slots are taken or no user may be served.
    pub fn check_queue(&mut self, users: &Users, now_ns: u64, net: &mut Vec<NetAction>)
        requires
            old(self).wf(),
            users.wf(),
            old(self).used() + 1 <= u64::MAX,
        ensures
            final(self).wf(),
            final(self).used() <= old(self).used(),
            final(self).slots() == old(self).slots(),
            final(self).file_limit() == old(self).file_limit(),
            final(self).speed() == old(self).speed(),
            final(self).ids() == old(self).ids(),
            final(self).conns() == old(self).conns(),
            final(self).tokens().dom().len() >= final(self).slots() || !exists|n: Seq<char>|
                #[trigger] final(self).may_serve(users, n),
            final(self).transfers().dom() == old(self).transfers().dom(),
            forall|k: KeyView| #[trigger]
                old(self).transfers().contains_key(k) ==> final(self).transfers()[k] == old(self).transfers()[k] || (final(self).transfers()[k].3.phase == TransferPhase::GettingStatus
                    && final(self).transfers()[k].1 is Some && old(self).queued().contains(k)),
            forall|i: int|
                0 <= i < final(self).queued().len() ==> old(self).queued().contains(
                    #[trigger] final(self).queued()[i],
                ),
            forall|k: KeyView| #[trigger]
                old(self).transfers().contains_key(k) && final(self).transfers()[k] != old(self).transfers()[k]
                    ==> !(users.restriction_of(k.0) matches Some(Restriction::Hold)),
            final(net)@.len() >= old(net)@.len(),
            final(net)@.take(old(net)@.len() as int) == old(net)@,
    {
        let ghost start = self.transfers();
        let ghost start_queue = self.queued();
        loop
            invariant
                self.wf(),
                users.wf(),
                self.used() <= old(self).used(),
                old(self).used() + 1 <= u64::MAX,
                self.slots() == old(self).slots(),
                self.file_limit() == old(self).file_limit(),
                self.speed() == old(self).speed(),
                self.ids() == old(self).ids(),
                self.conns() == old(self).conns(),
                start == old(self).transfers(),
                start_queue == old(self).queued(),
                self.transfers().dom() == start.dom(),
                forall|k: KeyView| #[trigger]
                    start.contains_key(k) ==> self.transfers()[k] == start[k] || (
                    self.transfers()[k].3.phase == TransferPhase::GettingStatus
                        && self.transfers()[k].1 is Some && start_queue.contains(k)),
                forall|i: int|
                    0 <= i < self.queued().len() ==> start_queue.contains(#[trigger] self.queued()[i]),
                forall|k: KeyView| #[trigger]
                    start.contains_key(k) && self.transfers()[k] != start[k]
                        ==> !(users.restriction_of(k.0) matches Some(Restriction::Hold)),
                net@.len() >= old(net)@.len(),
                net@.take(old(net)@.len() as int) == old(net)@,
            ensures
                self.tokens().dom().len() >= self.slots() || !exists|n: Seq<char>|
                    #[trigger] self.may_serve(users, n),
            decreases self.queue.entries().len(),
        {
            if !self.is_new_upload_accepted() {
                break;
            }
            match self.queue.select_next(users) {
                None => {
                    break;
                },
                Some(key) => {
                    let ghost before = *self;
                    let ghost net_before = net@;
                    let ghost idx = choose|i: int|
                        0 <= i < self.queue.entries().len() && self.queue.entries()[i] == key_view(key)
                            && forall|j: int| 0 <= j < i ==> (#[trigger] self.queue.entries()[j]).0 != key.0@;
                    proof {
                        lemma_without_shorter(self.queue.entries(), key_view(key), idx);
                        assert(self.transfers.entries().contains_key(self.queue.entries()[idx]));
                        assert(start_queue.contains(self.queued()[idx]));
                    }
                    self.activate(&key, now_ns, net);
                    proof {
                        assert(net@.take(old(net)@.len() as int) =~= net_before.take(old(net)@.len() as int));
                        assert forall|k: KeyView| #[trigger]
                            start.contains_key(k) implies self.transfers()[k] == start[k] || (
                            self.transfers()[k].3.phase == TransferPhase::GettingStatus
                                && self.transfers()[k].1 is Some && start_queue.contains(k)) by {
                            if k != key_view(key) {
                                assert(self.transfers()[k] == before.transfers()[k]);
                            }
                        }
                        assert forall|k: KeyView| #[trigger]
                            start.contains_key(k) && self.transfers()[k] != start[k]
                                implies !(users.restriction_of(k.0) matches Some(Restriction::Hold)) by {
                            if k != key_view(key) {
                                assert(self.transfers()[k] == before.transfers()[k]);
                            } else {
                                assert(before.queue.eligible(users, key.0@));
                            }
                        }
                        assert forall|i: int|
                            0 <= i < self.queued().len() implies start_queue.contains(
                            #[trigger] self.queued()[i],
                        ) by {
                            let e = self.queued()[i];
                            assert(self.queued().contains(e));
                            before.queued().lemma_filter_contains_rev(
                                super::queue::other_than(key_view(key)),
                                e,
                            );
                            let j = choose|j: int| 0 <= j < before.queued().len() && before.queued()[j] == e;
                            assert(start_queue.contains(before.queued()[j]));
                        }
                    }
                },
            }
        }
    }
}

/// An upload just queued.
pub open spec fn queued_upload(
    t: UploadTransfer,
    id: TransferId,
    key: KeyView,
    real_path: Seq<char>,
    size: u64,
    attributes: FileAttributes,
) -> bool {
    &&& t.id == id
    &&& t.username@ == key.0
    &&& t.virtual_path@ == key.1
    &&& t.real_path matches Some(p) && p@ == real_path
    &&& t.size == size
    &&& t.attributes == attributes
    &&& t.phase == TransferPhase::Queued
    &&& t.bytes_done == 0
    &&& t.speed_bps == 0
    &&& t.started_offset == 0
    &&& t.activated_at is None
    &&& t.started_at is None
    &&& t.speed.last() is None
    &&& t.speed.rate() == 0
}

impl Uploads {
    /// Queues an upload: one under way is left alone; otherwise a new
    /// upload (keeping the id of an earlier one under the same key) waits
    /// at the end of the queue.
    fn enqueue(
        &mut self,
        ids: &mut TransferIds,
        username: &str,
        virtual_path: &str,
        resolved: Resolved,
    ) -> (work: Vec<TransferWork>)
        requires
            old(self).wf(),
            old(ids)@ < u64::MAX,
            old(self).used() + 2 <= u64::MAX,
        ensures
            final(self).wf(),
            final(self).used() <= old(self).used() + 2,
            final(self).slots() == old(self).slots(),
            final(self).file_limit() == old(self).file_limit(),
            final(self).last_token() == old(self).last_token(),
            final(self).speed() == old(self).speed(),
            final(self).transfers().dom() == old(self).transfers().dom().insert((username@, virtual_path@)),
            ({
                let k = (username@, virtual_path@);
                match old(self).transfers().get(k) {
                    Some(e) if e.3.phase.spec_is_active() => {
                        &&& work@.len() == 0
                        &&& final(self).transfers() == old(self).transfers()
                        &&& final(self).queued() == old(self).queued()
                        &&& final(ids)@ == old(ids)@
                    },
                    _ => {
                        let id = match old(self).transfers().get(k) {
                            Some(e) => e.0,
                            None => TransferId(old(ids)@ as u64),
                        };
                        &&& work@.len() == 1
                        &&& work@[0] matches TransferWork::Update(snap) && snap.id == id
                            && snap.status == TransferStatus::Queued
                        &&& final(self).transfers()[k].0 == id
                        &&& final(self).transfers()[k].1 is None
                        &&& final(self).transfers()[k].2 is None
                        &&& queued_upload(final(self).transfers()[k].3, id, k, resolved.0@, resolved.1, resolved.2)
                        &&& forall|k2: KeyView| k2 != k ==> final(self).transfers().get(k2) == old(self).transfers().get(k2)
                        &&& final(self).queued() == old(self).queued().push(k)
                        &&& final(ids)@ == if old(self).transfers().contains_key(k) {
                            old(ids)@
                        } else {
                            old(ids)@ + 1
                        }
                    },
                }
            }),
    {
        let key = (username.to_owned(), virtual_path.to_owned());
        let existing = match self.transfers.get(&key) {
            Some(t) => {
                if t.phase.is_active() {
                    proof {
                        assert(self.transfers().dom() =~= old(self).transfers().dom().insert(
                            (username@, virtual_path@),
                        ));
                    }
                    return Vec::new();
                }
                Some(t.id)
            },
            None => None,
        };
        let id = match existing {
            Some(id) => id,
            None => ids.mint(),
        };
        let (real_path, size, attributes) = resolved;
        let transfer = UploadTransfer {
            id,
            username: username.to_owned(),
            virtual_path: virtual_path.to_owned(),
            real_path: Some(real_path),
            size,
            attributes,
            phase: TransferPhase::Queued,
            bytes_done: 0,
            speed_bps: 0,
            started_offset: 0,
            activated_at: None,
            started_at: None,
            speed: SpeedMeter::new(),
        };
        let queued = TransferWork::Update(transfer.snapshot());
        let key_copy = (key.0.clone(), key.1.clone());
        self.transfers.insert(id, key_copy, transfer);
        let ghost before_queue = self.queue.entries();
        self.queue.push(key);
        proof {
            assert forall|i: int| 0 <= i < self.queue.entries().len() implies self.transfers.entries().contains_key(
                #[trigger] self.queue.entries()[i],
            ) by {
                if i < before_queue.len() {
                    assert(self.queue.entries()[i] == before_queue[i]);
                }
            }
            assert(self.transfers().dom() =~= old(self).transfers().dom().insert(
                (username@, virtual_path@),
            ));
        }
        vec![queued]
    }

    /// What `handle_queue_upload` does, as its contract states it.
    pub open spec fn queue_upload_effect(before: Uploads, after: Uploads, username: Seq<char>, virtual_path: Seq<char>, shares: Option<&SharesIndex>, users: &Users, net0: Seq<NetAction>, net1: Seq<NetAction>, work: Seq<TransferWork>, accepted: bool) -> bool {
        &&& (({
                let k = (username, virtual_path);
                match refusal(users, shares, before.queued(), before.file_limit(), username, virtual_path) {
                    Some(reason) => {
                        &&& !accepted
                        &&& work.len() == 0
                        &&& after.transfers() =~= before.transfers()
                        &&& after.queued() =~= before.queued()
                        &&& net1 =~= net0.push(net1.last())
                        &&& net1.last() matches NetAction::Peer {
                            username: u,
                            message: PeerMessage::UploadDenied { file, reason: r },
                        } && u@ == username && file@ == virtual_path && r@ == reason
                    },
                    None => {
                        &&& accepted
                        &&& after.transfers().contains_key(k)
                        &&& (before.transfers().contains_key(k) && before.transfers()[k].3.phase.spec_is_active())
                            ==> work.len() == 0
                        &&& !(before.transfers().contains_key(k) && before.transfers()[k].3.phase.spec_is_active())
                            ==> work.len() == 1 && (work[0] matches TransferWork::Update(snap)
                            && snap.status == TransferStatus::Queued)
                        &&& after.tokens().dom().len() >= after.slots() || !exists|n: Seq<char>|
                            #[trigger] after.may_serve(users, n)
                    },
                }
            }))
    }

    /// A peer asks to queue a file: it is queued and slots are granted,
    /// or the peer is told why not.  Also answers whether it was queued.
    pub fn handle_queue_upload(
        &mut self,
        ids: &mut TransferIds,
        username: &str,
        virtual_path: &str,
        shares: Option<&SharesIndex>,
        users: &Users,
        now_ns: u64,
        net: &mut Vec<NetAction>,
    ) -> (res: (Vec<TransferWork>, bool))
        requires
            old(self).wf(),
            old(self).room(),
            old(ids)@ < u64::MAX,
            users.wf(),
            shares matches Some(ix) ==> ix.wf(),
        ensures
            final(self).wf(),
            Self::queue_upload_effect(*old(self), *final(self), username@, virtual_path@, shares, users, old(net)@, final(net)@, res.0@, res.1),
    {
        match self.validate_request(username, virtual_path, shares, users) {
            Ok(resolved) => {
                proof {
                    assert(self.transfers().dom().len() + 8 <= u64::MAX);
                }
                let updates = self.enqueue(ids, username, virtual_path, resolved);
                self.check_queue(users, now_ns, net);
                (updates, true)
            },
            Err(reason) => {
                net.push(
                    NetAction::Peer {
                        username: username.to_owned(),
                        message: PeerMessage::UploadDenied { file: virtual_path.to_owned(), reason },
                    },
                );
                proof {
                    assert(net@.drop_last() =~= old(net)@);
                }
                (Vec::new(), false)
            },
        }
    }

    /// What `handle_legacy_transfer_request` does, as its contract states it.
    pub open spec fn legacy_request_effect(before: Uploads, after: Uploads, username: Seq<char>, token: u32, virtual_path: Seq<char>, shares: Option<&SharesIndex>, users: &Users, net0: Seq<NetAction>, net1: Seq<NetAction>, work: Seq<TransferWork>, accepted: bool) -> bool {
        &&& (net1.len() >= net0.len() + 1)
        &&& (({
                let k = (username, virtual_path);
                let answer = net1[net0.len() as int];
                &&& answer matches NetAction::Peer {
                    username: u,
                    message: PeerMessage::TransferResponse { token: t, allowed: false, reason: Some(r), filesize: None },
                } && u@ == username && t == token && r@ == match refusal(
                    users,
                    shares,
                    before.queued(),
                    before.file_limit(),
                    username,
                    virtual_path,
                ) {
                    Some(reason) => reason,
                    None => "Queued"@,
                }
                &&& match refusal(users, shares, before.queued(), before.file_limit(), username, virtual_path) {
                    Some(reason) => {
                        &&& !accepted
                        &&& work.len() == 0
                        &&& after.transfers() =~= before.transfers()
                        &&& net1.len() == net0.len() + 1
                    },
                    None => {
                        &&& accepted
                        &&& after.transfers().contains_key(k)
                    },
                }
            }))
    }

    /// A peer of an old client asks for a file directly: it is refused for
    /// now as queued and queued, or refused with the reason.
    pub fn handle_legacy_transfer_request(
        &mut self,
        ids: &mut TransferIds,
        username: &str,
        token: u32,
        virtual_path: &str,
        shares: Option<&SharesIndex>,
        users: &Users,
        now_ns: u64,
        net: &mut Vec<NetAction>,
    ) -> (res: (Vec<TransferWork>, bool))
        requires
            old(self).wf(),
            old(self).room(),
            old(ids)@ < u64::MAX,
            users.wf(),
            shares matches Some(ix) ==> ix.wf(),
        ensures
            final(self).wf(),
            Self::legacy_request_effect(*old(self), *final(self), username@, token, virtual_path@, shares, users, old(net)@, final(net)@, res.0@, res.1),
    {
        proof {
            reveal_strlit("Queued");
        }
        match self.validate_request(username, virtual_path, shares, users) {
            Ok(resolved) => {
                net.push(
                    NetAction::Peer {
                        username: username.to_owned(),
                        message: PeerMessage::TransferResponse {
                            token,
                            allowed: false,
                            reason: Some(TransferRejectReason::QUEUED.to_owned()),
                            filesize: None,
                        },
                    },
                );
                let ghost mid = net@;
                proof {
                    assert(self.transfers().dom().len() + 8 <= u64::MAX);
                }
                let updates = self.enqueue(ids, username, virtual_path, resolved);
                self.check_queue(users, now_ns, net);
                proof {
                    assert(net@[old(net)@.len() as int] == net@.take(mid.len() as int)[old(net)@.len() as int]);
                }
                (updates, true)
            },
            Err(reason) => {
                net.push(
                    NetAction::Peer {
                        username: username.to_owned(),
                        message: PeerMessage::TransferResponse {
                            token,
                            allowed: false,
                            reason: Some(reason),
                            filesize: None,
                        },
                    },
                );
                (Vec::new(), false)
            },
        }
    }
}

/// An upload about to be read from disk: its key and where the file is.
pub struct UploadStart {
    pub key: TransferKey,
    pub real_path: String,
}

impl Uploads {
    /// What `handle_transfer_response` does, as its contract states it.
    pub open spec fn transfer_response_effect(before: Uploads, after: Uploads, username: Seq<char>, token: u32, allowed: bool, reason: Option<Seq<char>>, net0: Seq<NetAction>, net1: Seq<NetAction>, work: Seq<TransferWork>) -> bool {
        &&& (match before.tokens().get((username, token)) {
                None => work.len() == 0 && after.transfers() =~= before.transfers()
                    && net1 =~= net0,
                Some(k) => match reason {
                    Some(r) => before.transfers().contains_key(k) ==> if r == "Complete"@ {
                        &&& after.transfers()[k].3.phase == TransferPhase::Finished
                        &&& work.len() == 1
                    } else if !settled(before.transfers()[k].3.phase) {
                        &&& after.transfers()[k].3.phase == TransferPhase::Failed(
                            after.transfers()[k].3.phase->Failed_0,
                        )
                        &&& after.transfers()[k].3.phase->Failed_0@ == r
                        &&& work.len() == 1
                    } else {
                        work.len() == 0
                    },
                    None => {
                        &&& work.len() == 0
                        &&& after.transfers() =~= before.transfers()
                        &&& allowed ==> net1 =~= net0.push(
                            NetAction::RequestFileConnection {
                                username: net1.last()->RequestFileConnection_username,
                                token,
                            },
                        ) && net1.last()->RequestFileConnection_username@ == username
                        &&& !allowed ==> net1 =~= net0
                    },
                },
            })
    }

    /// A peer answers our request to upload: "Complete" means it has the
    /// file, another reason ends the upload with that reason, and an
    /// acceptance asks the network for a file connection.
    pub fn handle_transfer_response(
        &mut self,
        username: &str,
        token: u32,
        allowed: bool,
        reason: Option<&str>,
        users: &Users,
        now_ns: u64,
        net: &mut Vec<NetAction>,
    ) -> (work: Vec<TransferWork>)
        requires
            old(self).wf(),
            old(self).room(),
            users.wf(),
        ensures
            final(self).wf(),
            Self::transfer_response_effect(*old(self), *final(self), username@, token, allowed, match reason { Some(r) => Some(r@), None => None }, old(net)@, final(net)@, work@),
    {
        proof {
            reveal_strlit("Complete");
        }
        let key = match self.transfers.key_by_token(username, token) {
            Some(k) => (k.0.clone(), k.1.clone()),
            None => {
                return Vec::new();
            },
        };
        match reason {
            Some(r) => {
                if self.transfers.get(&key).is_none() {
                    return Vec::new();
                }
                let updates = if crate::text::text_eq(r, TransferRejectReason::COMPLETE) {
                    self.finish(&key, false, now_ns, net)
                } else {
                    self.fail(&key, r.to_owned())
                };
                let ghost mid = *self;
                self.check_queue(users, now_ns, net);
                proof {
                    let k = key_view(key);
                    assert(mid.transfers().contains_key(k));
                    if self.transfers()[k] != mid.transfers()[k] {
                        assert(mid.queued().contains(k));
                        if mid.queued() == super::queue::without(old(self).queued(), k) {
                            old(self).queued().lemma_filter_contains_rev(super::queue::other_than(k), k);
                        }
                    }
                }
                updates
            },
            None => {
                if allowed {
                    net.push(NetAction::RequestFileConnection { username: username.to_owned(), token });
                }
                Vec::new()
            },
        }
    }
}

/// What an upload failing to open its file reports.
pub open spec fn open_failure(error: Seq<char>) -> Seq<char> {
    "local file error: "@ + error
}

impl Uploads {
    /// A file connection arrived for an upload's token.  A second
    /// connection for the same upload is closed; otherwise the connection
    /// is kept and the file is to be opened.  An upload without a file on
    /// disk fails.
    pub fn begin_upload(
        &mut self,
        username: &str,
        token: u32,
        conn_id: ConnId,
        users: &Users,
        now_ns: u64,
        net: &mut Vec<NetAction>,
    ) -> (start: Option<UploadStart>)
        requires
            old(self).wf(),
            old(self).room(),
            users.wf(),
        ensures
            final(self).wf(),
            match old(self).tokens().get((username@, token)) {
                None => start is None && final(self).transfers() == old(self).transfers()
                    && final(net)@ == old(net)@,
                Some(k) => if !old(self).transfers().contains_key(k) {
                    start is None && final(self).transfers() == old(self).transfers()
                        && final(net)@ == old(net)@
                } else if old(self).transfers()[k].2 is Some {
                    &&& start is None
                    &&& final(self).transfers() == old(self).transfers()
                    &&& final(net)@ == old(net)@.push(NetAction::CloseConnection(conn_id))
                } else if old(self).transfers()[k].3.real_path is Some {
                    let e = old(self).transfers()[k];
                    &&& start matches Some(st) && key_view(st.key) == k && st.real_path@
                        == e.3.real_path->0@
                    &&& final(self).transfers() == old(self).transfers().insert(
                        k,
                        (e.0, e.1, Some(conn_id), UploadTransfer { activated_at: None, ..e.3 }),
                    )
                    &&& final(net)@ == old(net)@
                } else {
                    &&& start is None
                    &&& final(self).transfers().contains_key(k)
                    &&& !settled(old(self).transfers()[k].3.phase) ==> final(self).transfers()[k].3.phase is Failed
                },
            },
    {
        let key = match self.transfers.key_by_token(username, token) {
            Some(k) => (k.0.clone(), k.1.clone()),
            None => {
                return None;
            },
        };
        if self.transfers.get(&key).is_none() {
            return None;
        }
        if self.transfers.conn_of(&key).is_some() {
            net.push(NetAction::CloseConnection(conn_id));
            return None;
        }
        self.transfers.attach_conn(&key, conn_id);
        let path = match self.transfers.get_mut(&key) {
            Some(t) => {
                t.activated_at = None;
                match &t.real_path {
                    Some(p) => Some(p.clone()),
                    None => None,
                }
            },
            None => {
                return None;
            },
        };
        match path {
            Some(real_path) => {
                proof {
                    let k = key_view(key);
                    let e = old(self).transfers()[k];
                    assert(self.transfers() =~= old(self).transfers().insert(
                        k,
                        (e.0, e.1, Some(conn_id), UploadTransfer { activated_at: None, ..e.3 }),
                    ));
                }
                Some(UploadStart { key, real_path })
            },
            None => {
                let _ = self.fail(&key, "local file error: no file on disk".to_owned());
                None
            },
        }
    }

    /// The file of an upload was opened, or could not be: an opened file
    /// is sent over the connection; otherwise the connection is closed,
    /// the peer told, and the upload fails.
    pub fn upload_opened(
        &mut self,
        key: &TransferKey,
        conn_id: ConnId,
        opened: Result<(), String>,
        users: &Users,
        now_ns: u64,
        net: &mut Vec<NetAction>,
    ) -> (work: Vec<TransferWork>)
        requires
            old(self).wf(),
            old(self).room(),
            users.wf(),
        ensures
            final(self).wf(),
            !old(self).transfers().contains_key(key_view(*key)) ==> work@.len() == 0
                && final(self).transfers() == old(self).transfers() && final(net)@ == old(net)@,
            old(self).transfers().contains_key(key_view(*key)) ==> match opened {
                Ok(_) => {
                    let e = old(self).transfers()[key_view(*key)];
                    &&& final(self).transfers()[key_view(*key)].3.phase == TransferPhase::Transferring
                    &&& final(self).transfers()[key_view(*key)].3.started_at == Some(now_ns)
                    &&& final(self).transfers()[key_view(*key)].3.speed_bps == 0
                    &&& final(self).transfers()[key_view(*key)].1 == e.1
                    &&& final(self).transfers()[key_view(*key)].2 == e.2
                    &&& forall|k: KeyView| k != key_view(*key) ==> final(self).transfers().get(k)
                        == old(self).transfers().get(k)
                    &&& final(net)@ == old(net)@.push(NetAction::UploadFile { conn_id, size: e.3.size })
                    &&& work@.len() == 1
                    &&& work@[0] matches TransferWork::Update(snap) && snap.status
                        == TransferStatus::Transferring
                },
                Err(error) => {
                    &&& final(net)@.len() >= old(net)@.len() + 2
                    &&& final(net)@[old(net)@.len() as int] == NetAction::CloseConnection(conn_id)
                    &&& final(net)@[old(net)@.len() + 1int] matches NetAction::Peer {
                        username: u,
                        message: PeerMessage::UploadFailed { file },
                    } && u@ == key.0@ && file@ == key.1@
                    &&& !settled(old(self).transfers()[key_view(*key)].3.phase) ==> final(self).transfers()[key_view(*key)].3.phase == TransferPhase::Failed(
                        final(self).transfers()[key_view(*key)].3.phase->Failed_0,
                    ) && final(self).transfers()[key_view(*key)].3.phase->Failed_0@ == open_failure(
                        error@,
                    )
                },
            },
    {
        proof {
            reveal_strlit("local file error: ");
        }
        match opened {
            Ok(()) => {
                let size = match self.transfers.get_mut(key) {
                    Some(t) => {
                        t.phase = TransferPhase::Transferring;
                        t.started_at = Some(now_ns);
                        t.speed_bps = 0;
                        t.speed.reset();
                        t.size
                    },
                    None => {
                        return Vec::new();
                    },
                };
                let snap = match self.transfers.get(key) {
                    Some(t) => t.snapshot(),
                    None => {
                        proof {
                            assert(false);
                        }
                        return Vec::new();
                    },
                };
                net.push(NetAction::UploadFile { conn_id, size });
                vec![TransferWork::Update(snap)]
            },
            Err(error) => {
                if self.transfers.get(key).is_none() {
                    return Vec::new();
                }
                net.push(NetAction::CloseConnection(conn_id));
                net.push(
                    NetAction::Peer {
                        username: key.0.clone(),
                        message: PeerMessage::UploadFailed { file: key.1.clone() },
                    },
                );
                let ghost mid = net@;
                let reason = crate::text::concat_text("local file error: ", error.as_str());
                let updates = self.fail(key, reason);
                let ghost after_fail = *self;
                self.check_queue(users, now_ns, net);
                proof {
                    assert(net@[old(net)@.len() as int] == net@.take(mid.len() as int)[old(net)@.len() as int]);
                    assert(net@[old(net)@.len() + 1int] == net@.take(mid.len() as int)[old(net)@.len() + 1int]);
                    let k = key_view(*key);
                    if !settled(old(self).transfers()[k].3.phase) {
                        assert(after_fail.transfers().contains_key(k));
                        if self.transfers()[k] != after_fail.transfers()[k] {
                            assert(after_fail.queued().contains(k));
                            old(self).queued().lemma_filter_contains_rev(super::queue::other_than(k), k);
                        }
                    }
                }
                updates
            },
        }
    }

    /// An upload's progress: the offset it started from and the bytes sent
    /// since.
    pub fn handle_upload_progress(
        &mut self,
        username: &str,
        token: u32,
        offset: u64,
        bytes_sent: u64,
        now_ns: u64,
    ) -> (work: Vec<TransferWork>)
        requires
            old(self).wf(),
        ensures
            final(self).wf(),
            final(self).queued() == old(self).queued(),
            final(self).used() == old(self).used(),
            match old(self).tokens().get((username@, token)) {
                Some(k) if old(self).transfers().contains_key(k) => {
                    let e = old(self).transfers()[k];
                    let done = if offset + bytes_sent > u64::MAX {
                        u64::MAX
                    } else {
                        (offset + bytes_sent) as u64
                    };
                    &&& final(self).transfers().contains_key(k)
                    &&& final(self).transfers()[k].3.started_offset == offset
                    &&& final(self).transfers()[k].3.bytes_done == done
                    &&& final(self).transfers()[k].3.speed_bps == final(self).transfers()[k].3.speed.rate()
                    &&& forall|k2: KeyView| k2 != k ==> final(self).transfers().get(k2) == old(self).transfers().get(k2)
                    &&& work@.len() == 1
                    &&& work@[0] matches TransferWork::Progress(snap) && snap.bytes_done == done
                },
                _ => work@.len() == 0 && final(self).transfers() == old(self).transfers(),
            },
    {
        let key = match self.transfers.key_by_token(username, token) {
            Some(k) => (k.0.clone(), k.1.clone()),
            None => {
                return Vec::new();
            },
        };
        match self.transfers.get_mut(&key) {
            Some(t) => {
                t.started_offset = offset;
                t.bytes_done = offset.saturating_add(bytes_sent);
                let done = t.bytes_done;
                t.speed_bps = t.speed.sample(now_ns, done);
                vec![TransferWork::Progress(t.snapshot())]
            },
            None => Vec::new(),
        }
    }

    /// An upload's transfer broke: its connection is closed, the peer told,
    /// and the upload fails with the error.
    pub fn handle_transfer_error(
        &mut self,
        username: &str,
        token: u32,
        error: &str,
        users: &Users,
        now_ns: u64,
        net: &mut Vec<NetAction>,
    ) -> (work: Vec<TransferWork>)
        requires
            old(self).wf(),
            old(self).room(),
            users.wf(),
        ensures
            final(self).wf(),
            match old(self).tokens().get((username@, token)) {
                Some(k) if old(self).transfers().contains_key(k) => {
                    let e = old(self).transfers()[k];
                    &&& e.2 is Some ==> final(net)@.len() > old(net)@.len() && final(net)@[old(net)@.len() as int] == NetAction::CloseConnection(e.2->0)
                    &&& !settled(e.3.phase) ==> final(self).transfers()[k].3.phase
                        == TransferPhase::Failed(final(self).transfers()[k].3.phase->Failed_0)
                        && final(self).transfers()[k].3.phase->Failed_0@ == error@
                },
                _ => work@.len() == 0 && final(self).transfers() == old(self).transfers()
                    && final(net)@ == old(net)@,
            },
    {
        let key = match self.transfers.key_by_token(username, token) {
            Some(k) => (k.0.clone(), k.1.clone()),
            None => {
                return Vec::new();
            },
        };
        if self.transfers.get(&key).is_none() {
            return Vec::new();
        }
        if let Some(conn_id) = self.transfers.conn_of(&key) {
            net.push(NetAction::CloseConnection(conn_id));
        }
        let ghost first = net@;
        net.push(
            NetAction::Peer {
                username: username.to_owned(),
                message: PeerMessage::UploadFailed { file: key.1.clone() },
            },
        );
        let ghost mid = net@;
        let updates = self.fail(&key, error.to_owned());
        let ghost after_fail = *self;
        self.check_queue(users, now_ns, net);
        proof {
            let k = key_view(key);
            if first.len() > old(net)@.len() {
                assert(net@[old(net)@.len() as int] == net@.take(mid.len() as int)[old(net)@.len() as int]);
            }
            if !settled(old(self).transfers()[k].3.phase) {
                assert(after_fail.transfers().contains_key(k));
                if self.transfers()[k] != after_fail.transfers()[k] {
                    assert(after_fail.queued().contains(k));
                    old(self).queued().lemma_filter_contains_rev(super::queue::other_than(k), k);
                }
            }
        }
        updates
    }
}

impl Uploads {
    /// The upload a closed file connection belonged to: by connection, or
    /// else by the token it was opened for.
    pub open spec fn closed_key(&self, username: Seq<char>, token: Option<u32>, conn_id: ConnId) -> Option<
        KeyView,
    > {
        match self.conns().get(conn_id) {
            Some(k) => Some(k),
            None => match token {
                Some(t) => self.tokens().get((username, t)),
                None => None,
            },
        }
    }

    /// A file connection closed.  An upload that sent every byte finishes,
    /// reporting its speed; one still sending fails; any other stops being
    /// served.
    pub fn handle_file_connection_closed(
        &mut self,
        username: &str,
        token: Option<u32>,
        conn_id: ConnId,
        users: &Users,
        now_ns: u64,
        net: &mut Vec<NetAction>,
    ) -> (work: Vec<TransferWork>)
        requires
            old(self).wf(),
            old(self).room(),
            users.wf(),
        ensures
            final(self).wf(),
            match old(self).closed_key(username@, token, conn_id) {
                Some(k) if old(self).transfers().contains_key(k) => {
                    let e = old(self).transfers()[k];
                    &&& final(self).transfers().contains_key(k)
                    &&& final(self).transfers()[k].2 is None
                    &&& (e.3.phase is Transferring && e.3.bytes_done >= e.3.size) ==> final(self).transfers()[k].3.phase == TransferPhase::Finished
                    &&& (e.3.phase is Transferring && e.3.bytes_done < e.3.size) ==> final(self).transfers()[k].3.phase == TransferPhase::Failed(
                        final(self).transfers()[k].3.phase->Failed_0,
                    ) && final(self).transfers()[k].3.phase->Failed_0@ == "connection closed"@
                    &&& !(e.3.phase is Transferring) ==> work@.len() == 0
                },
                _ => work@.len() == 0 && final(self).transfers() == old(self).transfers()
                    && final(net)@ == old(net)@,
            },
    {
        proof {
            reveal_strlit("connection closed");
        }
        let found = match self.transfers.key_by_conn(conn_id) {
            Some(k) => Some((k.0.clone(), k.1.clone())),
            None => match token {
                Some(t) => match self.transfers.key_by_token(username, t) {
                    Some(k) => Some((k.0.clone(), k.1.clone())),
                    None => None,
                },
                None => None,
            },
        };
        let key = match found {
            Some(k) => k,
            None => {
                return Vec::new();
            },
        };
        let ghost k = key_view(key);
        if self.transfers.get(&key).is_none() {
            return Vec::new();
        }
        self.transfers.detach_conn(&key);
        let (transferring, complete) = match self.transfers.get(&key) {
            Some(t) => match t.phase {
                TransferPhase::Transferring => (true, t.bytes_done >= t.size),
                _ => (false, false),
            },
            None => {
                proof {
                    assert(false);
                }
                return Vec::new();
            },
        };
        let ghost before = *self;
        proof {
            assert(before.transfers().dom().len() == old(self).transfers().dom().len()) by {
                assert(before.transfers().dom() =~= old(self).transfers().dom());
            }
        }
        let updates = if transferring && complete {
            self.finish(&key, true, now_ns, net)
        } else if transferring {
            self.fail(&key, "connection closed".to_owned())
        } else {
            self.deactivate(&key);
            Vec::new()
        };
        let ghost after = *self;
        self.check_queue(users, now_ns, net);
        proof {
            assert(after.transfers().contains_key(k));
            if transferring && self.transfers()[k] != after.transfers()[k] {
                assert(after.queued().contains(k));
                before.queued().lemma_filter_contains_rev(super::queue::other_than(k), k);
            }
            if !transferring && self.transfers()[k] != after.transfers()[k] {
                assert(after.queued().contains(k));
                before.queued().lemma_filter_contains_rev(super::queue::other_than(k), k);
            }
        }
        updates
    }

    /// What `abort` does, as its contract states it.
    pub open spec fn abort_effect(before: Uploads, after: Uploads, id: TransferId, net0: Seq<NetAction>, net1: Seq<NetAction>, result: AbortResult, work: Seq<TransferWork>) -> bool {
        &&& (match before.ids().get(id) {
                Some(k) if before.transfers().contains_key(k) => {
                    let e = before.transfers()[k];
                    &&& result == AbortResult::Aborted
                    &&& !e.3.phase.spec_is_active() ==> work.len() == 0 && after.transfers()
                        == before.transfers() && net1 =~= net0
                    &&& e.3.phase.spec_is_active() ==> {
                        &&& after.transfers().contains_key(k)
                        &&& after.transfers()[k].3.phase == TransferPhase::Aborted
                        &&& after.transfers()[k].1 is None
                        &&& after.transfers()[k].2 is None
                        &&& work.len() == 1
                        &&& work[0] matches TransferWork::Update(snap) && snap.status
                            == TransferStatus::Aborted
                        &&& exists|i: int|
                            net0.len() <= i < net1.len() && (#[trigger] net1[i] matches NetAction::Peer {
                                username: u,
                                message: PeerMessage::UploadDenied { file, reason },
                            } && u@ == k.0 && file@ == k.1 && reason@ == "Cancelled"@)
                    }
                },
                _ => result == AbortResult::NotFound && work.len() == 0 && after.transfers()
                    == before.transfers() && net1 =~= net0,
            })
    }

    /// Aborts an upload: one under way stops being served, loses its
    /// connection and is aborted, and the peer is told it was cancelled.
    pub fn abort(&mut self, id: TransferId, users: &Users, now_ns: u64, net: &mut Vec<NetAction>) -> (res: (
        AbortResult,
        Vec<TransferWork>,
    ))
        requires
            old(self).wf(),
            old(self).room(),
            users.wf(),
        ensures
            final(self).wf(),
            Self::abort_effect(*old(self), *final(self), id, old(net)@, final(net)@, res.0, res.1@),
    {
        proof {
            reveal_strlit("Cancelled");
        }
        let key = match self.transfers.key_of(id) {
            Some(k) => (k.0.clone(), k.1.clone()),
            None => {
                return (AbortResult::NotFound, Vec::new());
            },
        };
        let ghost k = key_view(key);
        let active = match self.transfers.get(&key) {
            Some(t) => t.phase.is_active(),
            None => {
                return (AbortResult::NotFound, Vec::new());
            },
        };
        if !active {
            return (AbortResult::Aborted, Vec::new());
        }
        self.deactivate(&key);
        if let Some(conn_id) = self.transfers.detach_conn(&key) {
            net.push(NetAction::CloseConnection(conn_id));
        }
        let snap = match self.transfers.get_mut(&key) {
            Some(t) => {
                t.phase = TransferPhase::Aborted;
                t.snapshot()
            },
            None => {
                proof {
                    assert(false);
                }
                return (AbortResult::NotFound, Vec::new());
            },
        };
        let (username, file) = key;
        net.push(
            NetAction::Peer {
                username,
                message: PeerMessage::UploadDenied {
                    file,
                    reason: TransferRejectReason::CANCELLED.to_owned(),
                },
            },
        );
        let ghost denied_at = net@.len() - 1;
        let ghost mid = net@;
        let ghost after = *self;
        self.check_queue(users, now_ns, net);
        proof {
            assert(net@[denied_at] == net@.take(mid.len() as int)[denied_at]);
            assert(after.transfers().contains_key(k));
            if self.transfers()[k] != after.transfers()[k] {
                assert(after.queued().contains(k));
                old(self).queued().lemma_filter_contains_rev(super::queue::other_than(k), k);
            }
        }
        (AbortResult::Aborted, vec![TransferWork::Update(snap)])
    }
}

/// Which uploads a sweep fails.
pub enum Sweep {
    /// Requests granted before `now - timeout` and still unanswered.
    Expired { now: u64, timeout: u64 },
    /// Uploads being requested or sent, when the server connection drops.
    Interrupted,
    /// The uploads under way to one user.
    ToUser { username: String },
    /// The uploads under way to one user whose requests could not be sent.
    Unsent { username: String, files: Vec<String> },
}

/// Whether a sweep fails an upload.
pub open spec fn swept(sweep: Sweep, t: UploadTransfer) -> bool {
    match sweep {
        Sweep::Expired { now, timeout } => t.phase is GettingStatus && (t.activated_at matches Some(
            at,
        ) && now >= at && now - at > timeout),
        Sweep::Interrupted => t.phase is GettingStatus || t.phase is Transferring,
        Sweep::ToUser { username } => t.username@ == username@ && t.phase.spec_is_active(),
        Sweep::Unsent { username, files } => t.username@ == username@ && t.phase.spec_is_active()
            && files@.map_values(|f: String| f@).contains(t.virtual_path@),
    }
}

impl Uploads {
    /// Fails every upload the sweep names with `reason`; with `deny`, the
    /// peer is first told the upload is denied and its connection closed.
    fn fail_swept(&mut self, sweep: &Sweep, reason: &str, deny: bool, net: &mut Vec<NetAction>) -> (res: (
        Vec<TransferWork>,
        bool,
    ))
        requires
            old(self).wf(),
            old(self).room(),
        ensures
            final(self).wf(),
            final(self).used() <= old(self).used() + old(self).transfers().dom().len(),
            final(self).slots() == old(self).slots(),
            final(self).transfers().dom() == old(self).transfers().dom(),
            forall|k: KeyView| #[trigger]
                old(self).transfers().contains_key(k) ==> if swept(*sweep, old(self).transfers()[k].3) {
                    &&& final(self).transfers()[k].3.phase == TransferPhase::Failed(
                        final(self).transfers()[k].3.phase->Failed_0,
                    )
                    &&& final(self).transfers()[k].3.phase->Failed_0@ == reason@
                    &&& !final(self).queued().contains(k)
                } else {
                    final(self).transfers()[k] == old(self).transfers()[k]
                },
            res.1 == exists|k: KeyView| #[trigger]
                old(self).transfers().contains_key(k) && swept(*sweep, old(self).transfers()[k].3),
            forall|k: KeyView| #[trigger] final(self).queued().contains(k) ==> old(self).queued().contains(k),
            final(net)@.len() >= old(net)@.len(),
            final(net)@.take(old(net)@.len() as int) == old(net)@,
    {
        let keys = self.transfers.keys();
        let ghost ks = keys@.map_values(|k: TransferKey| key_view(k));
        let ghost start = self.transfers();
        let mut updates: Vec<TransferWork> = Vec::new();
        let mut any = false;
        let mut i: usize = 0;
        proof {
            assert forall|a: int, b: int| 0 <= a < ks.len() && 0 <= b < ks.len() && ks[a] == ks[b] implies a == b by {
                assert(ks[a] == key_view(keys@[a]));
                assert(ks[b] == key_view(keys@[b]));
            }
            assert forall|k: KeyView| start.contains_key(k) implies exists|j: int| 0 <= j < ks.len() && #[trigger] ks[j] == k by {
                let j = choose|j: int| 0 <= j < keys@.len() && key_view(#[trigger] keys@[j]) == k;
                assert(ks[j] == k);
            }
            assert forall|j: int| 0 <= j < ks.len() implies start.contains_key(#[trigger] ks[j]) by {
                assert(ks[j] == key_view(keys@[j]));
            }
        }
        while i < keys.len()
            invariant
                self.wf(),
                ks == keys@.map_values(|k: TransferKey| key_view(k)),
                ks.len() == start.dom().len(),
                start == old(self).transfers(),
                old(self).room(),
                i <= keys@.len(),
                self.used() <= old(self).used() + i,
                self.slots() == old(self).slots(),
                forall|a: int, b: int| 0 <= a < ks.len() && 0 <= b < ks.len() && ks[a] == ks[b] ==> a == b,
                forall|j: int| 0 <= j < ks.len() ==> start.contains_key(#[trigger] ks[j]),
                forall|k: KeyView| start.contains_key(k) ==> exists|j: int| 0 <= j < ks.len() && #[trigger] ks[j] == k,
                self.transfers().dom() == start.dom(),
                forall|j: int| 0 <= j < i ==> if swept(*sweep, start[#[trigger] ks[j]].3) {
                    &&& self.transfers()[ks[j]].3.phase == TransferPhase::Failed(
                        self.transfers()[ks[j]].3.phase->Failed_0,
                    )
                    &&& self.transfers()[ks[j]].3.phase->Failed_0@ == reason@
                    &&& !self.queued().contains(ks[j])
                } else {
                    self.transfers()[ks[j]] == start[ks[j]]
                },
                forall|j: int| i <= j < ks.len() ==> self.transfers()[#[trigger] ks[j]] == start[ks[j]],
                any == exists|j: int| 0 <= j < i && swept(*sweep, start[#[trigger] ks[j]].3),
                forall|k: KeyView| #[trigger] self.queued().contains(k) ==> old(self).queued().contains(k),
                net@.len() >= old(net)@.len(),
                net@.take(old(net)@.len() as int) == old(net)@,
            decreases keys@.len() - i,
        {
            let key = &keys[i];
            let ghost ki = ks[i as int];
            proof {
                assert(ki == key_view(*key));
            }
            let hit = match self.transfers.get(key) {
                Some(t) => match sweep {
                    Sweep::Expired { now, timeout } => match t.phase {
                        TransferPhase::GettingStatus => match t.activated_at {
                            Some(at) => *now >= at && *now - at > *timeout,
                            None => false,
                        },
                        _ => false,
                    },
                    Sweep::Interrupted => match t.phase {
                        TransferPhase::GettingStatus | TransferPhase::Transferring => true,
                        _ => false,
                    },
                    Sweep::ToUser { username } => crate::text::text_eq(t.username.as_str(), username.as_str())
                        && t.phase.is_active(),
                    Sweep::Unsent { username, files } => crate::text::text_eq(
                        t.username.as_str(),
                        username.as_str(),
                    ) && t.phase.is_active() && has_text(files, t.virtual_path.as_str()),
                },
                None => false,
            };
            let ghost before = *self;
            let ghost net_before = net@;
            if hit {
                any = true;
                if deny {
                    if let Some(conn_id) = self.transfers.conn_of(key) {
                        net.push(NetAction::CloseConnection(conn_id));
                    }
                    net.push(
                        NetAction::Peer {
                            username: key.0.clone(),
                            message: PeerMessage::UploadDenied { file: key.1.clone(), reason: reason.to_owned() },
                        },
                    );
                }
                let mut work = self.fail(key, reason.to_owned());
                updates.append(&mut work);
                proof {
                    assert(net@.take(old(net)@.len() as int) =~= net_before.take(old(net)@.len() as int));
                    assert forall|k: KeyView| #[trigger] self.queued().contains(k) implies old(self).queued().contains(k) by {
                        if self.queued() != before.queued() {
                            before.queued().lemma_filter_contains_rev(super::queue::other_than(ki), k);
                            assert(before.queued().contains(k));
                        }
                    }
                    assert forall|j: int| 0 <= j < i + 1 implies if swept(*sweep, start[#[trigger] ks[j]].3) {
                        &&& self.transfers()[ks[j]].3.phase == TransferPhase::Failed(
                            self.transfers()[ks[j]].3.phase->Failed_0,
                        )
                        &&& self.transfers()[ks[j]].3.phase->Failed_0@ == reason@
                        &&& !self.queued().contains(ks[j])
                    } else {
                        self.transfers()[ks[j]] == start[ks[j]]
                    } by {
                        if j < i {
                            assert(ks[j] != ki);
                            if self.queued().contains(ks[j]) {
                                before.queued().lemma_filter_contains_rev(super::queue::other_than(ki), ks[j]);
                            }
                        } else {
                            if self.queued().contains(ki) {
                                before.queued().lemma_filter_contains_rev(super::queue::other_than(ki), ki);
                            }
                        }
                    }
                    assert forall|j: int| i + 1 <= j < ks.len() implies self.transfers()[#[trigger] ks[j]] == start[ks[j]] by {
                        assert(ks[j] != ki);
                    }
                }
            }
            i = i + 1;
        }
        proof {
            assert forall|k: KeyView| #[trigger] old(self).transfers().contains_key(k) implies if swept(
                *sweep,
                old(self).transfers()[k].3,
            ) {
                &&& self.transfers()[k].3.phase == TransferPhase::Failed(
                    self.transfers()[k].3.phase->Failed_0,
                )
                &&& self.transfers()[k].3.phase->Failed_0@ == reason@
                &&& !self.queued().contains(k)
            } else {
                self.transfers()[k] == old(self).transfers()[k]
            } by {
                let j = choose|j: int| 0 <= j < ks.len() && #[trigger] ks[j] == k;
                assert(ks[j] == k);
            }
            if any {
                let j = choose|j: int| 0 <= j < i && swept(*sweep, start[#[trigger] ks[j]].3);
                assert(old(self).transfers().contains_key(ks[j]));
            }
            if exists|k: KeyView| #[trigger]
                old(self).transfers().contains_key(k) && swept(*sweep, old(self).transfers()[k].3) {
                let k = choose|k: KeyView| #[trigger]
                    old(self).transfers().contains_key(k) && swept(*sweep, old(self).transfers()[k].3);
                let j = choose|j: int| 0 <= j < ks.len() && #[trigger] ks[j] == k;
                assert(swept(*sweep, start[ks[j]].3));
            }
        }
        (updates, any)
    }
}

impl Uploads {
    /// Fails the uploads whose request went unanswered for longer than
    /// `timeout`, then grants the freed slots.
    pub fn sweep_request_timeouts(
        &mut self,
        now_ns: u64,
        timeout: u64,
        users: &Users,
        net: &mut Vec<NetAction>,
    ) -> (work: Vec<TransferWork>)
        requires
            old(self).wf(),
            old(self).room(),
            users.wf(),
        ensures
            final(self).wf(),
            final(self).transfers().dom() == old(self).transfers().dom(),
            forall|k: KeyView| #[trigger]
                old(self).transfers().contains_key(k) ==> if swept(
                    Sweep::Expired { now: now_ns, timeout },
                    old(self).transfers()[k].3,
                ) {
                    final(self).transfers()[k].3.phase == TransferPhase::Failed(
                        final(self).transfers()[k].3.phase->Failed_0,
                    ) && final(self).transfers()[k].3.phase->Failed_0@ == "request timed out"@
                } else {
                    final(self).transfers()[k] == old(self).transfers()[k] || (
                    final(self).transfers()[k].3.phase == TransferPhase::GettingStatus
                        && old(self).queued().contains(k))
                },
    {
        proof {
            reveal_strlit("request timed out");
        }
        let sweep = Sweep::Expired { now: now_ns, timeout };
        let (updates, any) = self.fail_swept(&sweep, "request timed out", false, net);
        if any {
            let ghost mid = *self;
            self.check_queue(users, now_ns, net);
            proof {
                assert forall|k: KeyView| #[trigger] old(self).transfers().contains_key(k) implies (
                self.transfers()[k] == mid.transfers()[k] || (self.transfers()[k].3.phase
                    == TransferPhase::GettingStatus && mid.queued().contains(k))) by {
                    assert(mid.transfers().contains_key(k));
                }
                assert forall|k: KeyView| #[trigger] mid.queued().contains(k) implies old(self).queued().contains(k) by {
                    let i = choose|i: int| 0 <= i < mid.queued().len() && mid.queued()[i] == k;
                    assert(mid.transfers().contains_key(mid.queued()[i]));
                }
            }
        }
        updates
    }

    /// What `reset` does, as its contract states it.
    pub open spec fn reset_effect(before: Uploads, after: Uploads, work: Seq<TransferWork>) -> bool {
        &&& (after.transfers().dom() == before.transfers().dom())
        &&& (forall|k: KeyView| #[trigger]
                before.transfers().contains_key(k) ==> if swept(Sweep::Interrupted, before.transfers()[k].3) {
                    after.transfers()[k].3.phase == TransferPhase::Failed(
                        after.transfers()[k].3.phase->Failed_0,
                    ) && after.transfers()[k].3.phase->Failed_0@ == "server disconnected"@
                } else {
                    after.transfers()[k] == before.transfers()[k]
                })
    }

    /// The server connection dropped: uploads being requested or sent fail.
    pub fn reset(&mut self) -> (work: Vec<TransferWork>)
        requires
            old(self).wf(),
            old(self).room(),
        ensures
            final(self).wf(),
            Self::reset_effect(*old(self), *final(self), work@),
    {
        proof {
            reveal_strlit("server disconnected");
        }
        let mut unused: Vec<NetAction> = Vec::new();
        let (updates, _) = self.fail_swept(&Sweep::Interrupted, "server disconnected", false, &mut unused);
        updates
    }

    /// Denies every upload under way to a user, with `reason`: each is
    /// closed, the peer told, and the upload fails; the freed slots are
    /// granted.
    pub fn deny_all(
        &mut self,
        username: &str,
        reason: &str,
        users: &Users,
        now_ns: u64,
        net: &mut Vec<NetAction>,
    ) -> (work: Vec<TransferWork>)
        requires
            old(self).wf(),
            old(self).room(),
            users.wf(),
        ensures
            final(self).wf(),
            final(self).used() <= old(self).used() + old(self).transfers().dom().len(),
            final(self).transfers().dom() == old(self).transfers().dom(),
            forall|k: KeyView| #[trigger]
                old(self).transfers().contains_key(k) ==> if k.0 == username@ && old(self).transfers()[k].3.phase.spec_is_active() {
                    final(self).transfers()[k].3.phase == TransferPhase::Failed(
                        final(self).transfers()[k].3.phase->Failed_0,
                    ) && final(self).transfers()[k].3.phase->Failed_0@ == reason@
                } else {
                    final(self).transfers()[k] == old(self).transfers()[k] || (
                    final(self).transfers()[k].3.phase == TransferPhase::GettingStatus
                        && old(self).queued().contains(k))
                },
    {
        let sweep = Sweep::ToUser { username: username.to_owned() };
        let (updates, any) = self.fail_swept(&sweep, reason, true, net);
        proof {
            assert forall|k: KeyView| #[trigger] old(self).transfers().contains_key(k) implies swept(
                sweep,
                old(self).transfers()[k].3,
            ) == (k.0 == username@ && old(self).transfers()[k].3.phase.spec_is_active()) by {}
        }
        if any {
            let ghost mid = *self;
            self.check_queue(users, now_ns, net);
            proof {
                assert forall|k: KeyView| #[trigger] old(self).transfers().contains_key(k) implies (
                self.transfers()[k] == mid.transfers()[k] || (self.transfers()[k].3.phase
                    == TransferPhase::GettingStatus && mid.queued().contains(k))) by {
                    assert(mid.transfers().contains_key(k));
                }
                assert forall|k: KeyView| #[trigger] mid.queued().contains(k) implies old(self).queued().contains(k) by {
                    let i = choose|i: int| 0 <= i < mid.queued().len() && mid.queued()[i] == k;
                    assert(mid.transfers().contains_key(mid.queued()[i]));
                }
            }
        }
        updates
    }
}

/// Whether a text is in a list.
fn has_text(list: &Vec<String>, text: &str) -> (b: bool)
    ensures
        b == list@.map_values(|f: String| f@).contains(text@),
{
    let ghost view = list@.map_values(|f: String| f@);
    let mut i: usize = 0;
    while i < list.len()
        invariant
            view == list@.map_values(|f: String| f@),
            i <= list@.len(),
            forall|j: int| 0 <= j < i ==> view[j] != text@,
        decreases list@.len() - i,
    {
        if crate::text::text_eq(list[i].as_str(), text) {
            proof {
                assert(view[i as int] == text@);
            }
            return true;
        }
        i = i + 1;
    }
    false
}

/// The files of the upload requests among messages that could not be
/// sent.
pub open spec fn unsent_uploads(unsent: Seq<PeerMessage>) -> Seq<Seq<char>>
    decreases unsent.len(),
{
    if unsent.len() == 0 {
        Seq::empty()
    } else {
        unsent_uploads(unsent.drop_last()) + match unsent.last() {
            PeerMessage::TransferRequest { direction: TransferDirection::Upload, file, .. } => seq![file@],
            _ => Seq::empty(),
        }
    }
}

impl Uploads {
    /// Messages to a user could not be sent: each upload request among
    /// them fails, as offline or timed out, and the freed slots are
    /// granted.
    pub fn handle_peer_connection_error(
        &mut self,
        username: &str,
        unsent: &[PeerMessage],
        is_offline: bool,
        users: &Users,
        now_ns: u64,
        net: &mut Vec<NetAction>,
    ) -> (work: Vec<TransferWork>)
        requires
            old(self).wf(),
            old(self).room(),
            users.wf(),
        ensures
            final(self).wf(),
            final(self).transfers().dom() == old(self).transfers().dom(),
            forall|k: KeyView| #[trigger]
                old(self).transfers().contains_key(k) ==> if k.0 == username@
                    && old(self).transfers()[k].3.phase.spec_is_active() && unsent_uploads(unsent@).contains(k.1) {
                    final(self).transfers()[k].3.phase == TransferPhase::Failed(
                        final(self).transfers()[k].3.phase->Failed_0,
                    ) && final(self).transfers()[k].3.phase->Failed_0@ == if is_offline {
                        "user is offline"@
                    } else {
                        "connection timeout"@
                    }
                } else {
                    final(self).transfers()[k] == old(self).transfers()[k] || (
                    final(self).transfers()[k].3.phase == TransferPhase::GettingStatus
                        && old(self).queued().contains(k))
                },
    {
        proof {
            reveal_strlit("user is offline");
            reveal_strlit("connection timeout");
        }
        let mut files: Vec<String> = Vec::new();
        let mut i: usize = 0;
        while i < unsent.len()
            invariant
                i <= unsent@.len(),
                files@.map_values(|f: String| f@) == unsent_uploads(unsent@.take(i as int)),
            decreases unsent@.len() - i,
        {
            proof {
                assert(unsent@.take(i + 1).drop_last() =~= unsent@.take(i as int));
            }
            let ghost before = files@.map_values(|f: String| f@);
            match &unsent[i] {
                PeerMessage::TransferRequest { direction: TransferDirection::Upload, file, .. } => {
                    files.push(file.clone());
                    proof {
                        assert(files@.map_values(|f: String| f@) =~= before + seq![file@]);
                    }
                },
                _ => {
                    proof {
                        assert(before + Seq::<Seq<char>>::empty() =~= before);
                    }
                },
            }
            i = i + 1;
        }
        proof {
            assert(unsent@.take(i as int) =~= unsent@);
        }
        let reason = if is_offline {
            "user is offline"
        } else {
            "connection timeout"
        };
        let sweep = Sweep::Unsent { username: username.to_owned(), files };
        let (updates, any) = self.fail_swept(&sweep, reason, false, net);
        proof {
            assert forall|k: KeyView| #[trigger] old(self).transfers().contains_key(k) implies swept(
                sweep,
                old(self).transfers()[k].3,
            ) == (k.0 == username@ && old(self).transfers()[k].3.phase.spec_is_active()
                && unsent_uploads(unsent@).contains(k.1)) by {}
        }
        if any {
            let ghost mid = *self;
            self.check_queue(users, now_ns, net);
            proof {
                assert forall|k: KeyView| #[trigger] old(self).transfers().contains_key(k) implies (
                self.transfers()[k] == mid.transfers()[k] || (self.transfers()[k].3.phase
                    == TransferPhase::GettingStatus && mid.queued().contains(k))) by {
                    assert(mid.transfers().contains_key(k));
                }
            }
        }
        updates
    }
}

impl Uploads {
    /// Removes an upload by id: its connection is handed back to be closed,
    /// and it leaves the queue, its user no longer served under its token.
    fn remove_entry(&mut self, id: TransferId) -> (res: (Option<TransferKey>, Option<ConnId>, bool))
        requires
            old(self).wf(),
            old(self).used() + 1 <= u64::MAX,
        ensures
            final(self).wf(),
            final(self).used() <= old(self).used() + 1,
            !final(self).ids().contains_key(id),
            forall|x: TransferId| x != id && !old(self).ids().contains_key(x) ==> !final(self).ids().contains_key(x),
            final(self).transfers().dom().subset_of(old(self).transfers().dom()),
            final(self).slots() == old(self).slots(),
            match old(self).ids().get(id) {
                Some(k) => res.0 matches Some(key) && key_view(key) == k && res.2 == (old(
                    self,
                ).transfers().contains_key(k) && old(self).transfers()[k].3.phase.spec_is_active()),
                None => res.0 is None,
            },
    {
        let active = match self.transfers.key_of(id) {
            Some(k) => match self.transfers.get(k) {
                Some(t) => t.phase.is_active(),
                None => false,
            },
            None => false,
        };
        match self.transfers.remove(id) {
            Some((key, detached)) => {
                let ghost before_queue = self.queue.entries();
                proof {
                    before_queue.lemma_filter_len(super::queue::other_than(key_view(key)));
                }
                self.queue.release(&key, detached.token);
                proof {
                    assert forall|i: int| 0 <= i < self.queue.entries().len() implies self.transfers.entries().contains_key(
                        #[trigger] self.queue.entries()[i],
                    ) by {
                        let e = self.queue.entries()[i];
                        assert(self.queue.entries().contains(e));
                        before_queue.lemma_filter_contains_rev(super::queue::other_than(key_view(key)), e);
                        let j = choose|j: int| 0 <= j < before_queue.len() && before_queue[j] == e;
                        assert(old(self).transfers.entries().contains_key(before_queue[j]));
                    }
                    assert(self.transfers().dom() =~= old(self).transfers().dom().remove(key_view(key)));
                }
                (Some(key), detached.conn_id, active)
            },
            None => (None, None, false),
        }
    }

    /// What `clear` does, as its contract states it.
    pub open spec fn clear_effect(before: Uploads, after: Uploads, statuses: Seq<TransferStatus>, removed: Seq<TransferId>) -> bool {
        &&& (forall|i: int| 0 <= i < removed.len() ==> !after.ids().contains_key(#[trigger] removed[i]))
        &&& (forall|k: KeyView| #[trigger]
                before.transfers().contains_key(k) && statuses.contains(
                    before.transfers()[k].3.phase.spec_status(),
                ) ==> removed.contains(before.transfers()[k].3.id))
    }

    /// Removes the uploads in any of the given statuses, closing their
    /// connections; returns their ids.
    pub fn clear(&mut self, statuses: &[TransferStatus], net: &mut Vec<NetAction>) -> (removed: Vec<
        TransferId,
    >)
        requires
            old(self).wf(),
            old(self).room(),
        ensures
            final(self).wf(),
            Self::clear_effect(*old(self), *final(self), statuses@, removed@),
    {
        let keys = self.transfers.keys();
        let mut ids: Vec<TransferId> = Vec::new();
        let mut i: usize = 0;
        while i < keys.len()
            invariant
                self.wf(),
                *self == *old(self),
                i <= keys@.len(),
                keys@.len() == self.transfers().dom().len(),
                ids@.len() <= i,
                forall|j: int| 0 <= j < keys@.len() ==> self.transfers().contains_key(key_view(#[trigger] keys@[j])),
                forall|k: KeyView| #[trigger]
                    self.transfers().contains_key(k) ==> exists|j: int|
                        0 <= j < keys@.len() && key_view(#[trigger] keys@[j]) == k,
                forall|j: int| 0 <= j < i && statuses@.contains(
                    self.transfers()[key_view(#[trigger] keys@[j])].3.phase.spec_status(),
                ) ==> ids@.contains(self.transfers()[key_view(keys@[j])].3.id),
            decreases keys@.len() - i,
        {
            match self.transfers.get(&keys[i]) {
                Some(t) => {
                    let status = t.phase.status();
                    let mut listed = false;
                    let mut s: usize = 0;
                    while s < statuses.len()
                        invariant
                            s <= statuses@.len(),
                            listed == exists|q: int| 0 <= q < s && statuses@[q] == status,
                        decreases statuses@.len() - s,
                    {
                        if statuses[s] == status {
                            listed = true;
                        }
                        s = s + 1;
                    }
                    if listed {
                        let ghost before = ids@;
                        ids.push(t.id);
                        proof {
                            assert forall|x: TransferId| before.contains(x) implies ids@.contains(x) by {
                                let q = choose|q: int| 0 <= q < before.len() && before[q] == x;
                                assert(ids@[q] == x);
                            }
                            assert(ids@[ids@.len() - 1] == t.id);
                        }
                    }
                },
                None => {},
            }
            i = i + 1;
        }
        proof {
            assert forall|k: KeyView| #[trigger]
                self.transfers().contains_key(k) && statuses@.contains(
                    self.transfers()[k].3.phase.spec_status(),
                ) implies ids@.contains(self.transfers()[k].3.id) by {
                let j = choose|j: int| 0 <= j < keys@.len() && key_view(#[trigger] keys@[j]) == k;
            }
        }
        let mut r: usize = 0;
        while r < ids.len()
            invariant
                self.wf(),
                r <= ids@.len(),
                ids@.len() <= old(self).transfers().dom().len(),
                old(self).room(),
                self.used() <= old(self).used() + r,
                forall|j: int| 0 <= j < r ==> !self.ids().contains_key(#[trigger] ids@[j]),
            decreases ids@.len() - r,
        {
            let (_, conn, _) = self.remove_entry(ids[r]);
            if let Some(conn_id) = conn {
                net.push(NetAction::CloseConnection(conn_id));
            }
            r = r + 1;
        }
        ids
    }

    /// What `clear_all` does, as its contract states it.
    pub open spec fn clear_all_effect(before: Uploads, after: Uploads, removed: Seq<TransferId>) -> bool {
        &&& (forall|i: int| 0 <= i < removed.len() ==> !after.ids().contains_key(#[trigger] removed[i]))
        &&& (forall|k: KeyView| #[trigger]
                before.transfers().contains_key(k) ==> removed.contains(before.transfers()[k].3.id))
        &&& (after.queued().len() == 0)
    }

    /// Removes every upload, closing their connections and telling peers
    /// of uploads under way that they are cancelled; returns their ids.
    pub fn clear_all(&mut self, net: &mut Vec<NetAction>) -> (removed: Vec<TransferId>)
        requires
            old(self).wf(),
            old(self).room(),
        ensures
            final(self).wf(),
            Self::clear_all_effect(*old(self), *final(self), removed@),
    {
        let keys = self.transfers.keys();
        let mut ids: Vec<TransferId> = Vec::new();
        let mut i: usize = 0;
        while i < keys.len()
            invariant
                self.wf(),
                *self == *old(self),
                i <= keys@.len(),
                keys@.len() == self.transfers().dom().len(),
                ids@.len() <= i,
                forall|j: int| 0 <= j < keys@.len() ==> self.transfers().contains_key(key_view(#[trigger] keys@[j])),
                forall|k: KeyView| #[trigger]
                    self.transfers().contains_key(k) ==> exists|j: int|
                        0 <= j < keys@.len() && key_view(#[trigger] keys@[j]) == k,
                forall|j: int| 0 <= j < i ==> ids@.contains(self.transfers()[key_view(#[trigger] keys@[j])].3.id),
            decreases keys@.len() - i,
        {
            match self.transfers.get(&keys[i]) {
                Some(t) => {
                    let ghost before = ids@;
                    ids.push(t.id);
                    proof {
                        assert forall|x: TransferId| before.contains(x) implies ids@.contains(x) by {
                            let q = choose|q: int| 0 <= q < before.len() && before[q] == x;
                            assert(ids@[q] == x);
                        }
                        assert(ids@[ids@.len() - 1] == t.id);
                    }
                },
                None => {
                    proof {
                        assert(false);
                    }
                },
            }
            i = i + 1;
        }
        proof {
            assert forall|k: KeyView| #[trigger] self.transfers().contains_key(k) implies ids@.contains(
                self.transfers()[k].3.id,
            ) by {
                let j = choose|j: int| 0 <= j < keys@.len() && key_view(#[trigger] keys@[j]) == k;
            }
        }
        let mut r: usize = 0;
        while r < ids.len()
            invariant
                self.wf(),
                r <= ids@.len(),
                ids@.len() <= old(self).transfers().dom().len(),
                old(self).room(),
                self.used() <= old(self).used() + r,
                forall|j: int| 0 <= j < r ==> !self.ids().contains_key(#[trigger] ids@[j]),
            decreases ids@.len() - r,
        {
            let (key, conn, active) = self.remove_entry(ids[r]);
            if let Some(conn_id) = conn {
                net.push(NetAction::CloseConnection(conn_id));
            }
            if active {
                if let Some((username, file)) = key {
                    net.push(
                        NetAction::Peer {
                            username,
                            message: PeerMessage::UploadDenied {
                                file,
                                reason: TransferRejectReason::CANCELLED.to_owned(),
                            },
                        },
                    );
                }
            }
            r = r + 1;
        }
        self.queue.clear();
        ids
    }
}


/// Uploads other users have queued never count against a user: adding
/// entries of other users to the queue leaves every answer to the user's
/// requests as it was.
pub proof fn law_other_users_uploads_do_not_refuse(
    users: &Users,
    shares: Option<&SharesIndex>,
    queued: Seq<KeyView>,
    others: Seq<KeyView>,
    limit: usize,
    username: Seq<char>,
    virtual_path: Seq<char>,
)
    requires
        forall|i: int| 0 <= i < others.len() ==> (#[trigger] others[i]).0 != username,
    ensures
        refusal(users, shares, queued + others, limit, username, virtual_path) == refusal(
            users,
            shares,
            queued,
            limit,
            username,
            virtual_path,
        ),
{
    lemma_count_ignores_others(queued, others, username);
}

/// While a user has fewer uploads of its own queued than the limit, the
/// queue makes no difference to the answer: the request is refused, or
/// not, exactly as with nothing queued at all.
pub proof fn law_under_the_limit_the_queue_does_not_refuse(
    users: &Users,
    shares: Option<&SharesIndex>,
    queued: Seq<KeyView>,
    limit: usize,
    username: Seq<char>,
    virtual_path: Seq<char>,
)
    requires
        count_of(queued, username) < limit,
    ensures
        refusal(users, shares, queued, limit, username, virtual_path) == refusal(
            users,
            shares,
            Seq::empty(),
            limit,
            username,
            virtual_path,
        ),
{
    lemma_count_ignores_others(Seq::<KeyView>::empty(), Seq::<KeyView>::empty(), username);
    assert(Seq::<KeyView>::empty() + Seq::<KeyView>::empty() =~= Seq::<KeyView>::empty());
}

/// A request that would be granted with nothing queued is refused as
/// "Too many files" once the user's own queued uploads reach the limit.
pub proof fn law_at_the_limit_requests_are_refused(
    users: &Users,
    shares: Option<&SharesIndex>,
    queued: Seq<KeyView>,
    limit: usize,
    username: Seq<char>,
    virtual_path: Seq<char>,
)
    requires
        refusal(users, shares, Seq::empty(), limit, username, virtual_path) is None,
        count_of(queued, username) >= limit,
    ensures
        refusal(users, shares, queued, limit, username, virtual_path) == Some("Too many files"@),
{
    lemma_count_ignores_others(Seq::<KeyView>::empty(), Seq::<KeyView>::empty(), username);
    assert(Seq::<KeyView>::empty() + Seq::<KeyView>::empty() =~= Seq::<KeyView>::empty());
}

/// Entries of other users add nothing to a user's count.
proof fn lemma_count_ignores_others(a: Seq<KeyView>, b: Seq<KeyView>, username: Seq<char>)
    requires
        forall|i: int| 0 <= i < b.len() ==> (#[trigger] b[i]).0 != username,
    ensures
        count_of(a + b, username) == count_of(a, username),
    decreases b.len(),
{
    reveal(Seq::filter);
    if b.len() == 0 {
        assert(a + b =~= a);
    } else {
        let c = b.drop_last();
        assert forall|i: int| 0 <= i < c.len() implies (#[trigger] c[i]).0 != username by {
            assert(c[i] == b[i]);
        }
        lemma_count_ignores_others(a, c, username);
        assert((a + b).drop_last() =~= a + c);
        assert((a + b).last() == b[b.len() - 1]);
    }
}

} // verus!
