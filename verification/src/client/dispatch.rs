//! The client's decisions on what the server says: the state it keeps,
//! the events it reports and the requests it sends in turn.
use vstd::prelude::*;
use vstd::string::StringSliceAdditionalSpecFns;

use crate::client::event::{ClientEvent, Observation, SearchResult, UserInfoReceived};
use crate::client::requests::{deferred_file, PendingRequests, PENDING_REQUEST_LIMIT};
use crate::client::transfers::TransferWork;
use crate::types::TransferDirection;
use crate::client::search::{sanitize_search_term, sanitized, SearchScope, Searches};
use crate::client::session::{Interests, Session};
use crate::client::shares::index::SharesIndex;
use crate::client::transfers::downloads::{Downloads, NetAction, Transfer};
use crate::client::transfers::registry::KeyView;
use crate::client::transfers::TransferPhase;
use crate::client::transfers::uploads::Uploads;
use crate::client::transfers::TransferIds;
use crate::client::users::{contains_name, name_set, names_of, Users};
use crate::protocol::listing::files_view;
use crate::protocol::listing::FileView;
use crate::protocol::peer::PeerMessage;
use crate::protocol::server_request::ServerRequest;
use crate::protocol::server_response::ServerResponse;
use crate::text::{lowercase, lowercase_of, text_eq};
use crate::types::{FileInfo, Restriction, UserData, UserStatus};

verus! {

/// How the client answers other users.
pub struct CoreConfig {
    /// Our own user name.
    pub username: String,
    pub respond_to_searches: bool,
    pub max_search_results: usize,
    pub min_search_chars: usize,
    /// What we tell users who ask about us.
    pub description: String,
}

/// What the client keeps between messages.
pub struct ClientCore {
    pub config: CoreConfig,
    pub users: Users,
    pub downloads: Downloads,
    pub uploads: Uploads,
    pub ids: TransferIds,
    pub searches: Searches,
    pub shares: Option<SharesIndex>,
    /// A scan of the shared folders is under way or due.
    pub scan_running: bool,
    /// Phrases, lowercase, that keep a file out of search results.
    pub excluded_phrases: Vec<String>,
    pub session: Session,
    pub interests: Interests,
    /// Seconds between two wishlist searches.
    pub wishlist_interval_secs: u64,
    pub wishlist_terms: Vec<String>,
    /// When the next wishlist search is due, in milliseconds.
    pub wishlist_at: Option<u64>,
    /// How many wishlist searches were made: the next one searches the
    /// wish at this count, wrapped around the list.
    pub wishlist_cursor: usize,
    /// Requests held back while the shares are scanned.
    pub pending: PendingRequests,
}

/// The event a server message is passed on as, for the messages passed
/// on whatever the client's state.
pub open spec fn relay_event(m: ServerResponse) -> Option<ClientEvent> {
    match m {
        ServerResponse::RoomList { rooms, .. } => Some(ClientEvent::RoomList { rooms }),
        ServerResponse::LeaveRoom { room } => Some(ClientEvent::RoomLeft { room }),
        ServerResponse::UserJoinedRoom { room, userdata } => Some(
            ClientEvent::RoomUserJoined { room, username: userdata.username },
        ),
        ServerResponse::UserLeftRoom { room, username } => Some(
            ClientEvent::RoomUserLeft { room, username },
        ),
        ServerResponse::UserInterests { user, likes, hates } => Some(
            ClientEvent::UserInterests { username: user, liked: likes, hated: hates },
        ),
        ServerResponse::Recommendations { recommendations, unrecommendations } => Some(
            ClientEvent::Recommendations { recommendations, unrecommendations },
        ),
        ServerResponse::GlobalRecommendations { recommendations, unrecommendations } => Some(
            ClientEvent::GlobalRecommendations { recommendations, unrecommendations },
        ),
        ServerResponse::ItemRecommendations { thing, recommendations, unrecommendations } => Some(
            ClientEvent::ItemRecommendations { thing, recommendations, unrecommendations },
        ),
        ServerResponse::SimilarUsers { users } => Some(ClientEvent::SimilarUsers(users)),
        ServerResponse::ItemSimilarUsers { thing, usernames } => Some(
            ClientEvent::ItemSimilarUsers { thing, usernames },
        ),
        ServerResponse::CheckPrivileges { seconds } => Some(ClientEvent::Privileges { seconds }),
        ServerResponse::AdminMessage { msg } => Some(ClientEvent::AdminMessage { message: msg }),
        _ => None,
    }
}

/// Whether a server message changes nothing and is passed on as nothing.
pub open spec fn ignored_message(m: ServerResponse) -> bool {
    relay_event(m) is None && !(m is GetUserStatus) && !(m is WatchUser) && !(m is GetUserStats)
        && !(m is PrivilegedUsers) && !(m is FileSearch) && !(m is ExcludedSearchPhrases)
        && !(m is WishlistInterval) && !(m is MessageUser) && !(m is SayChatroom) && !(m is JoinRoom)
}

/// A search reply from `username`: passed on, with the reply's token and
/// fields, when the search is ours and the user is not ignored, else
/// dropped; nothing else changes.
pub open spec fn search_reply_passed(
    before: ClientCore,
    after: ClientCore,
    username: String,
    message: PeerMessage,
    net0: Seq<NetAction>,
    net1: Seq<NetAction>,
    ev0: Seq<ClientEvent>,
    ev1: Seq<ClientEvent>,
    work0: Seq<TransferWork>,
    work1: Seq<TransferWork>,
) -> bool {
    match message {
        PeerMessage::FileSearchResponse { token, results, free_upload_slots, upload_speed, queue_size, .. } => {
            &&& after == before
            &&& net1 == net0
            &&& work1 == work0
            &&& ev1 == if before.searches@.contains(token) && !before.users.ignored().contains(username@) {
                ev0.push(ClientEvent::SearchResults(SearchResult {
                    token,
                    username,
                    results,
                    free_upload_slots,
                    upload_speed,
                    queue_size,
                }))
            } else {
                ev0
            }
        },
        _ => true,
    }
}

/// How a search from `username` is answered (see `respond_to_search`).
pub open spec fn search_responded(
    core: ClientCore,
    username: Seq<char>,
    token: u32,
    term: Seq<char>,
    net0: Seq<NetAction>,
    net1: Seq<NetAction>,
    ev0: Seq<ClientEvent>,
    ev1: Seq<ClientEvent>,
) -> bool {
    &&& (!core.config.respond_to_searches || username == core.config.username@) ==> ev1 == ev0 && net1 == net0
    &&& (core.config.respond_to_searches && username != core.config.username@) ==> {
                let answer = core.search_answer(username, term);
                &&& ev1.len() == ev0.len() + 1
                &&& ev1.last() matches ClientEvent::Observed(
                    Observation::SearchSeen { username: u, query, matched },
                ) && u@ == username && query@ == term && matched == (answer.len() > 0)
                &&& answer.len() == 0 ==> net1 == net0
                &&& answer.len() > 0 ==> net1.len() == net0.len() + 1 && (net1.last() matches NetAction::Peer {
                    username: u,
                    message: PeerMessage::FileSearchResponse {
                        username: own,
                        token: t,
                        results,
                        free_upload_slots,
                        upload_speed,
                        queue_size,
                        unknown,
                        private_results,
                    },
                } && u@ == username && own@ == core.config.username@ && t == token && files_view(
                    results@,
                ) == answer && free_upload_slots == (core.uploads.tokens().dom().len()
                    < core.uploads.slots()) && upload_speed == core.uploads.speed() && queue_size
                    == core.uploads.queued().len() as u32 && unknown == 0
                    && private_results@.len() == 0)
            }
}

/// The shared index, by reference.
pub open spec fn shares_ref(shares: &Option<SharesIndex>) -> Option<&SharesIndex> {
    match shares {
        Some(ix) => Some(ix),
        None => None,
    }
}

/// The work added behind `work0`.
pub open spec fn added_work(work0: Seq<TransferWork>, work1: Seq<TransferWork>) -> Seq<TransferWork> {
    work1.skip(work0.len() as int)
}

/// A transfer message from `username`, as the download or upload
/// bookkeeping takes it: the part of the client it concerns changes as
/// that function's contract says, with the work it hands back added, and
/// a request for one of our files is noted with whether it was accepted.
pub open spec fn transfer_message_handled(
    before: ClientCore,
    after: ClientCore,
    username: String,
    message: PeerMessage,
    now_ms: u64,
    net0: Seq<NetAction>,
    net1: Seq<NetAction>,
    ev0: Seq<ClientEvent>,
    ev1: Seq<ClientEvent>,
    work0: Seq<TransferWork>,
    work1: Seq<TransferWork>,
) -> bool {
    let defer = before.shares is None && before.scan_running;
    match message {
        PeerMessage::TransferRequest { direction, token, file, filesize } => match direction {
            TransferDirection::Upload => {
                &&& Downloads::transfer_request_effect(before.downloads, after.downloads, username@, token, file@, filesize, now_ms, net0, net1)
                &&& after.uploads == before.uploads
                &&& work1 =~= work0
                &&& ev1 =~= ev0
            },
            TransferDirection::Download => {
                &&& ev1.len() == ev0.len() + 1
                &&& ev1.drop_last() =~= ev0
                &&& ev1.last() matches ClientEvent::Observed(Observation::QueueRequest { username: u, virtual_path: f, accepted })
                    && u == username && f == file
                    && Uploads::legacy_request_effect(before.uploads, after.uploads, username@, token, file@,
                        shares_ref(&before.shares), &before.users, net0, net1, added_work(work0, work1), accepted)
                &&& work1.take(work0.len() as int) =~= work0
                &&& after.downloads == before.downloads
            },
        },
        PeerMessage::TransferResponse { token, allowed, reason, .. } => {
            &&& Uploads::transfer_response_effect(before.uploads, after.uploads, username@, token, allowed,
                match reason { Some(r) => Some(r@), None => None }, net0, net1, added_work(work0, work1))
            &&& work1.take(work0.len() as int) =~= work0
            &&& after.downloads == before.downloads
            &&& ev1 =~= ev0
        },
        PeerMessage::UploadDenied { file, reason } => {
            &&& Downloads::upload_denied_effect(before.downloads, after.downloads, username@, file@, reason@, defer, net0, net1, added_work(work0, work1))
            &&& work1.take(work0.len() as int) =~= work0
            &&& after.uploads == before.uploads
            &&& ev1 =~= ev0
        },
        PeerMessage::UploadFailed { file } => {
            &&& Downloads::upload_failed_effect(before.downloads, after.downloads, username@, file@, defer, net0, net1, added_work(work0, work1))
            &&& work1.take(work0.len() as int) =~= work0
            &&& after.uploads == before.uploads
            &&& ev1 =~= ev0
        },
        PeerMessage::PlaceInQueueResponse { filename, place } => {
            &&& Downloads::queue_place_effect(before.downloads, after.downloads, username@, filename@, place,
                if work1.len() > work0.len() { Some(work1.last()) } else { None })
            &&& work1.len() <= work0.len() + 1
            &&& work1.take(work0.len() as int) =~= work0
            &&& net1 =~= net0
            &&& after.uploads == before.uploads
            &&& ev1 =~= ev0
        },
        PeerMessage::PlaceInQueueRequest { file, .. } => {
            &&& before.uploads.queued().len() < 0xffff_ffff ==> Uploads::place_request_effect(before.uploads, username@, file@, net0, net1)
            &&& before.uploads.queued().len() >= 0xffff_ffff ==> net1 =~= net0
            &&& after == before
            &&& work1 =~= work0
            &&& ev1 =~= ev0
        },
        PeerMessage::QueueUpload { file, .. } => {
            &&& ev1.len() == ev0.len() + 1
            &&& ev1.drop_last() =~= ev0
            &&& ev1.last() matches ClientEvent::Observed(Observation::QueueRequest { username: u, virtual_path: f, accepted })
                && u == username && f == file
                && Uploads::queue_upload_effect(before.uploads, after.uploads, username@, file@,
                    shares_ref(&before.shares), &before.users, net0, net1, added_work(work0, work1), accepted)
            &&& work1.take(work0.len() as int) =~= work0
            &&& after.downloads == before.downloads
        },
        _ => true,
    }
}

/// The names of the users of a room.
pub open spec fn usernames_of(users: Seq<UserData>) -> Seq<Seq<char>> {
    users.map_values(|u: UserData| u.username@)
}

impl ClientCore {
    /// The parts keep their own invariants.
    pub open spec fn wf(&self) -> bool {
        &&& self.users.wf()
        &&& self.downloads.wf()
        &&& self.uploads.wf()
        &&& self.session.wf()
        &&& self.shares matches Some(ix) ==> ix.wf()
    }

    /// Requests for our shared files wait while the shares are scanned.
    pub open spec fn awaiting_share_index(&self) -> bool {
        self.shares is None && self.scan_running
    }

    /// A user whose searches are not answered: banned, or denied uploads.
    pub open spec fn blocked(&self, username: Seq<char>) -> bool {
        self.users.banned().contains(username) || (self.users.restriction_of(username) matches Some(
            Restriction::Denied { .. },
        ))
    }

    /// The files a search of `term` from `username` is answered with.
    pub open spec fn search_answer(&self, username: Seq<char>, term: Seq<char>) -> Seq<FileView> {
        match self.shares {
            Some(ix) => if self.blocked(username) || (vstd::utf8::encode_utf8(term).len() as usize) < self.config.min_search_chars {
                Seq::empty()
            } else {
                ix.search_view(
                    lowercase_of(term),
                    self.users.buddies().contains(username),
                    self.excluded_phrases@.map_values(|s: String| s@),
                    self.config.max_search_results,
                )
            },
            None => Seq::empty(),
        }
    }

    /// A user searches the network: unless answering searches is off or
    /// the search is our own, the search is noted, and a non-empty answer
    /// is sent to the user with our upload state.
    pub fn respond_to_search(
        &self,
        username: &str,
        token: u32,
        search_term: &str,
        net: &mut Vec<NetAction>,
        events: &mut Vec<ClientEvent>,
    )
        requires
            self.wf(),
        ensures
            search_responded(*self, username@, token, search_term@, old(net)@, final(net)@, old(events)@, final(events)@),
    {
        let term_bytes = search_term.len();
        assert(search_term.spec_bytes() =~= vstd::utf8::encode_utf8(search_term@));
        assert(term_bytes == (vstd::utf8::encode_utf8(search_term@).len() as usize));
        if !self.config.respond_to_searches {
            return;
        }
        if text_eq(username, self.config.username.as_str()) {
            return;
        }
        let blocked = self.users.is_banned(username) || match self.users.restriction(username) {
            Some(Restriction::Denied { .. }) => true,
            _ => false,
        };
        let results: Vec<FileInfo> = match &self.shares {
            Some(ix) => if blocked {
                Vec::new()
            } else {
                ix.search_limited(
                    search_term,
                    self.users.is_buddy(username),
                    self.excluded_phrases.as_slice(),
                    self.config.max_search_results,
                    self.config.min_search_chars,
                )
            },
            None => Vec::new(),
        };
        proof {
            assert(files_view(results@).len() == results@.len());
        }
        let matched = results.len() > 0;
        events.push(
            ClientEvent::Observed(
                Observation::SearchSeen {
                    username: username.to_owned(),
                    query: search_term.to_owned(),
                    matched,
                },
            ),
        );
        if !matched {
            return;
        }
        let free = self.uploads.is_new_upload_accepted();
        let queue_size = self.uploads.queue_size();
        net.push(
            NetAction::Peer {
                username: username.to_owned(),
                message: PeerMessage::FileSearchResponse {
                    username: self.config.username.clone(),
                    token,
                    results,
                    free_upload_slots: free,
                    upload_speed: self.uploads.avg_speed(),
                    queue_size,
                    unknown: 0,
                    private_results: Vec::new(),
                },
            },
        );
    }

    /// Plans the next wishlist search: one interval from now when logged
    /// in with wishes, else none.
    pub fn schedule_wishlist(&mut self, now_ms: u64)
        ensures
            final(self).wishlist_at == if old(self).session.logged_in && old(self).wishlist_terms@.len()
                > 0 {
                Some(
                    if now_ms + old(self).wishlist_interval_secs * 1000 > u64::MAX {
                        u64::MAX
                    } else {
                        (now_ms + old(self).wishlist_interval_secs * 1000) as u64
                    },
                )
            } else {
                None
            },
            *final(self) == (ClientCore { wishlist_at: final(self).wishlist_at, ..*old(self) }),
    {
        self.wishlist_at = if self.session.logged_in && self.wishlist_terms.len() > 0 {
            let interval_ms = if self.wishlist_interval_secs > u64::MAX / 1000 {
                u64::MAX
            } else {
                self.wishlist_interval_secs * 1000
            };
            Some(now_ms.saturating_add(interval_ms))
        } else {
            None
        };
    }

    /// Starts a search of ours: it is noted and reported, and its term,
    /// cleaned of lone dashes, goes to the server for everybody, for a
    /// room, for each buddy or for one user.
    pub fn start_search(&mut self, token: u32, query: String, scope: SearchScope, events: &mut Vec<ClientEvent>) -> (requests: Vec<ServerRequest>)
        ensures
            final(self).searches@ == old(self).searches@.insert(token),
            *final(self) == (ClientCore { searches: final(self).searches, ..*old(self) }),
            final(events)@ == old(events)@.push(ClientEvent::SearchStarted { token, query }),
            ({
                let term = sanitized(query@);
                match scope {
                    SearchScope::Global => requests@.len() == 1 && (requests@[0] matches ServerRequest::FileSearch {
                        token: t,
                        search_term,
                    } && t == token && search_term@ == term),
                    SearchScope::Room(room) => requests@.len() == 1 && (requests@[0] matches ServerRequest::RoomSearch {
                        room: r,
                        token: t,
                        search_term,
                    } && r == room && t == token && search_term@ == term),
                    SearchScope::User(user) => requests@.len() == 1 && (requests@[0] matches ServerRequest::UserSearch {
                        search_username: u,
                        token: t,
                        search_term,
                    } && u == user && t == token && search_term@ == term),
                    SearchScope::Buddies => requests@.len() == old(self).users.buddy_names().len() && forall|i: int|
                        0 <= i < requests@.len() ==> (#[trigger] requests@[i] matches ServerRequest::UserSearch {
                            search_username: u,
                            token: t,
                            search_term,
                        } && u@ == old(self).users.buddy_names()[i] && t == token && search_term@ == term),
                }
            }),
    {
        self.searches.add(token);
        let search_term = sanitize_search_term(query.as_str());
        events.push(ClientEvent::SearchStarted { token, query });
        let mut requests: Vec<ServerRequest> = Vec::new();
        match scope {
            SearchScope::Global => {
                requests.push(ServerRequest::FileSearch { token, search_term });
            },
            SearchScope::Room(room) => {
                requests.push(ServerRequest::RoomSearch { room, token, search_term });
            },
            SearchScope::User(user) => {
                requests.push(ServerRequest::UserSearch { search_username: user, token, search_term });
            },
            SearchScope::Buddies => {
                let buddies = self.users.buddy_list();
                let mut i: usize = 0;
                while i < buddies.len()
                    invariant
                        i <= buddies@.len(),
                        names_of(buddies@) == self.users.buddy_names(),
                        search_term@ == sanitized(query@),
                        requests@.len() == i,
                        forall|j: int|
                            0 <= j < i ==> (#[trigger] requests@[j] matches ServerRequest::UserSearch {
                                search_username: u,
                                token: t,
                                search_term: st,
                            } && u@ == self.users.buddy_names()[j] && t == token && st@ == search_term@),
                    decreases buddies@.len() - i,
                {
                    requests.push(ServerRequest::UserSearch {
                        search_username: buddies[i].clone(),
                        token,
                        search_term: search_term.clone(),
                    });
                    i = i + 1;
                }
            },
        }
        requests
    }

    /// A wish is kept once; the first one plans the wishlist searches.
    pub fn add_wish(&mut self, term: String, now_ms: u64)
        ensures
            names_of(final(self).wishlist_terms@) == if names_of(old(self).wishlist_terms@).contains(term@) {
                names_of(old(self).wishlist_terms@)
            } else {
                names_of(old(self).wishlist_terms@).push(term@)
            },
            !names_of(old(self).wishlist_terms@).contains(term@) && old(self).wishlist_at is None ==> final(self).wishlist_at
                == if old(self).session.logged_in {
                Some(
                    if now_ms + old(self).wishlist_interval_secs * 1000 > u64::MAX {
                        u64::MAX
                    } else {
                        (now_ms + old(self).wishlist_interval_secs * 1000) as u64
                    },
                )
            } else {
                None
            },
            !(!names_of(old(self).wishlist_terms@).contains(term@) && old(self).wishlist_at is None) ==> final(self).wishlist_at == old(self).wishlist_at,
            *final(self) == (ClientCore { wishlist_terms: final(self).wishlist_terms, wishlist_at: final(self).wishlist_at, ..*old(self) }),
    {
        if contains_name(&self.wishlist_terms, term.as_str()) {
            proof {
                assert(names_of(self.wishlist_terms@).contains(term@));
            }
            return;
        }
        proof {
            assert(!names_of(self.wishlist_terms@).contains(term@));
        }
        let ghost before = self.wishlist_terms@;
        self.wishlist_terms.push(term);
        proof {
            assert(names_of(self.wishlist_terms@) =~= names_of(before).push(self.wishlist_terms@.last()@));
        }
        if self.wishlist_at.is_none() {
            self.schedule_wishlist(now_ms);
        }
    }

    /// A wish is dropped; with none left no wishlist search is planned.
    pub fn remove_wish(&mut self, term: &str)
        ensures
            names_of(final(self).wishlist_terms@) == names_of(old(self).wishlist_terms@).filter(|w: Seq<char>| w != term@),
            final(self).wishlist_at == if names_of(final(self).wishlist_terms@).len() == 0 {
                None
            } else {
                old(self).wishlist_at
            },
            *final(self) == (ClientCore { wishlist_terms: final(self).wishlist_terms, wishlist_at: final(self).wishlist_at, ..*old(self) }),
    {
        let ghost old_names = names_of(self.wishlist_terms@);
        let mut kept: Vec<String> = Vec::new();
        let mut i: usize = 0;
        while i < self.wishlist_terms.len()
            invariant
                i <= self.wishlist_terms@.len(),
                old_names == names_of(self.wishlist_terms@),
                names_of(kept@) == old_names.take(i as int).filter(|w: Seq<char>| w != term@),
            decreases self.wishlist_terms@.len() - i,
        {
            proof {
                assert(old_names.take(i + 1) =~= old_names.take(i as int).push(old_names[i as int]));
                old_names.take(i as int).lemma_filter_push(old_names[i as int], |w: Seq<char>| w != term@);
            }
            if !text_eq(self.wishlist_terms[i].as_str(), term) {
                let ghost k0 = kept@;
                kept.push(self.wishlist_terms[i].clone());
                proof {
                    assert(names_of(kept@) =~= names_of(k0).push(old_names[i as int]));
                }
            }
            i = i + 1;
        }
        proof {
            assert(old_names.take(old_names.len() as int) =~= old_names);
        }
        self.wishlist_terms = kept;
        if self.wishlist_terms.len() == 0 {
            self.wishlist_at = None;
        }
    }

    /// Searches for the next wish: it is noted as our search, reported, and
    /// sent (cleaned of lone dashes) with `token`; the next wishlist search
    /// is then planned.  With no wishes nothing is searched and none is
    /// planned.
    pub fn do_wishlist_search(&mut self, token: u32, now_ms: u64, events: &mut Vec<ClientEvent>) -> (request: Option<ServerRequest>)
        ensures
            old(self).wishlist_terms@.len() == 0 ==> request is None && final(events)@ == old(events)@
                && *final(self) == (ClientCore { wishlist_at: None, ..*old(self) }),
            old(self).wishlist_terms@.len() > 0 ==> {
                let wish = old(self).wishlist_terms@[(old(self).wishlist_cursor as int) % (old(self).wishlist_terms@.len() as int)];
                &&& request matches Some(ServerRequest::WishlistSearch { token: t, search_term })
                    && t == token && search_term@ == sanitized(wish@)
                &&& final(events)@.len() == old(events)@.len() + 1
                &&& final(events)@.drop_last() == old(events)@
                &&& final(events)@.last() matches ClientEvent::SearchStarted { token: t, query }
                    && t == token && query@ == wish@
                &&& final(self).searches@ == old(self).searches@.insert(token)
                &&& final(self).wishlist_cursor == if old(self).wishlist_cursor == usize::MAX {
                    0
                } else {
                    (old(self).wishlist_cursor + 1) as usize
                }
                &&& final(self).wishlist_at == if old(self).session.logged_in {
                    Some(
                        if now_ms + old(self).wishlist_interval_secs * 1000 > u64::MAX {
                            u64::MAX
                        } else {
                            (now_ms + old(self).wishlist_interval_secs * 1000) as u64
                        },
                    )
                } else {
                    None
                }
                &&& *final(self) == (ClientCore {
                    searches: final(self).searches,
                    wishlist_cursor: final(self).wishlist_cursor,
                    wishlist_at: final(self).wishlist_at,
                    ..*old(self)
                })
            },
    {
        let n = self.wishlist_terms.len();
        if n == 0 {
            self.wishlist_at = None;
            return None;
        }
        let wish = self.wishlist_terms[self.wishlist_cursor % n].clone();
        self.wishlist_cursor = if self.wishlist_cursor == usize::MAX {
            0
        } else {
            self.wishlist_cursor + 1
        };
        self.searches.add(token);
        let search_term = sanitize_search_term(wish.as_str());
        events.push(ClientEvent::SearchStarted { token, query: wish });
        self.schedule_wishlist(now_ms);
        Some(ServerRequest::WishlistSearch { token, search_term })
    }

    /// Acts on one server message: keeps what it tells of users, answers
    /// searches, acknowledges private messages, and reports what the user
    /// interface shows.
    pub fn handle_server_message(
        &mut self,
        message: ServerResponse,
        now_ms: u64,
        net: &mut Vec<NetAction>,
        events: &mut Vec<ClientEvent>,
    )
        requires
            old(self).wf(),
        ensures
            final(self).wf(),
            relay_event(message) is Some ==> *final(self) == *old(self) && final(net)@ == old(net)@
                && final(events)@ == old(events)@.push(relay_event(message)->0),
            ignored_message(message) ==> *final(self) == *old(self) && final(net)@ == old(net)@
                && final(events)@ == old(events)@,
            message matches ServerResponse::JoinRoom { room, users, .. } ==> final(events)@.len()
                == old(events)@.len() + 1 && (final(events)@.last() matches ClientEvent::RoomJoined {
                room: r,
                users: names,
            } && r == room && names@.map_values(|s: String| s@) == usernames_of(users@))
                && final(net)@ == old(net)@,
            message matches ServerResponse::GetUserStatus { user, status, privileged } ==> {
                &&& final(events)@ == old(events)@.push(
                    ClientEvent::UserStatus {
                        username: user,
                        status: UserStatus::spec_from_u32(status),
                        privileged,
                    },
                )
                &&& Users::status_effect(old(self).users, final(self).users, user@, status, privileged)
                &&& status != 2 ==> final(self).downloads.transfers() == old(self).downloads.transfers()
                &&& status == 2 ==> final(self).downloads.transfers().dom() == old(self).downloads.transfers().dom()
                    && forall|k: KeyView| #[trigger] old(self).downloads.transfers().contains_key(k)
                        ==> final(self).downloads.transfers()[k] == if Downloads::failed_offline(
                        old(self).downloads.transfers()[k],
                        user@,
                    ) {
                        let e = old(self).downloads.transfers()[k];
                        (e.0, e.1, e.2, Transfer { phase: TransferPhase::Queued, retry_attempt: false, ..e.3 })
                    } else {
                        old(self).downloads.transfers()[k]
                    }
            },
            message matches ServerResponse::WatchUser { user, user_exists, status, stats, .. } ==> {
                &&& final(events)@ == old(events)@.push(
                    ClientEvent::WatchedUser {
                        username: user,
                        exists: user_exists,
                        status: match status {
                            Some(s) => UserStatus::spec_from_u32(s),
                            None => None,
                        },
                        stats,
                    },
                )
                &&& Users::watch_effect(old(self).users, final(self).users, user@, user_exists, status, stats)
            },
            message matches ServerResponse::GetUserStats { user, stats } ==> final(events)@ == old(events)@.push(ClientEvent::UserStats { username: user, stats })
                && Users::stats_effect(old(self).users, final(self).users, user@, stats) && final(net)@ == old(net)@,
            message matches ServerResponse::FileSearch { search_username, token, search_term } ==> *final(self) == *old(self)
                && search_responded(*old(self), search_username@, token, search_term@, old(net)@, final(net)@, old(events)@, final(events)@),
            message matches ServerResponse::PrivilegedUsers { users } ==> final(self).users.privileged_list() == name_set(users@) && final(events)@ == old(events)@,
            message matches ServerResponse::ExcludedSearchPhrases { phrases } ==> final(self).excluded_phrases@.map_values(|s: String| s@) == phrases@.map_values(
                |s: String| lowercase_of(s@),
            ),
            message matches ServerResponse::WishlistInterval { seconds } ==> final(self).wishlist_interval_secs == if seconds < 1 {
                1
            } else {
                seconds as u64
            },
            message matches ServerResponse::MessageUser { message_id, timestamp, user, message: text, .. } ==> {
                &&& final(net)@ == old(net)@.push(
                    NetAction::Server(ServerRequest::MessageAcked { message_id }),
                )
                &&& old(self).users.ignored().contains(user@) ==> final(events)@ == old(events)@
                &&& !old(self).users.ignored().contains(user@) ==> final(events)@ == old(events)@.push(ClientEvent::PrivateMessage { username: user, message: text, timestamp })
            },
            message matches ServerResponse::SayChatroom { room, user, message: text } ==> {
                &&& final(net)@ == old(net)@
                &&& old(self).users.ignored().contains(user@) ==> final(events)@ == old(events)@
                &&& !old(self).users.ignored().contains(user@) ==> final(events)@ == old(events)@.push(ClientEvent::RoomMessage { room, username: user, message: text })
            },
    {
        match message {
            ServerResponse::GetUserStatus { user, status, privileged } => {
                self.users.handle_user_status(user.as_str(), status, privileged);
                if status == 2 {
                    let defer = self.shares.is_none() && self.scan_running;
                    self.downloads.retry_offline(user.as_str(), defer, net);
                }
                events.push(
                    ClientEvent::UserStatus {
                        username: user,
                        status: UserStatus::from_u32(status),
                        privileged,
                    },
                );
            },
            ServerResponse::WatchUser { user, user_exists, status, stats, country: _ } => {
                self.users.handle_watch_user(user.as_str(), user_exists, status, stats);
                let shown = match status {
                    Some(s) => UserStatus::from_u32(s),
                    None => None,
                };
                events.push(
                    ClientEvent::WatchedUser { username: user, exists: user_exists, status: shown, stats },
                );
            },
            ServerResponse::GetUserStats { user, stats } => {
                self.users.handle_user_stats(user.as_str(), stats);
                events.push(ClientEvent::UserStats { username: user, stats });
            },
            ServerResponse::PrivilegedUsers { users } => {
                self.users.handle_privileged_users(users);
            },
            ServerResponse::FileSearch { search_username, token, search_term } => {
                self.respond_to_search(search_username.as_str(), token, search_term.as_str(), net, events);
            },
            ServerResponse::ExcludedSearchPhrases { phrases } => {
                let mut lowered: Vec<String> = Vec::new();
                let mut i: usize = 0;
                while i < phrases.len()
                    invariant
                        i <= phrases@.len(),
                        lowered@.map_values(|s: String| s@) == phrases@.map_values(
                            |s: String| lowercase_of(s@),
                        ).take(i as int),
                    decreases phrases@.len() - i,
                {
                    let ghost before = lowered@.map_values(|s: String| s@);
                    lowered.push(lowercase(phrases[i].as_str()));
                    proof {
                        assert(lowered@.map_values(|s: String| s@) =~= before.push(
                            lowercase_of(phrases@[i as int]@),
                        ));
                        assert(phrases@.map_values(|s: String| lowercase_of(s@)).take(i + 1)
                            =~= phrases@.map_values(|s: String| lowercase_of(s@)).take(i as int).push(
                            lowercase_of(phrases@[i as int]@),
                        ));
                    }
                    i = i + 1;
                }
                proof {
                    assert(phrases@.map_values(|s: String| lowercase_of(s@)).take(i as int)
                        =~= phrases@.map_values(|s: String| lowercase_of(s@)));
                }
                self.excluded_phrases = lowered;
            },
            ServerResponse::WishlistInterval { seconds } => {
                self.wishlist_interval_secs = if seconds < 1 {
                    1
                } else {
                    seconds as u64
                };
                self.schedule_wishlist(now_ms);
            },
            ServerResponse::MessageUser { message_id, timestamp, user, message, .. } => {
                net.push(NetAction::Server(ServerRequest::MessageAcked { message_id }));
                if !self.users.is_ignored(user.as_str()) {
                    events.push(ClientEvent::PrivateMessage { username: user, message, timestamp });
                }
            },
            ServerResponse::SayChatroom { room, user, message } => {
                if !self.users.is_ignored(user.as_str()) {
                    events.push(ClientEvent::RoomMessage { room, username: user, message });
                }
            },
            ServerResponse::JoinRoom { room, users, .. } => {
                let mut names: Vec<String> = Vec::new();
                let mut i: usize = 0;
                while i < users.len()
                    invariant
                        i <= users@.len(),
                        names@.map_values(|s: String| s@) == usernames_of(users@).take(i as int),
                    decreases users@.len() - i,
                {
                    let ghost before = names@.map_values(|s: String| s@);
                    names.push(users[i].username.clone());
                    proof {
                        assert(names@.map_values(|s: String| s@) =~= before.push(users@[i as int].username@));
                        assert(usernames_of(users@).take(i + 1) =~= usernames_of(users@).take(i as int).push(
                            users@[i as int].username@,
                        ));
                    }
                    i = i + 1;
                }
                proof {
                    assert(usernames_of(users@).take(i as int) =~= usernames_of(users@));
                }
                events.push(ClientEvent::RoomJoined { room, users: names });
            },
            ServerResponse::RoomList { rooms, .. } => {
                events.push(ClientEvent::RoomList { rooms });
            },
            ServerResponse::LeaveRoom { room } => {
                events.push(ClientEvent::RoomLeft { room });
            },
            ServerResponse::UserJoinedRoom { room, userdata } => {
                events.push(ClientEvent::RoomUserJoined { room, username: userdata.username });
            },
            ServerResponse::UserLeftRoom { room, username } => {
                events.push(ClientEvent::RoomUserLeft { room, username });
            },
            ServerResponse::UserInterests { user, likes, hates } => {
                events.push(ClientEvent::UserInterests { username: user, liked: likes, hated: hates });
            },
            ServerResponse::Recommendations { recommendations, unrecommendations } => {
                events.push(ClientEvent::Recommendations { recommendations, unrecommendations });
            },
            ServerResponse::GlobalRecommendations { recommendations, unrecommendations } => {
                events.push(ClientEvent::GlobalRecommendations { recommendations, unrecommendations });
            },
            ServerResponse::ItemRecommendations { thing, recommendations, unrecommendations } => {
                events.push(
                    ClientEvent::ItemRecommendations { thing, recommendations, unrecommendations },
                );
            },
            ServerResponse::SimilarUsers { users } => {
                events.push(ClientEvent::SimilarUsers(users));
            },
            ServerResponse::ItemSimilarUsers { thing, usernames } => {
                events.push(ClientEvent::ItemSimilarUsers { thing, usernames });
            },
            ServerResponse::CheckPrivileges { seconds } => {
                events.push(ClientEvent::Privileges { seconds });
            },
            ServerResponse::AdminMessage { msg } => {
                events.push(ClientEvent::AdminMessage { message: msg });
            },
            _ => {},
        }
    }
}

impl ClientCore {
    /// Acts on one message from a peer.  While the shares are scanned,
    /// requests for shared files are held back (one per user and file, up
    /// to a limit).  Otherwise search results are passed on for our
    /// searches, transfer messages go to the downloads or uploads, share
    /// lists and user info are passed on, and requests for our shares or
    /// our info are answered.
    pub fn handle_peer_message(
        &mut self,
        username: String,
        message: PeerMessage,
        now_ms: u64,
        now_ns: u64,
        net: &mut Vec<NetAction>,
        events: &mut Vec<ClientEvent>,
        work: &mut Vec<TransferWork>,
    )
        requires
            old(self).wf(),
            old(self).uploads.room(),
            old(self).ids@ < u64::MAX,
        ensures
            final(self).wf(),
            (old(self).awaiting_share_index() && deferred_file(message) is Some && old(self).pending.held().len() < PENDING_REQUEST_LIMIT) ==> {
                &&& final(net)@ == old(net)@
                &&& final(events)@ == old(events)@
                &&& final(work)@ == old(work)@
                &&& final(self).downloads == old(self).downloads
                &&& final(self).uploads == old(self).uploads
            },
            !(old(self).awaiting_share_index() && deferred_file(message) is Some) ==> {
                &&& message matches PeerMessage::FileSearchResponse { .. } ==> search_reply_passed(*old(self), *final(self), username, message, old(net)@, final(net)@, old(events)@, final(events)@, old(work)@, final(work)@)
                &&& transfer_message_handled(*old(self), *final(self), username, message, now_ms, old(net)@, final(net)@, old(events)@, final(events)@, old(work)@, final(work)@)
                &&& message matches PeerMessage::SharedFileListResponse { .. } ==> final(net)@
                    == old(net)@.push(NetAction::DisallowSharedListUser(username)) && final(events)@.len()
                    == old(events)@.len() + 1
                &&& message matches PeerMessage::UserInfoResponse { .. } ==> final(net)@ == old(net)@.push(NetAction::DisallowUserInfoUser(username)) && final(events)@.len() == old(events)@.len() + 1
                &&& message is UserInfoRequest ==> final(events)@.len() == old(events)@.len() + 1
                    && final(net)@.len() == old(net)@.len() + 1 && (final(net)@.last() matches NetAction::Peer {
                    username: u,
                    message: PeerMessage::UserInfoResponse {
                        description,
                        picture: None,
                        total_uploads,
                        queue_size,
                        slots_available,
                        upload_allowed: Some(0),
                    },
                } && u == username && description@ == old(self).config.description@
                    && total_uploads == old(self).uploads.slots() as u32 && queue_size == old(self).uploads.queued().len() as u32 && slots_available == (old(self).uploads.tokens().dom().len() < old(self).uploads.slots()))
                &&& message matches PeerMessage::FolderContentsRequest { token, directory, .. } ==> final(net)@.len() == old(net)@.len() + 1 && (final(net)@.last() matches NetAction::Peer {
                    username: u,
                    message: PeerMessage::FolderContentsResponse { token: t, directory: d, folders },
                } && u == username && t == token && d == directory && (match old(self).shares {
                    Some(ix) => if old(self).users.banned().contains(username@) {
                        folders@.len() == 0
                    } else {
                        match ix.folder_at(directory@) {
                            Some(i) => if ix.folder_list()[i as int].buddy_only && !old(self).users.buddies().contains(username@) {
                                folders@.len() == 0
                            } else {
                                crate::protocol::listing::folders_view(folders@) == seq![
                                    crate::client::shares::index::scanned_view(ix.folder_list()[i as int]),
                                ]
                            },
                            None => folders@.len() == 0,
                        }
                    },
                    None => folders@.len() == 0,
                }))
                &&& message is SharedFileListRequest ==> final(net)@.len() == old(net)@.len() + 1
                    && (final(net)@.last() matches NetAction::Peer {
                    username: u,
                    message: PeerMessage::SharedFileListResponse { shares, unknown: 0, private_shares },
                } && u == username && private_shares@.len() == 0 && (match old(self).shares {
                    Some(ix) => if old(self).users.banned().contains(username@) {
                        shares@.len() == 0
                    } else {
                        crate::protocol::listing::folders_view(shares@) == crate::protocol::listing::stable_sort_by_key(
                            crate::client::shares::index::visible_folders(
                                ix.folder_list(),
                                old(self).users.buddies().contains(username@),
                            ),
                            crate::protocol::listing::folder_dir_key(),
                        )
                    },
                    None => shares@.len() == 0,
                }))
            },
    {
        if self.shares.is_none() && self.scan_running {
            let deferrable = match crate::client::requests::deferrable_path(&message) {
                Some(_) => true,
                None => false,
            };
            if deferrable {
                match self.pending.defer(username, message) {
                    None => {
                        return;
                    },
                    Some((u, m)) => {
                        self.handle_request_now(u, m, now_ms, now_ns, net, events, work);
                        return;
                    },
                }
            }
        }
        self.handle_request_now(username, message, now_ms, now_ns, net, events, work);
    }

    /// Acts on a peer message without holding it back.
    fn handle_request_now(
        &mut self,
        username: String,
        message: PeerMessage,
        now_ms: u64,
        now_ns: u64,
        net: &mut Vec<NetAction>,
        events: &mut Vec<ClientEvent>,
        work: &mut Vec<TransferWork>,
    )
        requires
            old(self).wf(),
            old(self).uploads.room(),
            old(self).ids@ < u64::MAX,
        ensures
            final(self).wf(),
            final(self).pending == old(self).pending,
            message matches PeerMessage::FileSearchResponse { .. } ==> search_reply_passed(*old(self), *final(self), username, message, old(net)@, final(net)@, old(events)@, final(events)@, old(work)@, final(work)@),
            transfer_message_handled(*old(self), *final(self), username, message, now_ms, old(net)@, final(net)@, old(events)@, final(events)@, old(work)@, final(work)@),
            message matches PeerMessage::SharedFileListResponse { .. } ==> final(net)@ == old(net)@.push(NetAction::DisallowSharedListUser(username)) && final(events)@.len() == old(events)@.len() + 1,
            message matches PeerMessage::UserInfoResponse { .. } ==> final(net)@ == old(net)@.push(
                NetAction::DisallowUserInfoUser(username),
            ) && final(events)@.len() == old(events)@.len() + 1,
            message is UserInfoRequest ==> final(events)@.len() == old(events)@.len() + 1 && final(net)@.len() == old(net)@.len() + 1 && (final(net)@.last() matches NetAction::Peer {
                username: u,
                message: PeerMessage::UserInfoResponse {
                    description,
                    picture: None,
                    total_uploads,
                    queue_size,
                    slots_available,
                    upload_allowed: Some(0),
                },
            } && u == username && description@ == old(self).config.description@ && total_uploads
                == old(self).uploads.slots() as u32 && queue_size == old(self).uploads.queued().len() as u32
                && slots_available == (old(self).uploads.tokens().dom().len() < old(self).uploads.slots())),
            message matches PeerMessage::FolderContentsRequest { token, directory, .. } ==> final(net)@.len() == old(net)@.len() + 1 && (final(net)@.last() matches NetAction::Peer {
                username: u,
                message: PeerMessage::FolderContentsResponse { token: t, directory: d, folders },
            } && u == username && t == token && d == directory && (match old(self).shares {
                Some(ix) => if old(self).users.banned().contains(username@) {
                    folders@.len() == 0
                } else {
                    match ix.folder_at(directory@) {
                        Some(i) => if ix.folder_list()[i as int].buddy_only && !old(self).users.buddies().contains(username@) {
                            folders@.len() == 0
                        } else {
                            crate::protocol::listing::folders_view(folders@) == seq![
                                crate::client::shares::index::scanned_view(ix.folder_list()[i as int]),
                            ]
                        },
                        None => folders@.len() == 0,
                    }
                },
                None => folders@.len() == 0,
            })),
            message is SharedFileListRequest ==> final(net)@.len() == old(net)@.len() + 1 && (final(net)@.last() matches NetAction::Peer {
                username: u,
                message: PeerMessage::SharedFileListResponse { shares, unknown: 0, private_shares },
            } && u == username && private_shares@.len() == 0 && (match old(self).shares {
                Some(ix) => if old(self).users.banned().contains(username@) {
                    shares@.len() == 0
                } else {
                    crate::protocol::listing::folders_view(shares@) == crate::protocol::listing::stable_sort_by_key(
                        crate::client::shares::index::visible_folders(
                            ix.folder_list(),
                            old(self).users.buddies().contains(username@),
                        ),
                        crate::protocol::listing::folder_dir_key(),
                    )
                },
                None => shares@.len() == 0,
            })),
    {
        let defer = self.shares.is_none() && self.scan_running;
        match message {
            PeerMessage::FileSearchResponse {
                token,
                results,
                free_upload_slots,
                upload_speed,
                queue_size,
                ..
            } => {
                if self.searches.contains(token) && !self.users.is_ignored(username.as_str()) {
                    events.push(
                        ClientEvent::SearchResults(
                            SearchResult {
                                token,
                                username,
                                results,
                                free_upload_slots,
                                upload_speed,
                                queue_size,
                            },
                        ),
                    );
                }
            },
            PeerMessage::TransferRequest { direction, token, file, filesize } => {
                match direction {
                    TransferDirection::Upload => {
                        self.downloads.handle_transfer_request(
                            username.as_str(),
                            token,
                            file.as_str(),
                            filesize,
                            now_ms,
                            net,
                        );
                    },
                    TransferDirection::Download => {
                        let (mut updates, accepted) = self.uploads.handle_legacy_transfer_request(
                            &mut self.ids,
                            username.as_str(),
                            token,
                            file.as_str(),
                            self.shares.as_ref(),
                            &self.users,
                            now_ns,
                            net,
                        );
                        events.push(
                            ClientEvent::Observed(
                                Observation::QueueRequest { username, virtual_path: file, accepted },
                            ),
                        );
                        let ghost u = updates@;
                let ghost w0 = work@;
                work.append(&mut updates);
                proof {
                    assert(work@.skip(w0.len() as int) =~= u);
                    assert(work@.take(w0.len() as int) =~= w0);
                }
                    },
                }
            },
            PeerMessage::TransferResponse { token, allowed, reason, .. } => {
                let r = match &reason {
                    Some(text) => Some(text.as_str()),
                    None => None,
                };
                let mut updates = self.uploads.handle_transfer_response(
                    username.as_str(),
                    token,
                    allowed,
                    r,
                    &self.users,
                    now_ns,
                    net,
                );
                let ghost u = updates@;
                let ghost w0 = work@;
                work.append(&mut updates);
                proof {
                    assert(work@.skip(w0.len() as int) =~= u);
                    assert(work@.take(w0.len() as int) =~= w0);
                }
            },
            PeerMessage::UploadDenied { file, reason } => {
                let mut updates = self.downloads.handle_upload_denied(
                    username.as_str(),
                    file.as_str(),
                    reason.as_str(),
                    defer,
                    net,
                );
                let ghost u = updates@;
                let ghost w0 = work@;
                work.append(&mut updates);
                proof {
                    assert(work@.skip(w0.len() as int) =~= u);
                    assert(work@.take(w0.len() as int) =~= w0);
                }
            },
            PeerMessage::UploadFailed { file } => {
                let mut updates = self.downloads.handle_upload_failed(
                    username.as_str(),
                    file.as_str(),
                    defer,
                    net,
                );
                let ghost u = updates@;
                let ghost w0 = work@;
                work.append(&mut updates);
                proof {
                    assert(work@.skip(w0.len() as int) =~= u);
                    assert(work@.take(w0.len() as int) =~= w0);
                }
            },
            PeerMessage::PlaceInQueueResponse { filename, place } => {
                let placed = self.downloads.queue_place(username.as_str(), filename.as_str(), place);
                let ghost w0 = work@;
                if let Some(update) = placed {
                    work.push(update);
                }
                proof {
                    assert(work@.take(w0.len() as int) =~= w0);
                }
            },
            PeerMessage::PlaceInQueueRequest { file, .. } => {
                if self.uploads.queue_len() < 0xffff_ffff {
                    self.uploads.handle_place_in_queue_request(username.as_str(), file.as_str(), net);
                }
            },
            PeerMessage::SharedFileListResponse { shares, private_shares, .. } => {
                net.push(NetAction::DisallowSharedListUser(username.clone()));
                events.push(ClientEvent::SharedFileList { username, shares, private_shares });
            },
            PeerMessage::UserInfoResponse {
                description,
                picture,
                total_uploads,
                queue_size,
                slots_available,
                ..
            } => {
                net.push(NetAction::DisallowUserInfoUser(username.clone()));
                events.push(
                    ClientEvent::UserInfo(
                        UserInfoReceived {
                            username,
                            description,
                            picture,
                            total_uploads,
                            queue_size,
                            slots_available,
                        },
                    ),
                );
            },
            PeerMessage::SharedFileListRequest => {
                events.push(
                    ClientEvent::Observed(Observation::BrowseRequest { username: username.clone() }),
                );
                let shares = match &self.shares {
                    Some(ix) => if self.users.is_banned(username.as_str()) {
                        Vec::new()
                    } else {
                        ix.browse(self.users.is_buddy(username.as_str()))
                    },
                    None => Vec::new(),
                };
                net.push(
                    NetAction::Peer {
                        username,
                        message: PeerMessage::SharedFileListResponse {
                            shares,
                            unknown: 0,
                            private_shares: Vec::new(),
                        },
                    },
                );
            },
            PeerMessage::UserInfoRequest => {
                events.push(
                    ClientEvent::Observed(Observation::UserInfoRequest { username: username.clone() }),
                );
                let total_uploads = self.uploads.total_slots();
                let queue_size = self.uploads.queue_size();
                let slots_available = self.uploads.is_new_upload_accepted();
                net.push(
                    NetAction::Peer {
                        username,
                        message: PeerMessage::UserInfoResponse {
                            description: self.config.description.clone(),
                            picture: None,
                            total_uploads,
                            queue_size,
                            slots_available,
                            upload_allowed: Some(0),
                        },
                    },
                );
            },
            PeerMessage::QueueUpload { file, .. } => {
                let (mut updates, accepted) = self.uploads.handle_queue_upload(
                    &mut self.ids,
                    username.as_str(),
                    file.as_str(),
                    self.shares.as_ref(),
                    &self.users,
                    now_ns,
                    net,
                );
                events.push(
                    ClientEvent::Observed(
                        Observation::QueueRequest { username, virtual_path: file, accepted },
                    ),
                );
                let ghost u = updates@;
                let ghost w0 = work@;
                work.append(&mut updates);
                proof {
                    assert(work@.skip(w0.len() as int) =~= u);
                    assert(work@.take(w0.len() as int) =~= w0);
                }
            },
            PeerMessage::FolderContentsRequest { token, directory, .. } => {
                events.push(
                    ClientEvent::Observed(
                        Observation::FolderContentsRequest { username: username.clone() },
                    ),
                );
                let folders = match &self.shares {
                    Some(ix) => if self.users.is_banned(username.as_str()) {
                        Vec::new()
                    } else {
                        ix.folder_contents(directory.as_str(), self.users.is_buddy(username.as_str()))
                    },
                    None => Vec::new(),
                };
                net.push(
                    NetAction::Peer {
                        username,
                        message: PeerMessage::FolderContentsResponse { token, directory, folders },
                    },
                );
            },
            _ => {},
        }
    }
}

} // verus!
