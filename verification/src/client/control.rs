//! What the user of the client asks for, and what the client does about it.
use vstd::prelude::*;

use crate::client::dispatch::{added_work, ClientCore};
use crate::client::transfers::uploads::Uploads;
use crate::client::event::ClientEvent;
use crate::client::search::SearchScope;
use crate::client::transfers::downloads::{asks_queue, watches, Downloads, NetAction};
use crate::client::transfers::registry::KeyView;
use crate::client::users::names_of;
use crate::client::transfers::{AbortResult, EnqueueResult, RetryResult, TransferWork};
use crate::protocol::peer::PeerMessage;
use crate::protocol::server_request::ServerRequest;
use crate::types::{FileAttributes, Restriction, TransferDirection, TransferId, TransferStatus};

use crate::client::ip_bans::{parsed_patterns, pattern_seq, IpPattern};
verus! {

/// A request of the client's user.
#[derive(Debug)]
pub enum ClientCommand {
    Search { token: u32, query: String, scope: SearchScope },
    CancelSearch { token: u32 },
    Download { username: String, virtual_path: String, size: u64, attributes: FileAttributes },
    RetryDownload { id: TransferId },
    AbortTransfer { direction: TransferDirection, id: TransferId },
    ClearTransfers { direction: TransferDirection, statuses: Vec<TransferStatus> },
    ClearAllTransfers { direction: TransferDirection },
    BrowseUser { username: String },
    RequestUserInfo { username: String },
    AddBuddy { username: String },
    RemoveBuddy { username: String },
    BanUser { username: String },
    UnbanUser { username: String },
    IgnoreUser { username: String },
    UnignoreUser { username: String },
    SetUserRestriction { username: String, restriction: Restriction },
    AddInterest { thing: String, hated: bool },
    RemoveInterest { thing: String, hated: bool },
    AddWish { term: String },
    RemoveWish { term: String },
    /// A request passed to the server as it is.
    Server(ServerRequest),
    /// Transfer rates, in kibibytes per second (0: no limit).
    SetTransferLimits { upload_kbps: u32, download_kbps: u32 },
    /// Address patterns of peers whose connections are refused.
    SetIpBans { patterns: Vec<String> },
    Connect,
    Reconnect,
    Disconnect,
}

/// The answer to a command, for those that have one.
#[derive(Debug, Clone, Copy, PartialEq, Eq, Structural)]
pub enum CommandReply {
    Done,
    Enqueued(EnqueueResult),
    Retried(RetryResult),
    Aborted(AbortResult),
}

/// The results of search `token` are let in first among the actions added.
pub open spec fn search_allowed(before: Seq<NetAction>, after: Seq<NetAction>, token: u32) -> bool {
    after.len() > before.len() && after[before.len() as int] == NetAction::AllowSearchToken(token)
}

/// Appends each request, in order, as an action for the server.
fn push_server_requests(net: &mut Vec<NetAction>, requests: Vec<ServerRequest>)
    ensures
        final(net)@.len() == old(net)@.len() + requests@.len(),
        final(net)@.take(old(net)@.len() as int) == old(net)@,
        forall|i: int| 0 <= i < requests@.len() ==> #[trigger] final(net)@[old(net)@.len() + i] == NetAction::Server(requests@[i]),
{
    let ghost all = requests@;
    let ghost n0 = net@.len();
    let mut rest = requests;
    proof {
        assert(net@.take(n0 as int) =~= old(net)@);
        assert(rest@ =~= all.skip(0));
    }
    while rest.len() > 0
        invariant
            n0 == old(net)@.len(),
            n0 <= net@.len() <= n0 + all.len(),
            rest@ == all.skip(net@.len() - n0),
            net@.take(n0 as int) == old(net)@,
            forall|j: int| 0 <= j < net@.len() - n0 ==> #[trigger] net@[n0 + j] == NetAction::Server(all[j]),
        decreases rest@.len(),
    {
        let ghost before = net@;
        let ghost k = net@.len() - n0;
        let request = rest.remove(0);
        assert(request == all[k]);
        net.push(NetAction::Server(request));
        proof {
            assert(net@.take(n0 as int) =~= before.take(n0 as int));
            assert(rest@ =~= all.skip(k + 1));
            assert forall|j: int| 0 <= j < net@.len() - n0 implies #[trigger] net@[n0 + j] == NetAction::Server(all[j]) by {
                if j < k {
                    assert(net@[n0 + j] == before[n0 + j]);
                }
            }
        }
    }
}

/// The transfers of one direction were cleared (of the listed statuses,
/// or all): the ids removed are reported in one removal, if any.
pub open spec fn cleared(
    before: ClientCore,
    after: ClientCore,
    direction: TransferDirection,
    statuses: Option<Seq<TransferStatus>>,
    work0: Seq<TransferWork>,
    work1: Seq<TransferWork>,
) -> bool {
    let removed = if work1.len() > work0.len() {
        match work1.last() {
            TransferWork::Removed { ids, .. } => ids@,
            _ => Seq::empty(),
        }
    } else {
        Seq::empty()
    };
    &&& work1 =~= work0 || (work1.len() == work0.len() + 1 && work1.take(work0.len() as int) =~= work0
        && (work1.last() matches TransferWork::Removed { direction: d, ids } && d == direction && ids@.len() > 0))
    &&& direction is Download ==> after.uploads == before.uploads && match statuses {
        Some(st) => Downloads::clear_effect(before.downloads, after.downloads, st, removed),
        None => Downloads::clear_all_effect(before.downloads, after.downloads, removed),
    }
    &&& direction is Upload ==> after.downloads == before.downloads && match statuses {
        Some(st) => Uploads::clear_effect(before.uploads, after.uploads, st, removed),
        None => Uploads::clear_all_effect(before.uploads, after.uploads, removed),
    }
}

/// What a command did: the answer, the client before and after, and the
/// actions and events added.
pub open spec fn command_handled(
    command: ClientCommand,
    reply: CommandReply,
    before: ClientCore,
    after: ClientCore,
    net0: Seq<NetAction>,
    net1: Seq<NetAction>,
    ev0: Seq<ClientEvent>,
    ev1: Seq<ClientEvent>,
    work0: Seq<TransferWork>,
    work1: Seq<TransferWork>,
) -> bool {
    &&& command matches ClientCommand::Download { username, virtual_path, size, attributes } ==> (reply matches CommandReply::Enqueued(r)
        && Downloads::enqueue_effect(before.downloads, after.downloads, before.ids@, after.ids@, username@, virtual_path@, size,
            attributes, before.shares is None && before.scan_running, net0, net1, r, added_work(work0, work1)))
        && work1.take(work0.len() as int) =~= work0 && after.uploads == before.uploads
    &&& command matches ClientCommand::RetryDownload { id } ==> (reply matches CommandReply::Retried(r)
        && Downloads::retry_effect(before.downloads, after.downloads, id, r))
        && work1.take(work0.len() as int) =~= work0 && after.uploads == before.uploads
    &&& command matches ClientCommand::AbortTransfer { direction, id } ==> (reply matches CommandReply::Aborted(r)
        && (direction is Download ==> Downloads::abort_effect(before.downloads, after.downloads, id, net0, net1, r, added_work(work0, work1))
            && after.uploads == before.uploads)
        && (direction is Upload ==> Uploads::abort_effect(before.uploads, after.uploads, id, net0, net1, r, added_work(work0, work1))
            && after.downloads == before.downloads))
        && work1.take(work0.len() as int) =~= work0
    &&& command matches ClientCommand::ClearTransfers { direction, statuses } ==> cleared(before, after, direction,
        Some(statuses@), work0, work1)
    &&& command matches ClientCommand::ClearAllTransfers { direction } ==> cleared(before, after, direction, None, work0, work1)
    &&& command is Download ==> reply is Enqueued
    &&& command is RetryDownload ==> reply is Retried
    &&& command is AbortTransfer ==> reply is Aborted
    &&& !(command is Download || command is RetryDownload || command is AbortTransfer) ==> reply
        == CommandReply::Done
    &&& command matches ClientCommand::Search { token, .. } ==> after.searches@
        == before.searches@.insert(token) && ev1.len() == ev0.len() + 1 && search_allowed(net0, net1, token)
    &&& command matches ClientCommand::CancelSearch { token } ==> after.searches@
        == before.searches@.remove(token) && net1 == net0.push(NetAction::DisallowSearchToken(token))
        && ev1 == ev0
    &&& command matches ClientCommand::BrowseUser { username } ==> net1 == net0.push(
        NetAction::AllowSharedListUser(username),
    ).push(NetAction::Peer { username, message: PeerMessage::SharedFileListRequest }) && after == before
    &&& command matches ClientCommand::RequestUserInfo { username } ==> net1 == net0.push(
        NetAction::AllowUserInfoUser(username),
    ).push(NetAction::Peer { username, message: PeerMessage::UserInfoRequest }) && after == before
    &&& command matches ClientCommand::AddBuddy { username } ==> {
        &&& after.users.buddies() == before.users.buddies().insert(username@)
        &&& before.users.buddies().contains(username@) ==> net1 == net0
        &&& !before.users.buddies().contains(username@) ==> net1 == net0.push(
            NetAction::Server(ServerRequest::WatchUser { user: username }),
        )
    }
    &&& command matches ClientCommand::RemoveBuddy { username } ==> {
        &&& after.users.buddies() == before.users.buddies().remove(username@)
        &&& !before.users.buddies().contains(username@) ==> net1 == net0
        &&& before.users.buddies().contains(username@) ==> net1 == net0.push(
            NetAction::Server(ServerRequest::UnwatchUser { user: username }),
        )
    }
    &&& command matches ClientCommand::BanUser { username } ==> after.users.banned()
        == before.users.banned().insert(username@) && net1 == net0
    &&& command matches ClientCommand::UnbanUser { username } ==> after.users.banned()
        == before.users.banned().remove(username@) && net1 == net0
    &&& command matches ClientCommand::IgnoreUser { username } ==> after.users.ignored()
        == before.users.ignored().insert(username@) && net1 == net0
    &&& command matches ClientCommand::UnignoreUser { username } ==> after.users.ignored()
        == before.users.ignored().remove(username@) && net1 == net0
    &&& command matches ClientCommand::SetUserRestriction { username, restriction }
        ==> after.users.restriction_of(username@) == Some(restriction)
    &&& command matches ClientCommand::AddInterest { thing, hated } ==> net1.len() == net0.len() + 1
        && (hated ==> (net1.last() matches NetAction::Server(ServerRequest::AddThingIHate { thing: t })
        && t@ == thing@)) && (!hated ==> (net1.last() matches NetAction::Server(
        ServerRequest::AddThingILike { thing: t },
    ) && t@ == thing@))
    &&& command matches ClientCommand::RemoveInterest { thing, hated } ==> net1.len() == net0.len() + 1
        && (hated ==> (net1.last() matches NetAction::Server(ServerRequest::RemoveThingIHate { thing: t })
        && t@ == thing@)) && (!hated ==> (net1.last() matches NetAction::Server(
        ServerRequest::RemoveThingILike { thing: t },
    ) && t@ == thing@))
    &&& command matches ClientCommand::Server(request) ==> net1 == net0.push(NetAction::Server(request))
        && after == before
    &&& command is Connect ==> after.session.connected && after.session.reconnect_at is None && net1
        == net0.push(NetAction::ServerConnect)
    &&& command is Reconnect ==> after.session.connected && after.session.reconnect_at is None && net1
        == net0.push(
        if before.session.connected {
            NetAction::ServerDisconnect
        } else {
            NetAction::ServerConnect
        },
    ) && (before.session.connected ==> after.session.reconnect_now)
    &&& command is Disconnect ==> after.session.reconnect_at is None && !after.session.reconnect_now
        && net1 == net0.push(NetAction::ServerDisconnect)
    &&& command matches ClientCommand::SetIpBans { patterns } ==> after.users.ip_patterns().map_values(
        |p: IpPattern| pattern_seq(p),
    ) == parsed_patterns(patterns@.map_values(|t: String| t@)) && after.users.buddies() == before.users.buddies()
        && after.users.banned() == before.users.banned() && after.users.ignored() == before.users.ignored()
        && net1 == net0 && ev1 == ev0
    &&& command matches ClientCommand::SetTransferLimits { upload_kbps, download_kbps } ==> after == before
        && ev1 == ev0 && net1 == net0.push(
        NetAction::SetTransferLimits { upload_bps: (upload_kbps * 1024) as u64, download_bps: (download_kbps * 1024) as u64 },
    )
}

impl ClientCore {
    /// Connects to the server.
    pub fn connect(&mut self, net: &mut Vec<NetAction>, events: &mut Vec<ClientEvent>)
        ensures
            final(self).session.connected,
            *final(self) == (ClientCore {
                session: crate::client::session::Session { connected: true, ..old(self).session },
                ..*old(self)
            }),
            final(net)@ == old(net)@.push(NetAction::ServerConnect),
            final(events)@ == old(events)@.push(ClientEvent::Connecting),
    {
        self.session.connected = true;
        events.push(ClientEvent::Connecting);
        net.push(NetAction::ServerConnect);
    }

    /// The server connection ended.  The session is logged out; our
    /// searches are forgotten; downloads and uploads under way are put back
    /// or failed; what the server said of users is forgotten; no wishlist
    /// search is planned.  A reconnection asked for connects again now
    /// (`true`); a connection lost by itself is retried later when the
    /// client reconnects by itself.
    pub fn server_disconnected(
        &mut self,
        manual: bool,
        auto_reconnect: bool,
        now_ms: u64,
        jitter_ms: u64,
        net: &mut Vec<NetAction>,
        events: &mut Vec<ClientEvent>,
        work: &mut Vec<TransferWork>,
    ) -> (connect_now: bool)
        requires
            old(self).wf(),
            old(self).uploads.room(),
        ensures
            final(self).wf(),
            connect_now == old(self).session.reconnect_now,
            !final(self).session.logged_in,
            !final(self).session.reconnect_now,
            final(self).session.connected == connect_now,
            !connect_now && !manual && auto_reconnect ==> final(self).session.reconnect_at is Some,
            final(self).searches@ == Set::<u32>::empty(),
            final(self).wishlist_at is None,
            forall|n: Seq<char>| final(self).users.watched(n) is None,
            final(self).users.privileged_list() == Set::<Seq<char>>::empty(),
            final(self).users.buddies() == old(self).users.buddies(),
            final(self).users.banned() == old(self).users.banned(),
            final(self).users.ignored() == old(self).users.ignored(),
            old(work)@.len() <= final(work)@.len(),
            final(work)@.take(old(work)@.len() as int) == old(work)@,
            exists|d: Seq<TransferWork>, u: Seq<TransferWork>|
                Downloads::reset_effect(old(self).downloads, final(self).downloads, d)
                && Uploads::reset_effect(old(self).uploads, final(self).uploads, u)
                && #[trigger] added_work(old(work)@, final(work)@) == d + u,
            connect_now ==> final(net)@ == old(net)@.push(NetAction::ServerConnect) && final(events)@
                == old(events)@.push(ClientEvent::Connecting).push(ClientEvent::Disconnected),
            !connect_now ==> final(net)@ == old(net)@ && final(events)@ == old(events)@.push(
                ClientEvent::Disconnected,
            ),
    {
        let connect_now = self.session.server_disconnected(manual, auto_reconnect, now_ms, jitter_ms);
        self.searches.clear();
        let ghost w0 = work@;
        let mut downs = self.downloads.reset();
        let ghost d = downs@;
        let mut ups = self.uploads.reset();
        let ghost u = ups@;
        work.append(&mut downs);
        work.append(&mut ups);
        self.users.reset();
        self.wishlist_at = None;
        if connect_now {
            events.push(ClientEvent::Connecting);
            net.push(NetAction::ServerConnect);
        }
        events.push(ClientEvent::Disconnected);
        proof {
            assert(work@.take(w0.len() as int) =~= w0);
            assert(added_work(w0, work@) =~= d + u);
        }
        connect_now
    }

    /// Logged in: the session starts over; the server is asked to watch
    /// each buddy and ourselves, told what we share, like and hate, and
    /// asked for our privileges; queued downloads are asked for again (or
    /// held back while our shares are scanned); the wishlist is planned.
    pub fn logged_in(&mut self, banner: String, now_ms: u64, net: &mut Vec<NetAction>, events: &mut Vec<ClientEvent>)
        requires
            old(self).wf(),
        ensures
            final(self).wf(),
            final(self).session.logged_in,
            final(self).session.reconnect_at is None,
            final(self).session.connected == old(self).session.connected,
            final(self).downloads.transfers() == old(self).downloads.transfers(),
            final(self).users == old(self).users,
            final(self).uploads == old(self).uploads,
            final(events)@.len() == old(events)@.len() + 1,
            final(events)@.drop_last() == old(events)@,
            final(events)@.last() matches ClientEvent::LoggedIn { username: u, banner: b } && u@
                == old(self).config.username@ && b == banner,
            final(self).wishlist_at == if old(self).wishlist_terms@.len() > 0 {
                Some(
                    if now_ms + old(self).wishlist_interval_secs * 1000 > u64::MAX {
                        u64::MAX
                    } else {
                        (now_ms + old(self).wishlist_interval_secs * 1000) as u64
                    },
                )
            } else {
                None
            },
            ({
                let b = old(self).users.buddy_names().len();
                let n0 = old(net)@.len();
                &&& final(net)@.len() >= n0 + b + old(self).interests.liked().len() + old(self).interests.hated().len() + 3
                &&& final(net)@.take(n0 as int) == old(net)@
                &&& forall|i: int| 0 <= i < b ==> (#[trigger] final(net)@[n0 + i] matches NetAction::Server(
                    ServerRequest::WatchUser { user },
                ) && user@ == old(self).users.buddy_names()[i])
                &&& final(net)@[(n0 + b) as int] matches NetAction::Server(ServerRequest::WatchUser { user })
                    && user@ == old(self).config.username@
                &&& final(net)@[(n0 + b + 1) as int] == NetAction::Server(ServerRequest::SharedFoldersFiles {
                    folders: match old(self).shares {
                        Some(ix) => crate::client::shares::index::public_folder_count(ix.folder_list()) as u32,
                        None => 0,
                    },
                    files: match old(self).shares {
                        Some(ix) => crate::client::shares::index::public_file_count(ix.file_list()) as u32,
                        None => 0,
                    },
                })
            }),
            forall|k: KeyView| #[trigger] old(self).downloads.transfers().contains_key(k)
                && old(self).downloads.transfers()[k].3.phase is Queued ==> {
                    &&& watches(final(net)@, k.0)
                    &&& old(self).awaiting_share_index() ==> final(self).downloads.pending().contains(k)
                    &&& !old(self).awaiting_share_index() ==> asks_queue(final(net)@, k, old(self).downloads.transfers()[k].3.legacy_attempt)
                },
    {
        self.session.logged_in();
        let buddies = self.users.buddy_list();
        let ghost n0 = net@.len();
        let ghost names = self.users.buddy_names();
        let mut i: usize = 0;
        proof {
            assert(net@.take(n0 as int) =~= old(net)@);
        }
        while i < buddies.len()
            invariant
                i <= buddies@.len(),
                names_of(buddies@) == names,
                n0 == old(net)@.len(),
                net@.len() == n0 + i,
                net@.take(n0 as int) == old(net)@,
                forall|j: int| 0 <= j < i ==> (#[trigger] net@[n0 + j] matches NetAction::Server(
                    ServerRequest::WatchUser { user },
                ) && user@ == names[j]),
            decreases buddies@.len() - i,
        {
            let ghost before = net@;
            net.push(NetAction::Server(ServerRequest::WatchUser { user: buddies[i].clone() }));
            proof {
                assert(net@.take(n0 as int) =~= before.take(n0 as int));
                assert forall|j: int| 0 <= j < i + 1 implies (#[trigger] net@[n0 + j] matches NetAction::Server(
                    ServerRequest::WatchUser { user },
                ) && user@ == names[j]) by {
                    if j < i {
                        assert(net@[n0 + j] == before[n0 + j]);
                    }
                }
            }
            i = i + 1;
        }
        let (folders, files) = match &self.shares {
            Some(ix) => ix.counts(),
            None => (0, 0),
        };
        let requests = self.interests.login_requests(self.config.username.as_str(), folders, files);
        let ghost mid = net@;
        push_server_requests(net, requests);
        proof {
            assert(mid.len() == n0 + i);
            assert(net@[mid.len() + 0int] == NetAction::Server(requests@[0]));
            assert(net@[mid.len() + 1int] == NetAction::Server(requests@[1]));
            assert(requests@.len() >= 3);
            assert forall|j: int| 0 <= j < i implies (#[trigger] net@[n0 + j] matches NetAction::Server(
                ServerRequest::WatchUser { user },
            ) && user@ == names[j]) by {
                assert(net@.take(mid.len() as int)[n0 + j] == mid[n0 + j]);
            }
            assert(net@.take(n0 as int) =~= old(net)@) by {
                assert forall|x: int| 0 <= x < n0 implies net@[x] == old(net)@[x] by {
                    assert(net@.take(mid.len() as int)[x] == mid[x]);
                    assert(mid.take(n0 as int)[x] == mid[x]);
                }
            }
        }
        let ghost pre = net@;
        let defer_requests = self.shares.is_none() && self.scan_running;
        self.downloads.request_queued(defer_requests, net);
        proof {
            assert forall|x: int| 0 <= x < pre.len() implies net@[x] == pre[x] by {
                assert(net@.take(pre.len() as int)[x] == net@[x]);
            }
            assert(i == names.len());
            assert forall|j: int| 0 <= j < i implies (#[trigger] net@[n0 + j] matches NetAction::Server(
                ServerRequest::WatchUser { user },
            ) && user@ == names[j]) by {
                assert(net@[n0 + j] == pre[n0 + j]);
            }
            assert(net@.take(n0 as int) =~= old(net)@) by {
                assert forall|x: int| 0 <= x < n0 implies net@[x] == old(net)@[x] by {
                    assert(pre.take(n0 as int)[x] == pre[x]);
                }
            }
        }
        self.schedule_wishlist(now_ms);
        events.push(ClientEvent::LoggedIn { username: self.config.username.clone(), banner });
    }

    /// Starts a search of ours and lets its results in.
    fn search_command(
        &mut self,
        token: u32,
        query: String,
        scope: &SearchScope,
        net: &mut Vec<NetAction>,
        events: &mut Vec<ClientEvent>,
    )
        requires
            old(self).wf(),
        ensures
            final(self).wf(),
            final(self).searches@ == old(self).searches@.insert(token),
            *final(self) == (ClientCore { searches: final(self).searches, ..*old(self) }),
            search_allowed(old(net)@, final(net)@, token),
            final(events)@.len() == old(events)@.len() + 1,
    {
        net.push(NetAction::AllowSearchToken(token));
        let ghost pushed = net@;
        let requests = self.start_search(token, query, scope.clone(), events);
        push_server_requests(net, requests);
        assert(net@[old(net)@.len() as int] == net@.take(pushed.len() as int)[old(net)@.len() as int]);
    }

    /// Does what the user asked.  Transfers are enqueued, retried, aborted
    /// and cleared by the downloads or uploads; share lists and user info
    /// are asked of peers, and read from them only then; buddies are
    /// watched; bans, ignores and restrictions are kept (a denial fails
    /// the user's uploads); interests and wishes are kept and told; the
    /// server connection is opened, renewed or closed.
    pub fn handle_command(
        &mut self,
        command: ClientCommand,
        now_ms: u64,
        now_ns: u64,
        net: &mut Vec<NetAction>,
        events: &mut Vec<ClientEvent>,
        work: &mut Vec<TransferWork>,
    ) -> (reply: CommandReply)
        requires
            old(self).wf(),
            old(self).uploads.room(),
            old(self).ids@ < u64::MAX,
        ensures
            final(self).wf(),
            command_handled(command, reply, *old(self), *final(self), old(net)@, final(net)@, old(events)@, final(events)@, old(work)@, final(work)@),
    {
        match command {
            ClientCommand::Search { token, query, scope } => {
                self.search_command(token, query, &scope, net, events);
                CommandReply::Done
            },
            other => self.other_command(other, now_ms, now_ns, net, events, work),
        }
    }

    /// Does what the user asked, for any command but a search.
    #[verifier::spinoff_prover]
    #[verifier::rlimit(40)]
    fn other_command(
        &mut self,
        command: ClientCommand,
        now_ms: u64,
        now_ns: u64,
        net: &mut Vec<NetAction>,
        events: &mut Vec<ClientEvent>,
        work: &mut Vec<TransferWork>,
    ) -> (reply: CommandReply)
        requires
            old(self).wf(),
            old(self).uploads.room(),
            old(self).ids@ < u64::MAX,
            !(command is Search),
        ensures
            final(self).wf(),
            command_handled(command, reply, *old(self), *final(self), old(net)@, final(net)@, old(events)@, final(events)@, old(work)@, final(work)@),
    {
        match command {
            ClientCommand::Search { .. } => CommandReply::Done,
            ClientCommand::CancelSearch { token } => {
                self.searches.remove(token);
                net.push(NetAction::DisallowSearchToken(token));
                CommandReply::Done
            },
            ClientCommand::Download { username, virtual_path, size, attributes } => {
                let defer_requests = self.shares.is_none() && self.scan_running;
                let (result, mut updates) = self.downloads.enqueue(
                    &mut self.ids,
                    username,
                    virtual_path,
                    size,
                    attributes,
                    defer_requests,
                    net,
                );
                work.append(&mut updates);
                CommandReply::Enqueued(result)
            },
            ClientCommand::RetryDownload { id } => {
                let defer_requests = self.shares.is_none() && self.scan_running;
                let (result, mut updates) = self.downloads.retry(&mut self.ids, id, defer_requests, net);
                work.append(&mut updates);
                CommandReply::Retried(result)
            },
            ClientCommand::AbortTransfer { direction, id } => {
                let (result, mut updates) = match direction {
                    TransferDirection::Download => self.downloads.abort(id, net),
                    TransferDirection::Upload => self.uploads.abort(id, &self.users, now_ns, net),
                };
                work.append(&mut updates);
                CommandReply::Aborted(result)
            },
            ClientCommand::ClearTransfers { direction, statuses } => {
                let ids = match direction {
                    TransferDirection::Download => self.downloads.clear(statuses.as_slice(), net),
                    TransferDirection::Upload => self.uploads.clear(statuses.as_slice(), net),
                };
                if ids.len() > 0 {
                    work.push(TransferWork::Removed { direction, ids });
                }
                CommandReply::Done
            },
            ClientCommand::ClearAllTransfers { direction } => {
                let ids = match direction {
                    TransferDirection::Download => self.downloads.clear_all(net),
                    TransferDirection::Upload => self.uploads.clear_all(net),
                };
                if ids.len() > 0 {
                    work.push(TransferWork::Removed { direction, ids });
                }
                CommandReply::Done
            },
            ClientCommand::BrowseUser { username } => {
                net.push(NetAction::AllowSharedListUser(username.clone()));
                net.push(NetAction::Peer { username, message: PeerMessage::SharedFileListRequest });
                CommandReply::Done
            },
            ClientCommand::RequestUserInfo { username } => {
                net.push(NetAction::AllowUserInfoUser(username.clone()));
                net.push(NetAction::Peer { username, message: PeerMessage::UserInfoRequest });
                CommandReply::Done
            },
            ClientCommand::AddBuddy { username } => {
                if self.users.add_buddy(username.clone()) {
                    net.push(NetAction::Server(ServerRequest::WatchUser { user: username }));
                }
                CommandReply::Done
            },
            ClientCommand::RemoveBuddy { username } => {
                if self.users.remove_buddy(username.as_str()) {
                    net.push(NetAction::Server(ServerRequest::UnwatchUser { user: username }));
                }
                CommandReply::Done
            },
            ClientCommand::BanUser { username } => {
                self.users.ban(username);
                CommandReply::Done
            },
            ClientCommand::UnbanUser { username } => {
                self.users.unban(username.as_str());
                CommandReply::Done
            },
            ClientCommand::IgnoreUser { username } => {
                self.users.ignore(username);
                CommandReply::Done
            },
            ClientCommand::UnignoreUser { username } => {
                self.users.unignore(username.as_str());
                CommandReply::Done
            },
            ClientCommand::SetUserRestriction { username, restriction } => {
                proof {
                    self.uploads.lemma_room_bounds_turns();
                }
                match &restriction {
                    Restriction::Denied { reason } => {
                        let mut updates = self.uploads.deny_all(
                            username.as_str(),
                            reason.as_str(),
                            &self.users,
                            now_ns,
                            net,
                        );
                        work.append(&mut updates);
                    },
                    _ => {},
                }
                self.users.set_restriction(username, restriction);
                self.uploads.check_queue(&self.users, now_ns, net);
                CommandReply::Done
            },
            ClientCommand::AddInterest { thing, hated } => {
                let request = self.interests.add(thing, hated);
                net.push(NetAction::Server(request));
                CommandReply::Done
            },
            ClientCommand::RemoveInterest { thing, hated } => {
                let request = self.interests.remove(thing.as_str(), hated);
                net.push(NetAction::Server(request));
                CommandReply::Done
            },
            ClientCommand::AddWish { term } => {
                self.add_wish(term, now_ms);
                CommandReply::Done
            },
            ClientCommand::RemoveWish { term } => {
                self.remove_wish(term.as_str());
                CommandReply::Done
            },
            ClientCommand::Server(request) => {
                net.push(NetAction::Server(request));
                CommandReply::Done
            },
            ClientCommand::Connect => {
                self.session.reconnect_at = None;
                self.connect(net, events);
                CommandReply::Done
            },
            ClientCommand::Reconnect => {
                if self.session.reconnect() {
                    net.push(NetAction::ServerDisconnect);
                } else {
                    events.push(ClientEvent::Connecting);
                    net.push(NetAction::ServerConnect);
                }
                CommandReply::Done
            },
            ClientCommand::SetIpBans { patterns } => {
                self.users.set_ip_bans(patterns);
                CommandReply::Done
            },
            ClientCommand::SetTransferLimits { upload_kbps, download_kbps } => {
                net.push(
                    NetAction::SetTransferLimits {
                        upload_bps: upload_kbps as u64 * 1024,
                        download_bps: download_kbps as u64 * 1024,
                    },
                );
                CommandReply::Done
            },
            ClientCommand::Disconnect => {
                self.session.reconnect_at = None;
                self.session.reconnect_now = false;
                net.push(NetAction::ServerDisconnect);
                CommandReply::Done
            },
        }
    }
}

} // verus!
