//! The network side of the client: attempts to connect to peers, the
//! addresses they go to, and our place in the distributed network, stepped
//! by what the server says and by what happens to connections.
use vstd::prelude::*;

use crate::network::addresses::{usable, AddressBook, PeerAddress};
use crate::network::attempts::{INDIRECT_REQUEST_TIMEOUT_MS, first_where, found_for, incoming_effect, index_of_id, register_effect, waits_for, Attempt, Attempts};
use crate::network::distributed::{child_effect, no_parent_requests, own_speed_effect, DistribAction, Distributed};
use crate::protocol::peer_init::PeerInitMessage;
use crate::protocol::server_request::ServerRequest;
use crate::protocol::server_response::{LoginOutcome, ServerResponse};
use crate::text::text_eq;
use crate::types::{ConnId, ConnectionType};

verus! {

/// What the connection layer is asked to do.
#[derive(Debug)]
pub enum ConnAction {
    Server(ServerRequest),
    /// Connect directly to a user for an attempt, introducing ourselves.
    Connect { id: u64, username: String, conn_type: ConnectionType, ip_address: u32, port: u16 },
    /// Connect to a user who asked us to through the server, answering
    /// with its token.
    Pierce { username: String, conn_type: ConnectionType, ip_address: u32, port: u16, token: u32 },
    Close(ConnId),
    /// An attempt failed: what waited for it is given up.
    Failed { id: u64, username: String, conn_type: ConnectionType, offline: bool },
}

pub struct NetState {
    /// Our user name, once connected to the server.
    pub own: Option<String>,
    pub addresses: AddressBook,
    pub attempts: Attempts,
    /// Attempts waiting for the address of their user, in order.
    pub pending_address: Vec<(String, u64)>,
    pub distributed: Distributed,
    /// The server closed the connection on purpose: no reconnection.
    pub manual_disconnect: bool,
}

pub open spec fn pend_view(v: Seq<(String, u64)>) -> Seq<(Seq<char>, u64)> {
    v.map_values(|p: (String, u64)| (p.0@, p.1))
}

/// The waiting list without the attempt `id`.
pub open spec fn without_id(p: Seq<(Seq<char>, u64)>, id: u64) -> Seq<(Seq<char>, u64)>
    decreases p.len(),
{
    if p.len() == 0 {
        p
    } else {
        without_id(p.drop_last(), id) + if p.last().1 == id {
            Seq::empty()
        } else {
            seq![p.last()]
        }
    }
}

/// The attempts waiting for the address of `name`, in order.
pub open spec fn ids_for(p: Seq<(Seq<char>, u64)>, name: Seq<char>) -> Seq<u64>
    decreases p.len(),
{
    if p.len() == 0 {
        Seq::empty()
    } else {
        ids_for(p.drop_last(), name) + if p.last().0 == name {
            seq![p.last().1]
        } else {
            Seq::empty()
        }
    }
}

/// The waiting list without the attempts for `name`.
pub open spec fn others_of(p: Seq<(Seq<char>, u64)>, name: Seq<char>) -> Seq<(Seq<char>, u64)>
    decreases p.len(),
{
    if p.len() == 0 {
        p
    } else {
        others_of(p.drop_last(), name) + if p.last().0 == name {
            Seq::empty()
        } else {
            seq![p.last()]
        }
    }
}

/// What an attempt's failure asks for: unless it was established, its
/// connection is closed and what waited for it is given up.
pub open spec fn failure_actions(a: Attempt, offline: bool) -> Seq<ConnAction> {
    if a.established {
        Seq::empty()
    } else {
        let close: Seq<ConnAction> = match a.conn_id {
            Some(c) => seq![ConnAction::Close(c)],
            None => Seq::empty(),
        };
        close + seq![ConnAction::Failed { id: a.id, username: a.username, conn_type: a.conn_type, offline }]
    }
}

/// The address a user can be reached at directly, if one is known and
/// still usable.
pub open spec fn known_address(book: AddressBook, name: Seq<char>, own: Option<String>, now_ms: u64) -> Option<(u32, u16)> {
    match book.entry(name) {
        Some(Some(a)) => if usable(a, own matches Some(o) && o@ == name, now_ms) {
            Some((a.ip, a.port))
        } else {
            None
        },
        _ => None,
    }
}

/// The direct connection asked for an attempt.
pub open spec fn connect_action(a: Attempt, ip_address: u32, port: u16) -> ConnAction {
    ConnAction::Connect { id: a.id, username: a.username, conn_type: a.conn_type, ip_address, port }
}

/// One attempt waiting for an address, once it is known: an offline user
/// fails it; otherwise it connects directly.
pub open spec fn address_step(
    s: Seq<Attempt>,
    id: u64,
    offline: bool,
    ip: u32,
    port: u16,
    own_known: bool,
) -> (Seq<Attempt>, Seq<ConnAction>) {
    match index_of_id(s, id) {
        None => (s, Seq::empty()),
        Some(i) => if offline {
            (s.remove(i), failure_actions(s[i], true))
        } else {
            (s, if own_known && port != 0 {
                seq![connect_action(s[i], ip, port)]
            } else {
                Seq::empty()
            })
        },
    }
}

/// The attempts waiting for an address, taken in order.
pub open spec fn address_steps(
    s: Seq<Attempt>,
    ids: Seq<u64>,
    offline: bool,
    ip: u32,
    port: u16,
    own_known: bool,
) -> (Seq<Attempt>, Seq<ConnAction>)
    decreases ids.len(),
{
    if ids.len() == 0 {
        (s, Seq::empty())
    } else {
        let (s1, a1) = address_steps(s, ids.drop_last(), offline, ip, port, own_known);
        let (s2, a2) = address_step(s1, ids.last(), offline, ip, port, own_known);
        (s2, a1 + a2)
    }
}

/// What the address book keeps of an address the server gave for `name`:
/// nothing for our own name or an unwatched user; otherwise the address,
/// or none when the user is offline or gave no port.
pub open spec fn address_recorded(
    b0: AddressBook,
    b1: AddressBook,
    name: Seq<char>,
    own: Option<String>,
    ip: u32,
    port: u16,
    now_ms: u64,
) -> bool {
    &&& forall|n: Seq<char>| n != name ==> b1.entry(n) == b0.entry(n)
    &&& (own matches Some(o) && o@ == name) || b0.entry(name) is None ==> b1.entry(name) == b0.entry(name)
    &&& !(own matches Some(o) && o@ == name) && b0.entry(name) is Some ==> b1.entry(name) == Some(
        if ip != 0 && port != 0 {
            Some(PeerAddress { ip, port, updated_ms: now_ms })
        } else {
            None
        },
    )
}

/// The connection type a server message names.
pub open spec fn named_conn_type(v: Seq<char>) -> Option<ConnectionType> {
    if v == seq!['P'] {
        Some(ConnectionType::Peer)
    } else if v == seq!['F'] {
        Some(ConnectionType::File)
    } else if v == seq!['D'] {
        Some(ConnectionType::Distributed)
    } else {
        None
    }
}

/// An attempt is already under way for this user and purpose.
pub open spec fn under_way(s: Seq<Attempt>, name: Seq<char>, conn_type: ConnectionType) -> bool {
    exists|i: int| 0 <= i < s.len() && found_for(#[trigger] s[i], name, conn_type)
}

/// The message names our own user.
pub open spec fn is_own(own: Option<String>, name: Seq<char>) -> bool {
    own matches Some(o) && o@ == name
}

/// The first attempt waiting for the answer to `token`.
pub open spec fn first_waiting(s: Seq<Attempt>, token: u32) -> Option<int> {
    first_where(s, waits_for(token))
}

fn copy_own(own: &Option<String>) -> (c: Option<String>)
    ensures
        c == *own,
{
    match own {
        Some(o) => Some(o.clone()),
        None => None,
    }
}

/// The attempt's indirect request went unanswered too long.
pub open spec fn stale(a: Attempt, now_ms: u64) -> bool {
    !a.established && now_ms >= a.created_ms && now_ms - a.created_ms > INDIRECT_REQUEST_TIMEOUT_MS
}

/// Among the actions after `start`, one reports that attempt `a` failed.
pub open spec fn failure_reported(actions: Seq<ConnAction>, start: int, a: Attempt) -> bool {
    exists|k: int| start <= k < actions.len() && #[trigger] actions[k] == (ConnAction::Failed {
        id: a.id,
        username: a.username,
        conn_type: a.conn_type,
        offline: false,
    })
}

/// What starting an attempt does: the attempt is registered; the server is
/// asked to have the user connect to us; we connect directly to the address
/// given or known, or else ask the server for it.
pub open spec fn initiate_effect(
    s0: NetState,
    s1: NetState,
    username: String,
    conn_type: ConnectionType,
    address: Option<(u32, u16)>,
    now_ms: u64,
    id: u64,
    a0: Seq<ConnAction>,
    a1: Seq<ConnAction>,
) -> bool {
    &&& s1.own == s0.own
    &&& s1.addresses == s0.addresses
    &&& s1.distributed == s0.distributed
    &&& s1.manual_disconnect == s0.manual_disconnect
    &&& register_effect(s0.attempts, s1.attempts, username@, conn_type, now_ms, id, s1.attempts.last_token())
    &&& ({
        let addr = match address {
            Some(a) => Some(a),
            None => known_address(s0.addresses, username@, s0.own, now_ms),
        };
        let request = ConnAction::Server(
            ServerRequest::ConnectToPeer { token: s1.attempts.last_token(), user: username, conn_type },
        );
        &&& addr is None ==> pend_view(s1.pending_address@) =~= pend_view(s0.pending_address@).push((username@, id))
            && a1 =~= a0 + seq![request, ConnAction::Server(ServerRequest::GetPeerAddress { user: username })]
        &&& addr matches Some((ip, port)) ==> s1.pending_address == s0.pending_address && a1 =~= a0 + seq![request]
            + if s0.own is Some && port != 0 {
            seq![connect_action(s1.attempts.attempts().last(), ip, port)]
        } else {
            Seq::empty()
        }
    })
}

/// Where a message or file connection to a user goes.
#[derive(Debug, Clone, Copy, PartialEq, Eq, Structural)]
pub enum Route {
    /// It waits on the attempt under way, which is up or not yet.
    Queued { id: u64, established: bool },
    /// A new attempt was started for it.
    Started(u64),
    /// No attempt id is left.
    Exhausted,
}

fn own_str(own: &Option<String>) -> (o: Option<&str>)
    ensures
        match own {
            Some(s) => o matches Some(x) && x@ == s@,
            None => o is None,
        },
{
    match own {
        Some(s) => Some(s.as_str()),
        None => None,
    }
}

impl NetState {
    pub open spec fn wf(&self) -> bool {
        &&& self.addresses.wf()
        &&& self.attempts.wf()
        &&& self.distributed.wf()
    }

    pub fn new(first_token: u32) -> (s: Self)
        ensures
            s.wf(),
            s.own is None,
            s.attempts.attempts().len() == 0,
            s.attempts.next_id() == 1,
            s.attempts.last_token() == first_token,
            s.pending_address@.len() == 0,
            forall|n: Seq<char>| s.addresses.entry(n) is None,
            !s.manual_disconnect,
    {
        NetState {
            own: None,
            addresses: AddressBook::new(),
            attempts: Attempts::new(first_token),
            pending_address: Vec::new(),
            distributed: Distributed::new(),
            manual_disconnect: false,
        }
    }

    /// Drops an attempt from the list of those waiting for an address.
    fn unpend(&mut self, id: u64)
        ensures
            pend_view(final(self).pending_address@) == without_id(pend_view(old(self).pending_address@), id),
            final(self).own == old(self).own,
            final(self).addresses == old(self).addresses,
            final(self).attempts == old(self).attempts,
            final(self).distributed == old(self).distributed,
            final(self).manual_disconnect == old(self).manual_disconnect,
    {
        let ghost before = pend_view(self.pending_address@);
        let mut kept: Vec<(String, u64)> = Vec::new();
        let mut i: usize = 0;
        while i < self.pending_address.len()
            invariant
                i <= self.pending_address@.len(),
                self.pending_address == old(self).pending_address,
                before == pend_view(old(self).pending_address@),
                pend_view(kept@) == without_id(before.take(i as int), id),
            decreases self.pending_address@.len() - i,
        {
            proof {
                assert(before.take(i + 1).drop_last() =~= before.take(i as int));
            }
            if self.pending_address[i].1 != id {
                let name = self.pending_address[i].0.clone();
                kept.push((name, self.pending_address[i].1));
                proof {
                    assert(pend_view(kept@) =~= without_id(before.take(i as int), id) + seq![before[i as int]]);
                }
            }
            i = i + 1;
        }
        proof {
            assert(before.take(before.len() as int) =~= before);
        }
        self.pending_address = kept;
    }

    /// An attempt fails: it is forgotten, and unless it was established
    /// its connection is closed and what waited for it is given up.
    pub fn fail_attempt(&mut self, id: u64, offline: bool, actions: &mut Vec<ConnAction>)
        requires
            old(self).wf(),
        ensures
            final(self).wf(),
            final(self).own == old(self).own,
            final(self).addresses == old(self).addresses,
            final(self).distributed == old(self).distributed,
            final(self).manual_disconnect == old(self).manual_disconnect,
            final(self).attempts.next_id() == old(self).attempts.next_id(),
            final(self).attempts.last_token() == old(self).attempts.last_token(),
            pend_view(final(self).pending_address@) == without_id(pend_view(old(self).pending_address@), id),
            match old(self).attempts.position_spec(id) {
                Some(i) => final(self).attempts.attempts() == old(self).attempts.attempts().remove(i)
                    && final(actions)@ == old(actions)@ + failure_actions(old(self).attempts.attempts()[i], offline),
                None => final(self).attempts.attempts() == old(self).attempts.attempts() && final(actions)@
                    == old(actions)@,
            },
    {
        let removed = self.attempts.remove(id);
        self.unpend(id);
        match removed {
            Some(a) => {
                if !a.established {
                    match a.conn_id {
                        Some(c) => actions.push(ConnAction::Close(c)),
                        None => {},
                    }
                    actions.push(ConnAction::Failed { id: a.id, username: a.username, conn_type: a.conn_type, offline });
                }
                proof {
                    assert(actions@ =~= old(actions)@ + failure_actions(removed->0, offline));
                }
            },
            None => {},
        }
    }
    /// Connects directly for an attempt, once we know our own name and the
    /// address has a port.
    pub fn connect_direct(&self, id: u64, ip_address: u32, port: u16, actions: &mut Vec<ConnAction>)
        requires
            self.wf(),
        ensures
            final(actions)@ == old(actions)@ + match self.attempts.position_spec(id) {
                Some(i) => if self.own is Some && port != 0 {
                    seq![connect_action(self.attempts.attempts()[i], ip_address, port)]
                } else {
                    Seq::empty()
                },
                None => Seq::empty(),
            },
    {
        if self.own.is_none() || port == 0 {
            proof {
                assert(actions@ =~= old(actions)@ + match self.attempts.position_spec(id) {
                    Some(i) => Seq::<ConnAction>::empty(),
                    None => Seq::empty(),
                });
            }
            return;
        }
        match self.attempts.target(id) {
            Some((username, conn_type)) => {
                actions.push(ConnAction::Connect { id, username, conn_type, ip_address, port });
                proof {
                    let i = self.attempts.position_spec(id)->0;
                    assert(self.attempts.attempts()[i].id == id);
                }
            },
            None => {},
        }
    }

    /// Starts an attempt to connect to a user: the server is asked to have
    /// the user connect to us, and we connect directly when the address is
    /// given or known; otherwise the server is asked for it.
    pub fn initiate(
        &mut self,
        username: String,
        conn_type: ConnectionType,
        address: Option<(u32, u16)>,
        now_ms: u64,
        actions: &mut Vec<ConnAction>,
    ) -> (id: u64)
        requires
            old(self).wf(),
            old(self).attempts.next_id() < u64::MAX,
        ensures
            final(self).wf(),
            initiate_effect(*old(self), *final(self), username, conn_type, address, now_ms, id, old(actions)@, final(actions)@),
    {
        let addr = match address {
            Some(a) => Some(a),
            None => self.addresses.lookup_fresh_address(username.as_str(), own_str(&self.own), now_ms),
        };
        let (id, token) = self.attempts.register(username.clone(), conn_type, now_ms);
        actions.push(ConnAction::Server(ServerRequest::ConnectToPeer { token, user: username.clone(), conn_type }));
        let ghost mid = actions@;
        match addr {
            Some((ip, port)) => {
                proof {
                    assert(self.attempts.attempts().last().id == id);
                    assert(self.attempts.attempts()[self.attempts.attempts().len() - 1].id == id);
                }
                self.connect_direct(id, ip, port, actions);
                proof {
                    let i = self.attempts.position_spec(id)->0;
                    assert(self.attempts.attempts()[i] == self.attempts.attempts().last());
                }
            },
            None => {
                let ghost before = self.pending_address@;
                self.pending_address.push((username.clone(), id));
                actions.push(ConnAction::Server(ServerRequest::GetPeerAddress { user: username }));
                proof {
                    assert(pend_view(self.pending_address@) =~= pend_view(before).push((username@, id)));
                }
            },
        }
        id
    }
    /// Ends an attempt without touching the list of those waiting for an
    /// address.
    fn end_attempt(&mut self, id: u64, offline: bool, actions: &mut Vec<ConnAction>)
        requires
            old(self).wf(),
        ensures
            final(self).wf(),
            final(self).own == old(self).own,
            final(self).addresses == old(self).addresses,
            final(self).distributed == old(self).distributed,
            final(self).manual_disconnect == old(self).manual_disconnect,
            final(self).pending_address == old(self).pending_address,
            final(self).attempts.next_id() == old(self).attempts.next_id(),
            final(self).attempts.last_token() == old(self).attempts.last_token(),
            match old(self).attempts.position_spec(id) {
                Some(i) => final(self).attempts.attempts() == old(self).attempts.attempts().remove(i)
                    && final(actions)@ == old(actions)@ + failure_actions(old(self).attempts.attempts()[i], offline),
                None => final(self).attempts.attempts() == old(self).attempts.attempts() && final(actions)@
                    == old(actions)@,
            },
    {
        let removed = self.attempts.remove(id);
        match removed {
            Some(a) => {
                if !a.established {
                    match a.conn_id {
                        Some(c) => actions.push(ConnAction::Close(c)),
                        None => {},
                    }
                    actions.push(ConnAction::Failed { id: a.id, username: a.username, conn_type: a.conn_type, offline });
                }
                proof {
                    assert(actions@ =~= old(actions)@ + failure_actions(removed->0, offline));
                }
            },
            None => {},
        }
    }

    /// Takes the attempts waiting for the address of `name` off the list.
    fn take_pending(&mut self, name: &str) -> (ids: Vec<u64>)
        ensures
            ids@ == ids_for(pend_view(old(self).pending_address@), name@),
            pend_view(final(self).pending_address@) == others_of(pend_view(old(self).pending_address@), name@),
            final(self).own == old(self).own,
            final(self).addresses == old(self).addresses,
            final(self).attempts == old(self).attempts,
            final(self).distributed == old(self).distributed,
            final(self).manual_disconnect == old(self).manual_disconnect,
    {
        let ghost before = pend_view(self.pending_address@);
        let mut ids: Vec<u64> = Vec::new();
        let mut kept: Vec<(String, u64)> = Vec::new();
        let mut i: usize = 0;
        while i < self.pending_address.len()
            invariant
                i <= self.pending_address@.len(),
                self.pending_address == old(self).pending_address,
                before == pend_view(old(self).pending_address@),
                ids@ == ids_for(before.take(i as int), name@),
                pend_view(kept@) == others_of(before.take(i as int), name@),
            decreases self.pending_address@.len() - i,
        {
            proof {
                assert(before.take(i + 1).drop_last() =~= before.take(i as int));
            }
            if text_eq(self.pending_address[i].0.as_str(), name) {
                ids.push(self.pending_address[i].1);
            } else {
                let n = self.pending_address[i].0.clone();
                kept.push((n, self.pending_address[i].1));
                proof {
                    assert(pend_view(kept@) =~= others_of(before.take(i as int), name@) + seq![before[i as int]]);
                }
            }
            i = i + 1;
        }
        proof {
            assert(before.take(before.len() as int) =~= before);
        }
        self.pending_address = kept;
        ids
    }

    /// The server gave a user's address: the attempts waiting for it fail
    /// when the user is offline and connect otherwise, and the address book
    /// keeps the address.
    pub fn handle_peer_address(&mut self, user: &str, ip_address: u32, port: u32, now_ms: u64, actions: &mut Vec<ConnAction>)
        requires
            old(self).wf(),
        ensures
            final(self).wf(),
            final(self).own == old(self).own,
            final(self).distributed == old(self).distributed,
            final(self).manual_disconnect == old(self).manual_disconnect,
            final(self).attempts.next_id() == old(self).attempts.next_id(),
            final(self).attempts.last_token() == old(self).attempts.last_token(),
            pend_view(final(self).pending_address@) == others_of(pend_view(old(self).pending_address@), user@),
            ({
                let (s, acts) = address_steps(
                    old(self).attempts.attempts(),
                    ids_for(pend_view(old(self).pending_address@), user@),
                    ip_address == 0,
                    ip_address,
                    port as u16,
                    old(self).own is Some,
                );
                final(self).attempts.attempts() == s && final(actions)@ == old(actions)@ + acts
            }),
            address_recorded(old(self).addresses, final(self).addresses, user@, old(self).own, ip_address, port as u16, now_ms),
    {
        let offline = ip_address == 0;
        let port16 = port as u16;
        let ids = self.take_pending(user);
        let ghost s0 = self.attempts.attempts();
        let ghost a0 = actions@;
        let mut k: usize = 0;
        while k < ids.len()
            invariant
                self.wf(),
                k <= ids@.len(),
                self.own == old(self).own,
                self.addresses == old(self).addresses,
                self.distributed == old(self).distributed,
                self.manual_disconnect == old(self).manual_disconnect,
                pend_view(self.pending_address@) == others_of(pend_view(old(self).pending_address@), user@),
                self.attempts.next_id() == old(self).attempts.next_id(),
                self.attempts.last_token() == old(self).attempts.last_token(),
                s0 == old(self).attempts.attempts(),
                a0 == old(actions)@,
                offline == (ip_address == 0),
                port16 == port as u16,
                ({
                    let (s, acts) = address_steps(s0, ids@.take(k as int), offline, ip_address, port16, self.own is Some);
                    self.attempts.attempts() == s && actions@ == a0 + acts
                }),
            decreases ids@.len() - k,
        {
            proof {
                assert(ids@.take(k + 1).drop_last() =~= ids@.take(k as int));
            }
            let id = ids[k];
            let ghost cur = actions@;
            if offline {
                self.end_attempt(id, true, actions);
            } else {
                self.connect_direct(id, ip_address, port16, actions);
            }
            proof {
                assert(actions@ =~= a0 + address_steps(s0, ids@.take(k as int), offline, ip_address, port16, self.own is Some).1
                    + (actions@.subrange(cur.len() as int, actions@.len() as int)));
                assert(actions@.subrange(cur.len() as int, actions@.len() as int) =~= address_step(
                    address_steps(s0, ids@.take(k as int), offline, ip_address, port16, self.own is Some).0,
                    id,
                    offline,
                    ip_address,
                    port16,
                    self.own is Some,
                ).1);
            }
            k = k + 1;
        }
        proof {
            assert(ids@.take(ids@.len() as int) =~= ids@);
        }
        self.addresses.peer_address_seen(user, ip_address, port16, own_str(&self.own), now_ms);
    }
    /// Whether `name` is ours.
    fn names_own(&self, name: &str) -> (b: bool)
        ensures
            b == is_own(self.own, name@),
    {
        match &self.own {
            Some(o) => text_eq(o.as_str(), name),
            None => false,
        }
    }

    /// A user asks, through the server, that we connect to it: unless an
    /// attempt of ours is already under way for it, we do.
    fn handle_connect_to_peer(
        &self,
        user: &String,
        conn_type: &String,
        ip_address: u32,
        port: u32,
        token: u32,
        actions: &mut Vec<ConnAction>,
    )
        ensures
            final(actions)@ == old(actions)@ + match named_conn_type(conn_type@) {
                Some(ct) => if under_way(self.attempts.attempts(), user@, ct) {
                    Seq::empty()
                } else {
                    seq![ConnAction::Pierce { username: *user, conn_type: ct, ip_address, port: port as u16, token }]
                },
                None => Seq::empty(),
            },
    {
        match ConnectionType::from_str_value(conn_type.as_str()) {
            Ok(ct) => {
                proof {
                    assert(named_conn_type(conn_type@) == Some(ct));
                }
                let existing = self.attempts.existing_attempt(user.as_str(), ct);
                if existing.is_none() {
                    actions.push(ConnAction::Pierce { username: user.clone(), conn_type: ct, ip_address, port: port as u16, token });
                }
                proof {
                    assert(actions@ =~= old(actions)@ + if under_way(self.attempts.attempts(), user@, ct) {
                        Seq::<ConnAction>::empty()
                    } else {
                        seq![ConnAction::Pierce { username: *user, conn_type: ct, ip_address, port: port as u16, token }]
                    });
                }
            },
            Err(_) => {
                proof {
                    assert(named_conn_type(conn_type@) is None);
                }
            },
        }
    }

    /// The server could not get the user to connect to us for `token`: the
    /// attempt waiting for it fails.
    pub fn handle_cant_connect(&mut self, token: u32, actions: &mut Vec<ConnAction>)
        requires
            old(self).wf(),
        ensures
            final(self).wf(),
            final(self).own == old(self).own,
            final(self).addresses == old(self).addresses,
            final(self).distributed == old(self).distributed,
            final(self).manual_disconnect == old(self).manual_disconnect,
            final(self).attempts.next_id() == old(self).attempts.next_id(),
            final(self).attempts.last_token() == old(self).attempts.last_token(),
            match first_waiting(old(self).attempts.attempts(), token) {
                Some(i) => {
                    let id = old(self).attempts.attempts()[i].id;
                    &&& final(self).attempts.attempts() == old(self).attempts.attempts().remove(
                        old(self).attempts.position_spec(id)->0,
                    )
                    &&& final(actions)@ == old(actions)@ + failure_actions(
                        old(self).attempts.attempts()[old(self).attempts.position_spec(id)->0],
                        false,
                    )
                    &&& pend_view(final(self).pending_address@) == without_id(pend_view(old(self).pending_address@), id)
                },
                None => final(self).attempts == old(self).attempts && final(actions)@ == old(actions)@
                    && final(self).pending_address == old(self).pending_address,
            },
    {
        match self.attempts.waiting_for(token) {
            Some(id) => {
                proof {
                    let s = old(self).attempts.attempts();
                    let i = first_waiting(s, token)->0;
                    assert(s[i].id == id);
                    assert(exists|j: int| 0 <= j < s.len() && #[trigger] s[j].id == id);
                    assert(index_of_id(s, id) is Some);
                }
                self.fail_attempt(id, false, actions);
            },
            None => {},
        }
    }

    /// What a server message means for connections, addresses and the
    /// distributed network.
    #[verifier::rlimit(50)]
    pub fn handle_server_message(
        &mut self,
        message: &ServerResponse,
        now_ms: u64,
        actions: &mut Vec<ConnAction>,
        distrib: &mut Vec<DistribAction>,
    )
        requires
            old(self).wf(),
        ensures
            final(self).wf(),
            final(self).own == old(self).own,
            final(self).attempts.next_id() == old(self).attempts.next_id(),
            final(self).attempts.last_token() == old(self).attempts.last_token(),
            message matches ServerResponse::Login(LoginOutcome::Success { .. }) ==> {
                &&& final(self).distributed == (Distributed { parent: None, branch_level: 0, branch_root: old(self).own, ..old(self).distributed })
                &&& final(distrib)@ == old(distrib)@ + no_parent_requests(old(self).own)
                &&& final(actions)@ == old(actions)@ && final(self).attempts == old(self).attempts
                    && final(self).addresses == old(self).addresses && final(self).manual_disconnect == old(self).manual_disconnect
            },
            message matches ServerResponse::Login(LoginOutcome::Failure { .. }) ==> final(self).manual_disconnect
                && final(actions)@ == old(actions)@ && final(self).attempts == old(self).attempts,
            message is Relogged ==> final(self).manual_disconnect && final(actions)@ == old(actions)@
                && final(self).attempts == old(self).attempts && final(self).addresses == old(self).addresses,
            message matches ServerResponse::ConnectToPeer { user, conn_type, ip_address, port, token, .. } ==> {
                &&& final(self).attempts == old(self).attempts && final(self).addresses == old(self).addresses
                &&& final(self).distributed == old(self).distributed && final(distrib)@ == old(distrib)@
                &&& final(actions)@ == old(actions)@ + match named_conn_type(conn_type@) {
                    Some(ct) => if under_way(old(self).attempts.attempts(), user@, ct) {
                        Seq::empty()
                    } else {
                        seq![ConnAction::Pierce { username: *user, conn_type: ct, ip_address: *ip_address, port: *port as u16, token: *token }]
                    },
                    None => Seq::empty(),
                }
            },
            message matches ServerResponse::CantConnectToPeer { token } ==> {
                &&& final(self).addresses == old(self).addresses && final(self).distributed == old(self).distributed
                &&& match first_waiting(old(self).attempts.attempts(), *token) {
                    Some(i) => {
                        let id = old(self).attempts.attempts()[i].id;
                        &&& final(self).attempts.attempts() == old(self).attempts.attempts().remove(
                            old(self).attempts.position_spec(id)->0,
                        )
                        &&& final(actions)@ == old(actions)@ + failure_actions(
                            old(self).attempts.attempts()[old(self).attempts.position_spec(id)->0],
                            false,
                        )
                        &&& pend_view(final(self).pending_address@) == without_id(pend_view(old(self).pending_address@), id)
                    },
                    None => final(self).attempts == old(self).attempts && final(actions)@ == old(actions)@,
                }
            },
            message matches ServerResponse::GetUserStatus { user, status, .. } ==> {
                &&& final(self).attempts == old(self).attempts && final(actions)@ == old(actions)@
                &&& *status == 0 ==> final(self).addresses.entry(user@) == match old(self).addresses.entry(user@) {
                    Some(_) => Some(None::<PeerAddress>),
                    None => None,
                }
                &&& forall|n: Seq<char>| n != user@ || *status != 0 ==> final(self).addresses.entry(n) == old(self).addresses.entry(n)
            },
            message matches ServerResponse::GetPeerAddress { user, ip_address, port, .. } ==> {
                &&& pend_view(final(self).pending_address@) == others_of(pend_view(old(self).pending_address@), user@)
                &&& ({
                    let (s, acts) = address_steps(
                        old(self).attempts.attempts(),
                        ids_for(pend_view(old(self).pending_address@), user@),
                        *ip_address == 0,
                        *ip_address,
                        *port as u16,
                        old(self).own is Some,
                    );
                    final(self).attempts.attempts() == s && final(actions)@ == old(actions)@ + acts
                })
                &&& address_recorded(old(self).addresses, final(self).addresses, user@, old(self).own, *ip_address, *port as u16, now_ms)
            },
            message matches ServerResponse::WatchUser { user, user_exists, stats, .. } ==> {
                &&& final(self).attempts == old(self).attempts && final(actions)@ == old(actions)@
                &&& is_own(old(self).own, user@) && stats is Some ==> own_speed_effect(
                    old(self).distributed,
                    final(self).distributed,
                    stats->0.avgspeed,
                    old(distrib)@,
                    final(distrib)@,
                ) && final(self).addresses == old(self).addresses
                &&& !is_own(old(self).own, user@) && !*user_exists ==> final(self).addresses.entry(user@) is None
                    && forall|n: Seq<char>| n != user@ ==> final(self).addresses.entry(n) == old(self).addresses.entry(n)
                &&& !(is_own(old(self).own, user@) && stats is Some) ==> final(self).distributed == old(self).distributed
                    && final(distrib)@ == old(distrib)@
                &&& !(!is_own(old(self).own, user@) && !*user_exists) ==> final(self).addresses == old(self).addresses
            },
            message matches ServerResponse::GetUserStats { user, stats } ==> {
                &&& final(self).attempts == old(self).attempts && final(actions)@ == old(actions)@
                &&& final(self).addresses == old(self).addresses
                &&& is_own(old(self).own, user@) ==> own_speed_effect(
                    old(self).distributed,
                    final(self).distributed,
                    stats.avgspeed,
                    old(distrib)@,
                    final(distrib)@,
                )
                &&& !is_own(old(self).own, user@) ==> final(self).distributed == old(self).distributed && final(distrib)@ == old(distrib)@
            },
            !(message is Login || message is Relogged || message is ConnectToPeer || message is CantConnectToPeer
                || message is GetUserStatus || message is GetPeerAddress || message is WatchUser || message is GetUserStats)
                ==> *final(self) == *old(self) && final(actions)@ == old(actions)@ && final(distrib)@ == old(distrib)@,
    {
        match message {
            ServerResponse::Login(LoginOutcome::Success { .. }) => {
                let own = copy_own(&self.own);
                self.distributed.send_have_no_parent(&own, distrib);
            },
            ServerResponse::Login(LoginOutcome::Failure { .. }) => {
                self.manual_disconnect = true;
            },
            ServerResponse::Relogged => {
                self.manual_disconnect = true;
            },
            ServerResponse::ConnectToPeer { user, conn_type, ip_address, port, token, .. } => {
                self.handle_connect_to_peer(user, conn_type, *ip_address, *port, *token, actions);
            },
            ServerResponse::CantConnectToPeer { token } => {
                self.handle_cant_connect(*token, actions);
            },
            ServerResponse::GetUserStatus { user, status, .. } => {
                if *status == 0 {
                    self.addresses.forget_address(user.as_str());
                }
            },
            ServerResponse::GetPeerAddress { user, ip_address, port, .. } => {
                self.handle_peer_address(user.as_str(), *ip_address, *port, now_ms, actions);
            },
            ServerResponse::WatchUser { user, user_exists, stats, .. } => {
                if self.names_own(user.as_str()) {
                    match stats {
                        Some(st) => self.distributed.update_own_speed(st.avgspeed, distrib),
                        None => {},
                    }
                } else if !*user_exists {
                    self.addresses.unwatch_user(user.as_str());
                }
            },
            ServerResponse::GetUserStats { user, stats } => {
                if self.names_own(user.as_str()) {
                    self.distributed.update_own_speed(stats.avgspeed, distrib);
                }
            },
            _ => {},
        }
    }
    /// Attempts whose indirect request went unanswered too long fail.
    pub fn sweep_attempts(&mut self, now_ms: u64, actions: &mut Vec<ConnAction>)
        requires
            old(self).wf(),
        ensures
            final(self).wf(),
            final(self).own == old(self).own,
            final(self).addresses == old(self).addresses,
            final(self).distributed == old(self).distributed,
            final(self).manual_disconnect == old(self).manual_disconnect,
            final(self).attempts.next_id() == old(self).attempts.next_id(),
            final(self).attempts.last_token() == old(self).attempts.last_token(),
            final(actions)@.take(old(actions)@.len() as int) == old(actions)@,
            forall|j: int| 0 <= j < old(self).attempts.attempts().len() && stale(#[trigger] old(self).attempts.attempts()[j], now_ms)
                ==> (forall|i: int| 0 <= i < final(self).attempts.attempts().len() ==> final(self).attempts.attempts()[i].id
                != old(self).attempts.attempts()[j].id) && failure_reported(final(actions)@, old(actions)@.len() as int,
                old(self).attempts.attempts()[j]),
            forall|j: int| 0 <= j < old(self).attempts.attempts().len() && !stale(#[trigger] old(self).attempts.attempts()[j], now_ms)
                ==> final(self).attempts.attempts().contains(old(self).attempts.attempts()[j]),
    {
        let ids = self.attempts.expired(now_ms);
        let ghost s0 = self.attempts.attempts();
        let ghost a0 = actions@;
        let mut k: usize = 0;
        while k < ids.len()
            invariant
                self.wf(),
                k <= ids@.len(),
                s0 == old(self).attempts.attempts(),
                a0 == old(actions)@,
                old(self).wf(),
                self.own == old(self).own,
                self.addresses == old(self).addresses,
                self.distributed == old(self).distributed,
                self.manual_disconnect == old(self).manual_disconnect,
                self.attempts.next_id() == old(self).attempts.next_id(),
                self.attempts.last_token() == old(self).attempts.last_token(),
                actions@.take(a0.len() as int) == a0,
                actions@.len() >= a0.len(),
                forall|x: u64| ids@.contains(x) <==> exists|i: int| 0 <= i < s0.len() && #[trigger] s0[i].id == x && stale(s0[i], now_ms),
                forall|c: Attempt| self.attempts.attempts().contains(c) ==> s0.contains(c),
                forall|j: int| 0 <= j < s0.len() && !ids@.take(k as int).contains(#[trigger] s0[j].id)
                    ==> self.attempts.attempts().contains(s0[j]),
                forall|j: int| 0 <= j < s0.len() && ids@.take(k as int).contains(#[trigger] s0[j].id) ==> (forall|i: int|
                    0 <= i < self.attempts.attempts().len() ==> self.attempts.attempts()[i].id != s0[j].id) && failure_reported(
                    actions@, a0.len() as int, s0[j]),
            decreases ids@.len() - k,
        {
            let id = ids[k];
            let ghost cur = self.attempts.attempts();
            let ghost before = actions@;
            self.fail_attempt(id, false, actions);
            proof {
                let nxt = self.attempts.attempts();
                assert(ids@.take(k + 1) =~= ids@.take(k as int).push(id));
                assert(actions@.take(a0.len() as int) =~= before.take(a0.len() as int));
                assert forall|c: Attempt| nxt.contains(c) implies s0.contains(c) by {
                    let i = choose|i: int| 0 <= i < nxt.len() && nxt[i] == c;
                    if let Some(p) = index_of_id(cur, id) {
                        let q = if i < p { i } else { i + 1 };
                        assert(cur[q] == c);
                    } else {
                        assert(cur[i] == c);
                    }
                }
                // The attempt removed, if any, is the stale one with this id.
                assert forall|j: int| 0 <= j < s0.len() && !ids@.take(k + 1).contains(#[trigger] s0[j].id)
                    implies nxt.contains(s0[j]) by {
                    assert(!ids@.take(k as int).contains(s0[j].id));
                    assert(cur.contains(s0[j]));
                    let m = choose|m: int| 0 <= m < cur.len() && cur[m] == s0[j];
                    if let Some(p) = index_of_id(cur, id) {
                        assert(cur[p].id == id);
                        assert(s0[j].id != id) by {
                            assert(ids@.take(k + 1)[k as int] == id);
                        }
                        assert(m != p);
                        let q = if m < p { m } else { m - 1 };
                        assert(nxt[q] == s0[j]);
                    } else {
                        assert(nxt[m] == s0[j]);
                    }
                }
                assert forall|j: int| 0 <= j < s0.len() && ids@.take(k + 1).contains(#[trigger] s0[j].id) implies (forall|i: int|
                    0 <= i < nxt.len() ==> nxt[i].id != s0[j].id) && failure_reported(actions@, a0.len() as int, s0[j]) by {
                    if ids@.take(k as int).contains(s0[j].id) {
                        assert forall|i: int| 0 <= i < nxt.len() implies nxt[i].id != s0[j].id by {
                            assert(cur.contains(nxt[i])) by {
                                let p = index_of_id(cur, id)->0;
                                let q = if i < p { i } else { i + 1 };
                                if index_of_id(cur, id) is Some {
                                    assert(cur[q] == nxt[i]);
                                } else {
                                    assert(cur[i] == nxt[i]);
                                }
                            }
                            let m = choose|m: int| 0 <= m < cur.len() && cur[m] == nxt[i];
                            assert(cur[m].id != s0[j].id);
                        }
                        let w = choose|w: int| a0.len() <= w < before.len() && #[trigger] before[w] == (ConnAction::Failed {
                            id: s0[j].id,
                            username: s0[j].username,
                            conn_type: s0[j].conn_type,
                            offline: false,
                        });
                        assert(actions@[w] == before[w]);
                    } else {
                        assert(s0[j].id == id) by {
                            assert(ids@.take(k + 1).contains(s0[j].id));
                            let t = choose|t: int| 0 <= t < k + 1 && #[trigger] ids@.take(k + 1)[t] == s0[j].id;
                            if t < k {
                                assert(ids@.take(k as int)[t] == s0[j].id);
                            }
                        }
                        assert(cur.contains(s0[j]));
                        let m = choose|m: int| 0 <= m < cur.len() && cur[m] == s0[j];
                        assert(cur[m].id == id);
                        assert(index_of_id(cur, id) is Some);
                        let p = index_of_id(cur, id)->0;
                        assert(cur[p].id == id);
                        assert(p == m);
                        assert(stale(s0[j], now_ms)) by {
                            assert(ids@.contains(id));
                            let r = choose|r: int| 0 <= r < s0.len() && #[trigger] s0[r].id == id && stale(s0[r], now_ms);
                            assert(old(self).attempts.attempts()[r].id == old(self).attempts.attempts()[j].id);
                        }
                        assert forall|i: int| 0 <= i < nxt.len() implies nxt[i].id != s0[j].id by {
                            let q = if i < p { i } else { i + 1 };
                            assert(nxt[i] == cur[q]);
                        }
                        assert(actions@[before.len() + failure_actions(cur[p], false).len() - 1] == (ConnAction::Failed {
                            id: s0[j].id,
                            username: s0[j].username,
                            conn_type: s0[j].conn_type,
                            offline: false,
                        }));
                    }
                }
            }
            k = k + 1;
        }
        proof {
            assert(ids@.take(ids@.len() as int) =~= ids@);
            assert forall|j: int| 0 <= j < s0.len() && stale(#[trigger] s0[j], now_ms) implies ids@.contains(s0[j].id) by {}
            assert forall|j: int| 0 <= j < s0.len() && !stale(#[trigger] s0[j], now_ms) implies self.attempts.attempts().contains(s0[j]) by {
                if ids@.contains(s0[j].id) {
                    let r = choose|r: int| 0 <= r < s0.len() && #[trigger] s0[r].id == s0[j].id && stale(s0[r], now_ms);
                    assert(old(self).attempts.attempts()[r].id == old(self).attempts.attempts()[j].id);
                }
            }
        }
    }
    /// A connection to us introduced itself. A user connecting for messages
    /// or the distributed network takes the place of our own attempt, and
    /// a distributed one is offered as child. An answer to one of our
    /// indirect requests goes to the attempt waiting for it, unless that
    /// attempt's direct connection is already up; one nothing waits for is
    /// closed. The user and purpose of the connection are handed back.
    pub fn handle_incoming_init(
        &mut self,
        conn_id: ConnId,
        init: PeerInitMessage,
        now_ms: u64,
        actions: &mut Vec<ConnAction>,
        distrib: &mut Vec<DistribAction>,
    ) -> (identity: Option<(String, ConnectionType)>)
        requires
            old(self).wf(),
            old(self).attempts.next_id() < u64::MAX,
        ensures
            final(self).wf(),
            final(self).own == old(self).own,
            final(self).addresses == old(self).addresses,
            final(self).manual_disconnect == old(self).manual_disconnect,
            final(self).pending_address == old(self).pending_address,
            init matches PeerInitMessage::PeerInit { username, conn_type } ==> {
                &&& identity == Some((username, conn_type))
                &&& final(actions)@ == old(actions)@
                &&& conn_type is File ==> final(self).attempts == old(self).attempts
                &&& !(conn_type is File) ==> exists|prev: Option<Attempt>| incoming_effect(
                    old(self).attempts,
                    final(self).attempts,
                    username@,
                    conn_type,
                    conn_id,
                    now_ms,
                    old(self).attempts.next_id(),
                    prev,
                )
                &&& conn_type is Distributed ==> exists|accepted: bool| child_effect(
                    old(self).distributed,
                    final(self).distributed,
                    old(self).own,
                    conn_id,
                    username,
                    old(distrib)@,
                    final(distrib)@,
                    accepted,
                )
                &&& !(conn_type is Distributed) ==> final(self).distributed == old(self).distributed && final(distrib)@
                    == old(distrib)@
            },
            init matches PeerInitMessage::PierceFireWall { token } ==> {
                &&& final(self).distributed == old(self).distributed && final(distrib)@ == old(distrib)@
                &&& final(self).attempts.next_id() == old(self).attempts.next_id()
                &&& match first_waiting(old(self).attempts.attempts(), token) {
                    None => identity is None && final(self).attempts.attempts() == old(self).attempts.attempts()
                        && final(self).attempts.last_token() == old(self).attempts.last_token() && final(actions)@
                        == old(actions)@.push(ConnAction::Close(conn_id)),
                    Some(i) => {
                        let a = old(self).attempts.attempts()[i];
                        &&& identity == Some((a.username, a.conn_type))
                        &&& a.established && a.conn_id is Some ==> final(self).attempts.attempts()
                            == old(self).attempts.attempts().update(i, Attempt { pierce_open: false, ..a })
                            && final(actions)@ == old(actions)@
                        &&& !(a.established && a.conn_id is Some) ==> final(self).attempts.attempts()
                            == old(self).attempts.attempts().update(
                            i,
                            Attempt { pierce_open: false, conn_id: Some(conn_id), established: true, ..a },
                        ) && final(actions)@ == old(actions)@ + match a.conn_id {
                            Some(p) => seq![ConnAction::Close(p)],
                            None => Seq::empty(),
                        }
                    },
                }
            },
    {
        match init {
            PeerInitMessage::PeerInit { username, conn_type } => {
                let is_file = match conn_type {
                    ConnectionType::File => true,
                    _ => false,
                };
                if !is_file {
                    let (id, prev) = self.attempts.adopt_incoming(username.clone(), conn_type, conn_id, now_ms);
                }
                match conn_type {
                    ConnectionType::Distributed => {
                        let own = copy_own(&self.own);
                        self.distributed.accept_child_peer(&own, conn_id, username.clone(), distrib);
                    },
                    _ => {},
                }
                Some((username, conn_type))
            },
            PeerInitMessage::PierceFireWall { token } => {
                let ghost s0 = self.attempts.attempts();
                let claimed = self.attempts.claim_pierce(token);
                match claimed {
                    None => {
                        actions.push(ConnAction::Close(conn_id));
                        None
                    },
                    Some(id) => {
                        let ghost i = first_waiting(s0, token)->0;
                        let ghost s1 = self.attempts.attempts();
                        proof {
                            assert(s1[i].id == id);
                            assert(index_of_id(s1, id) is Some);
                            let p = index_of_id(s1, id)->0;
                            assert(s1[p].id == s1[i].id);
                            assert(p == i);
                        }
                        let target = self.attempts.target(id);
                        let (previous, up) = self.attempts.conn_of(id);
                        proof {
                            assert(s1[i].conn_id == s0[i].conn_id && s1[i].established == s0[i].established);
                            assert(s1[i].username == s0[i].username && s1[i].conn_type == s0[i].conn_type);
                        }
                        if up && previous.is_some() {
                            return target;
                        }
                        match previous {
                            Some(p) => actions.push(ConnAction::Close(p)),
                            None => {},
                        }
                        self.attempts.mark_established(id, conn_id);
                        proof {
                            assert(self.attempts.attempts() =~= s0.update(
                                i,
                                Attempt { pierce_open: false, conn_id: Some(conn_id), established: true, ..s0[i] },
                            ));
                            assert(actions@ =~= old(actions)@ + match s0[i].conn_id {
                                Some(p) => seq![ConnAction::Close(p)],
                                None => Seq::empty(),
                            });
                        }
                        target
                    },
                }
            },
        }
    }
    /// The server connection closed: attempts, addresses and the
    /// distributed network are forgotten.
    pub fn reset(&mut self)
        requires
            old(self).wf(),
        ensures
            final(self).wf(),
            final(self).own == old(self).own,
            final(self).attempts.attempts().len() == 0,
            final(self).attempts.next_id() == old(self).attempts.next_id(),
            final(self).attempts.last_token() == old(self).attempts.last_token(),
            final(self).pending_address@.len() == 0,
            forall|n: Seq<char>| final(self).addresses.entry(n) is None,
            final(self).distributed.parent is None,
            final(self).distributed.children@.len() == 0,
            final(self).distributed.potential_parents@.len() == 0,
            final(self).manual_disconnect == old(self).manual_disconnect,
    {
        self.attempts.clear();
        self.pending_address = Vec::new();
        self.addresses.reset();
        self.distributed.reset();
    }
    /// Something is to be sent to a user: it goes on the attempt under way
    /// for the user and purpose, or a new attempt is started for it.
    pub fn send_to_peer(
        &mut self,
        username: String,
        conn_type: ConnectionType,
        now_ms: u64,
        actions: &mut Vec<ConnAction>,
    ) -> (route: Route)
        requires
            old(self).wf(),
        ensures
            final(self).wf(),
            under_way(old(self).attempts.attempts(), username@, conn_type) ==> *final(self) == *old(self) && final(actions)@
                == old(actions)@ && (route matches Route::Queued { id, established } && exists|i: int|
                0 <= i < old(self).attempts.attempts().len() && old(self).attempts.attempts()[i].id == id && found_for(
                #[trigger] old(self).attempts.attempts()[i],
                username@,
                conn_type,
            ) && old(self).attempts.attempts()[i].established == established),
            !under_way(old(self).attempts.attempts(), username@, conn_type) && old(self).attempts.next_id() < u64::MAX
                ==> (route matches Route::Started(id) && initiate_effect(
                *old(self),
                *final(self),
                username,
                conn_type,
                None,
                now_ms,
                id,
                old(actions)@,
                final(actions)@,
            )),
            !under_way(old(self).attempts.attempts(), username@, conn_type) && old(self).attempts.next_id() == u64::MAX
                ==> route == Route::Exhausted && *final(self) == *old(self) && final(actions)@ == old(actions)@,
    {
        match self.attempts.existing_attempt(username.as_str(), conn_type) {
            Some(id) => {
                let (_, established) = self.attempts.conn_of(id);
                proof {
                    let s = self.attempts.attempts();
                    let i = choose|i: int| 0 <= i < s.len() && s[i].id == id && found_for(#[trigger] s[i], username@, conn_type);
                    assert(s[i].id == id);
                    let p = self.attempts.position_spec(id)->0;
                    assert(s[p].id == s[i].id);
                    assert(p == i);
                }
                Route::Queued { id, established }
            },
            None => {
                if !self.attempts.can_register() {
                    return Route::Exhausted;
                }
                let id = self.initiate(username, conn_type, None, now_ms, actions);
                Route::Started(id)
            },
        }
    }

    /// A request goes to the server: watching a user keeps its address,
    /// unwatching another user forgets it.
    pub fn note_server_request(&mut self, request: &ServerRequest)
        requires
            old(self).wf(),
        ensures
            final(self).wf(),
            final(self).own == old(self).own,
            final(self).attempts == old(self).attempts,
            final(self).pending_address == old(self).pending_address,
            final(self).distributed == old(self).distributed,
            final(self).manual_disconnect == old(self).manual_disconnect,
            request matches ServerRequest::WatchUser { user } ==> final(self).addresses.entry(user@) == match old(self).addresses.entry(user@) {
                Some(e) => Some(e),
                None => Some(None::<PeerAddress>),
            } && forall|n: Seq<char>| n != user@ ==> final(self).addresses.entry(n) == old(self).addresses.entry(n),
            request matches ServerRequest::UnwatchUser { user } ==> if is_own(old(self).own, user@) {
                final(self).addresses == old(self).addresses
            } else {
                final(self).addresses.entry(user@) is None && forall|n: Seq<char>| n != user@
                    ==> final(self).addresses.entry(n) == old(self).addresses.entry(n)
            },
            !(request is WatchUser || request is UnwatchUser) ==> final(self).addresses == old(self).addresses,
    {
        match request {
            ServerRequest::WatchUser { user } => self.addresses.watch_user(user.as_str()),
            ServerRequest::UnwatchUser { user } => {
                if !self.names_own(user.as_str()) {
                    self.addresses.unwatch_user(user.as_str());
                }
            },
            _ => {},
        }
    }
}

} // verus!
