//! The server session: connecting, reconnecting with a growing delay, and
//! the interests the server is told of.
use vstd::prelude::*;

use crate::client::users::{contains_name, name_set, names_of};
use crate::protocol::server_request::ServerRequest;
use crate::text::text_eq;

verus! {

/// First delay before reconnecting, in milliseconds.
pub const RECONNECT_INITIAL_DELAY_MS: u64 = 5_000;

/// Longest delay before reconnecting, in milliseconds.
pub const RECONNECT_MAX_DELAY_MS: u64 = 300_000;

/// A random part of each reconnection delay, below ten seconds, so that
/// clients do not reconnect all at once.
pub fn reconnect_jitter() -> (ms: u64)
    ensures
        ms < 10_000,
{
    (crate::protocol::clock_subsec_nanos() % 10_000) as u64
}

/// Whether the client is connected or logged in, and when it reconnects.
pub struct Session {
    pub connected: bool,
    pub logged_in: bool,
    pub reconnect_now: bool,
    pub reconnect_at: Option<u64>,
    pub reconnect_delay_ms: u64,
}

impl Session {
    /// The delay before the next reconnection.
    pub closed spec fn delay(&self) -> u64 {
        self.reconnect_delay_ms
    }

    /// The delay stays between its first and its longest value.
    pub open spec fn wf(&self) -> bool {
        RECONNECT_INITIAL_DELAY_MS <= self.reconnect_delay_ms <= RECONNECT_MAX_DELAY_MS
    }

    pub fn new() -> (s: Self)
        ensures
            s.wf(),
            !s.connected && !s.logged_in && !s.reconnect_now,
            s.reconnect_at is None,
            s.delay() == RECONNECT_INITIAL_DELAY_MS,
    {
        Session {
            connected: false,
            logged_in: false,
            reconnect_now: false,
            reconnect_at: None,
            reconnect_delay_ms: RECONNECT_INITIAL_DELAY_MS,
        }
    }

    /// A reconnection is asked for: a connected session disconnects first
    /// and connects once disconnected (`true`); otherwise it connects now
    /// (`false`).
    pub fn reconnect(&mut self) -> (disconnect_first: bool)
        ensures
            final(self).reconnect_at is None,
            disconnect_first == old(self).connected,
            old(self).connected ==> final(self).reconnect_now && final(self).connected,
            !old(self).connected ==> final(self).connected && final(self).reconnect_now == old(
                self,
            ).reconnect_now,
            final(self).logged_in == old(self).logged_in,
            final(self).delay() == old(self).delay(),
            old(self).wf() ==> final(self).wf(),
    {
        self.reconnect_at = None;
        if self.connected {
            self.reconnect_now = true;
            true
        } else {
            self.connected = true;
            false
        }
    }

    /// Logged in: the delay starts over and no reconnection is pending.
    pub fn logged_in(&mut self)
        ensures
            final(self).wf(),
            final(self).logged_in,
            final(self).connected == old(self).connected,
            final(self).reconnect_now == old(self).reconnect_now,
            final(self).reconnect_at is None,
            final(self).delay() == RECONNECT_INITIAL_DELAY_MS,
    {
        self.logged_in = true;
        self.reconnect_delay_ms = RECONNECT_INITIAL_DELAY_MS;
        self.reconnect_at = None;
    }

    /// Plans a reconnection after the delay and the jitter; the next delay
    /// doubles, up to the longest.
    pub fn schedule_reconnect(&mut self, now_ms: u64, jitter_ms: u64)
        requires
            old(self).wf(),
        ensures
            final(self).wf(),
            final(self).reconnect_at == Some(
                if now_ms + old(self).delay() + jitter_ms > u64::MAX {
                    u64::MAX
                } else {
                    (now_ms + old(self).delay() + jitter_ms) as u64
                },
            ),
            final(self).delay() == if 2 * old(self).delay() > RECONNECT_MAX_DELAY_MS {
                RECONNECT_MAX_DELAY_MS
            } else {
                (2 * old(self).delay()) as u64
            },
            final(self).connected == old(self).connected,
            final(self).logged_in == old(self).logged_in,
            final(self).reconnect_now == old(self).reconnect_now,
    {
        let at = now_ms.saturating_add(self.reconnect_delay_ms).saturating_add(jitter_ms);
        self.reconnect_at = Some(at);
        let doubled = self.reconnect_delay_ms * 2;
        self.reconnect_delay_ms = if doubled > RECONNECT_MAX_DELAY_MS {
            RECONNECT_MAX_DELAY_MS
        } else {
            doubled
        };
    }

    /// The listen port could not be bound: not connected, and a
    /// reconnection is planned when the client reconnects by itself.
    pub fn listen_failed(&mut self, auto_reconnect: bool, now_ms: u64, jitter_ms: u64)
        requires
            old(self).wf(),
        ensures
            final(self).wf(),
            !final(self).connected,
            auto_reconnect ==> final(self).reconnect_at is Some,
            !auto_reconnect ==> final(self).reconnect_at == old(self).reconnect_at,
    {
        self.connected = false;
        if auto_reconnect {
            self.schedule_reconnect(now_ms, jitter_ms);
        }
    }

    /// The server connection ended.  A reconnection asked for connects
    /// again now (`true`); a connection lost without being asked to is
    /// retried later when the client reconnects by itself.
    pub fn server_disconnected(&mut self, manual: bool, auto_reconnect: bool, now_ms: u64, jitter_ms: u64) -> (connect_now: bool)
        requires
            old(self).wf(),
        ensures
            final(self).wf(),
            !final(self).logged_in,
            connect_now == old(self).reconnect_now,
            !final(self).reconnect_now,
            final(self).connected == connect_now,
            !connect_now && !manual && auto_reconnect ==> final(self).reconnect_at is Some,
            !connect_now && (manual || !auto_reconnect) ==> final(self).reconnect_at == old(
                self,
            ).reconnect_at,
    {
        self.logged_in = false;
        self.connected = false;
        if self.reconnect_now {
            self.reconnect_now = false;
            self.connected = true;
            return true;
        }
        if !manual && auto_reconnect {
            self.schedule_reconnect(now_ms, jitter_ms);
        }
        false
    }
}

/// The things the user likes and hates, as told to the server.
pub struct Interests {
    liked: Vec<String>,
    hated: Vec<String>,
}

impl Interests {
    pub closed spec fn liked(&self) -> Seq<Seq<char>> {
        names_of(self.liked@)
    }

    pub closed spec fn hated(&self) -> Seq<Seq<char>> {
        names_of(self.hated@)
    }

    pub fn new(liked: Vec<String>, hated: Vec<String>) -> (i: Self)
        ensures
            i.liked() == names_of(liked@),
            i.hated() == names_of(hated@),
    {
        Interests { liked, hated }
    }

    /// Adds a thing to the liked or hated list, once, and gives the
    /// request that tells the server.
    pub fn add(&mut self, thing: String, hated: bool) -> (request: ServerRequest)
        ensures
            hated ==> (request matches ServerRequest::AddThingIHate { thing: t } && t@ == thing@)
                && final(self).liked() == old(self).liked() && final(self).hated() == if old(
                self,
            ).hated().contains(thing@) {
                old(self).hated()
            } else {
                old(self).hated().push(thing@)
            },
            !hated ==> (request matches ServerRequest::AddThingILike { thing: t } && t@ == thing@)
                && final(self).hated() == old(self).hated() && final(self).liked() == if old(
                self,
            ).liked().contains(thing@) {
                old(self).liked()
            } else {
                old(self).liked().push(thing@)
            },
    {
        let list = if hated {
            &mut self.hated
        } else {
            &mut self.liked
        };
        let request = if hated {
            ServerRequest::AddThingIHate { thing: thing.clone() }
        } else {
            ServerRequest::AddThingILike { thing: thing.clone() }
        };
        proof {
            assert(name_set(list@).contains(thing@) == names_of(list@).contains(thing@));
        }
        if !contains_name(list, thing.as_str()) {
            let ghost before = list@;
            list.push(thing);
            proof {
                assert(names_of(list@) =~= names_of(before).push(list@.last()@));
            }
        }
        request
    }

    /// Removes a thing from the liked or hated list, and gives the request
    /// that tells the server.
    pub fn remove(&mut self, thing: &str, hated: bool) -> (request: ServerRequest)
        ensures
            hated ==> (request matches ServerRequest::RemoveThingIHate { thing: t } && t@ == thing@)
                && final(self).liked() == old(self).liked() && final(self).hated() == old(
                self,
            ).hated().filter(|n: Seq<char>| n != thing@),
            !hated ==> (request matches ServerRequest::RemoveThingILike { thing: t } && t@ == thing@)
                && final(self).hated() == old(self).hated() && final(self).liked() == old(
                self,
            ).liked().filter(|n: Seq<char>| n != thing@),
    {
        let request = if hated {
            ServerRequest::RemoveThingIHate { thing: thing.to_owned() }
        } else {
            ServerRequest::RemoveThingILike { thing: thing.to_owned() }
        };
        if hated {
            self.hated = without_name(&self.hated, thing);
        } else {
            self.liked = without_name(&self.liked, thing);
        }
        request
    }

    /// What the server is told after logging in: our own user to watch,
    /// the shared counts, every interest, and a check of privileges.
    pub fn login_requests(&self, username: &str, folders: u32, files: u32) -> (requests: Vec<ServerRequest>)
        ensures
            requests@.len() == self.liked().len() + self.hated().len() + 3,
            requests@[0] matches ServerRequest::WatchUser { user } && user@ == username@,
            requests@[1] == (ServerRequest::SharedFoldersFiles { folders, files }),
            forall|i: int| 0 <= i < self.liked().len() ==> (#[trigger] requests@[2 + i] matches ServerRequest::AddThingILike {
                thing,
            } && thing@ == self.liked()[i]),
            forall|i: int| 0 <= i < self.hated().len() ==> (#[trigger] requests@[2 + self.liked().len() + i] matches ServerRequest::AddThingIHate {
                thing,
            } && thing@ == self.hated()[i]),
            requests@.last() == ServerRequest::CheckPrivileges,
    {
        let mut requests: Vec<ServerRequest> = Vec::new();
        requests.push(ServerRequest::WatchUser { user: username.to_owned() });
        requests.push(ServerRequest::SharedFoldersFiles { folders, files });
        let mut i: usize = 0;
        while i < self.liked.len()
            invariant
                i <= self.liked@.len(),
                requests@.len() == 2 + i,
                requests@[0] matches ServerRequest::WatchUser { user } && user@ == username@,
                requests@[1] == (ServerRequest::SharedFoldersFiles { folders, files }),
                forall|j: int| 0 <= j < i ==> (#[trigger] requests@[2 + j] matches ServerRequest::AddThingILike {
                    thing,
                } && thing@ == self.liked@[j]@),
            decreases self.liked@.len() - i,
        {
            requests.push(ServerRequest::AddThingILike { thing: self.liked[i].clone() });
            i = i + 1;
        }
        let mut k: usize = 0;
        while k < self.hated.len()
            invariant
                i == self.liked@.len(),
                k <= self.hated@.len(),
                requests@.len() == 2 + i + k,
                requests@[0] matches ServerRequest::WatchUser { user } && user@ == username@,
                requests@[1] == (ServerRequest::SharedFoldersFiles { folders, files }),
                forall|j: int| 0 <= j < i ==> (#[trigger] requests@[2 + j] matches ServerRequest::AddThingILike {
                    thing,
                } && thing@ == self.liked@[j]@),
                forall|j: int| 0 <= j < k ==> (#[trigger] requests@[2 + i + j] matches ServerRequest::AddThingIHate {
                    thing,
                } && thing@ == self.hated@[j]@),
            decreases self.hated@.len() - k,
        {
            requests.push(ServerRequest::AddThingIHate { thing: self.hated[k].clone() });
            k = k + 1;
        }
        requests.push(ServerRequest::CheckPrivileges);
        requests
    }
}

/// A list of names without the ones equal to `name`.
fn without_name(list: &Vec<String>, name: &str) -> (out: Vec<String>)
    ensures
        names_of(out@) == names_of(list@).filter(|n: Seq<char>| n != name@),
{
    let mut out: Vec<String> = Vec::new();
    let mut i: usize = 0;
    proof {
        reveal(Seq::filter);
    }
    while i < list.len()
        invariant
            i <= list@.len(),
            names_of(out@) == names_of(list@.take(i as int)).filter(|n: Seq<char>| n != name@),
        decreases list@.len() - i,
    {
        proof {
            reveal(Seq::filter);
            assert(names_of(list@.take(i + 1)).drop_last() =~= names_of(list@.take(i as int)));
            assert(names_of(list@.take(i + 1)).last() == list@[i as int]@);
        }
        if !text_eq(list[i].as_str(), name) {
            let ghost before = names_of(out@);
            out.push(list[i].clone());
            proof {
                assert(names_of(out@) =~= before.push(list@[i as int]@));
            }
        }
        i = i + 1;
    }
    proof {
        assert(list@.take(i as int) =~= list@);
    }
    out
}

} // verus!
