//! Attempts to connect to peers: each is known by an id, by the token of
//! the indirect request sent for it through the server, and, for message
//! and distributed connections, by its user and connection type.
use vstd::prelude::*;

use crate::protocol::increment_token;
use crate::text::text_eq;
use crate::types::{ConnId, ConnectionType};

verus! {

/// Indirect requests unanswered this long fail (milliseconds).
pub const INDIRECT_REQUEST_TIMEOUT_MS: u64 = 20_000;

/// One attempt to connect to a user.
#[derive(Debug)]
pub struct Attempt {
    pub id: u64,
    pub username: String,
    pub conn_type: ConnectionType,
    /// Token of the indirect request sent for it.
    pub token: u32,
    /// The peer's answer to the indirect request is still awaited.
    pub pierce_open: bool,
    /// It is the attempt found for its user and connection type.
    pub current: bool,
    pub conn_id: Option<ConnId>,
    pub established: bool,
    pub created_ms: u64,
}

/// A copy of an attempt.
fn copy_attempt(a: &Attempt) -> (c: Attempt)
    ensures
        c == *a,
{
    Attempt {
        id: a.id,
        username: a.username.clone(),
        conn_type: a.conn_type,
        token: a.token,
        pierce_open: a.pierce_open,
        current: a.current,
        conn_id: a.conn_id,
        established: a.established,
        created_ms: a.created_ms,
    }
}

/// The attempts under way.
pub struct Attempts {
    list: Vec<Attempt>,
    token: u32,
    next_id: u64,
}

/// The attempt a user's connection of a type goes through: message and
/// distributed connections share one attempt per user; file connections
/// never do.
pub open spec fn found_for(a: Attempt, name: Seq<char>, conn_type: ConnectionType) -> bool {
    a.current && a.username@ == name && a.conn_type == conn_type
}

/// Where an attempt with this id stands in a list.
pub open spec fn index_of_id(s: Seq<Attempt>, id: u64) -> Option<int> {
    if exists|i: int| 0 <= i < s.len() && #[trigger] s[i].id == id {
        Some(choose|i: int| 0 <= i < s.len() && #[trigger] s[i].id == id)
    } else {
        None
    }
}

/// The first attempt that meets `p`.
pub open spec fn first_where(s: Seq<Attempt>, p: spec_fn(Attempt) -> bool) -> Option<int> {
    if exists|i: int| 0 <= i < s.len() && p(#[trigger] s[i]) && forall|j: int| 0 <= j < i ==> !p(#[trigger] s[j]) {
        Some(choose|i: int| 0 <= i < s.len() && p(#[trigger] s[i]) && forall|j: int| 0 <= j < i ==> !p(#[trigger] s[j]))
    } else {
        None
    }
}

/// `k` is where the first attempt meeting `p` stands, if any.
proof fn lemma_first_where(s: Seq<Attempt>, p: spec_fn(Attempt) -> bool, k: Option<usize>)
    requires
        match k {
            Some(i) => i < s.len() && p(s[i as int]) && forall|j: int| 0 <= j < i ==> !p(#[trigger] s[j]),
            None => forall|j: int| 0 <= j < s.len() ==> !p(#[trigger] s[j]),
        },
    ensures
        first_where(s, p) == match k {
            Some(i) => Some(i as int),
            None => None,
        },
{
    if let Some(i) = k {
        assert(p(s[i as int]));
        assert(exists|x: int| 0 <= x < s.len() && p(#[trigger] s[x]) && forall|j: int| 0 <= j < x ==> !p(#[trigger] s[j]));
        let x = choose|x: int| 0 <= x < s.len() && p(#[trigger] s[x]) && forall|j: int| 0 <= j < x ==> !p(#[trigger] s[j]);
        if x < i {
            assert(!p(s[x]));
        }
        if x > i {
            assert(!p(s[i as int]));
        }
    }
}

/// The attempt goes through this connection.
pub open spec fn on_conn(conn_id: ConnId) -> spec_fn(Attempt) -> bool {
    |a: Attempt| a.conn_id == Some(conn_id)
}

/// The attempt still waits for the answer to the indirect request `token`.
pub open spec fn waits_for(token: u32) -> spec_fn(Attempt) -> bool {
    |a: Attempt| a.pierce_open && a.token == token
}

/// What registering an attempt does: the next id and the next indirect
/// token; the new attempt comes last and, for a message or distributed
/// connection, becomes the one found for its user and type.
pub open spec fn register_effect(
    before: Attempts,
    after: Attempts,
    username: Seq<char>,
    conn_type: ConnectionType,
    now_ms: u64,
    id: u64,
    token: u32,
) -> bool {
    &&& id == before.next_id()
    &&& token == if before.last_token() == u32::MAX { 1 } else { (before.last_token() + 1) as u32 }
    &&& after.last_token() == token
    &&& after.next_id() == before.next_id() + 1
    &&& after.attempts().len() == before.attempts().len() + 1
    &&& ({
        let a = after.attempts().last();
        &&& a.id == id && a.username@ == username && a.conn_type == conn_type && a.token == token
        &&& a.pierce_open && a.current == (conn_type != ConnectionType::File)
        &&& a.conn_id is None && !a.established && a.created_ms == now_ms
    })
    &&& forall|i: int| 0 <= i < before.attempts().len() ==> #[trigger] after.attempts()[i] == (Attempt {
        current: before.attempts()[i].current && !(conn_type != ConnectionType::File
            && before.attempts()[i].username@ == username && before.attempts()[i].conn_type == conn_type),
        ..before.attempts()[i]
    })
}

/// What adopting a user's incoming connection does: the attempt found for
/// the user and type, if any, is dropped and handed back, and an
/// established one through the connection takes its place.
pub open spec fn incoming_effect(
    before: Attempts,
    after: Attempts,
    username: Seq<char>,
    conn_type: ConnectionType,
    conn_id: ConnId,
    now_ms: u64,
    id: u64,
    previous: Option<Attempt>,
) -> bool {
    &&& id == before.next_id()
    &&& after.next_id() == before.next_id() + 1
    &&& after.last_token() == before.last_token()
    &&& match previous {
        Some(prev) => found_for(prev, username, conn_type) && (exists|i: int| 0 <= i < before.attempts().len()
            && #[trigger] before.attempts()[i] == prev),
        None => forall|i: int| 0 <= i < before.attempts().len() ==> !found_for(
            #[trigger] before.attempts()[i],
            username,
            conn_type,
        ),
    }
    &&& after.attempts().len() >= 1
    &&& ({
        let a = after.attempts().last();
        &&& a.id == id && a.username@ == username && a.conn_type == conn_type && a.token == 0
        &&& !a.pierce_open && a.current && a.conn_id == Some(conn_id) && a.established && a.created_ms == now_ms
    })
}

/// Claiming `token` took the attempt `id` off waiting, or, with no id, found
/// none waiting for it.
pub open spec fn pierce_claimed(before: Seq<Attempt>, after: Seq<Attempt>, token: u32, id: Option<u64>) -> bool {
    match id {
        Some(x) => exists|i: int|
            0 <= i < before.len() && #[trigger] before[i].id == x && before[i].pierce_open && before[i].token == token
                && after =~= before.update(i, Attempt { pierce_open: false, ..before[i] }),
        None => after =~= before && forall|i: int| 0 <= i < before.len() ==> !(#[trigger] before[i].pierce_open
            && before[i].token == token),
    }
}

/// An answer to an indirect request is taken once: two claims in a row
/// never give the same attempt.
pub proof fn law_pierce_claimed_once(a0: Attempts, a1: Attempts, a2: Attempts, t1: u32, t2: u32, x: u64, y: u64)
    requires
        a0.wf(),
        pierce_claimed(a0.attempts(), a1.attempts(), t1, Some(x)),
        pierce_claimed(a1.attempts(), a2.attempts(), t2, Some(y)),
    ensures
        x != y,
{
    let s0 = a0.attempts();
    let s1 = a1.attempts();
    let i = choose|i: int| 0 <= i < s0.len() && #[trigger] s0[i].id == x && s0[i].pierce_open && s0[i].token == t1
        && s1 =~= s0.update(i, Attempt { pierce_open: false, ..s0[i] });
    let j = choose|j: int| 0 <= j < s1.len() && #[trigger] s1[j].id == y && s1[j].pierce_open && s1[j].token == t2
        && a2.attempts() =~= s1.update(j, Attempt { pierce_open: false, ..s1[j] });
    if x == y {
        assert(s0[j].id == s1[j].id);
        assert(s0[i].id == s0[j].id);
        assert(i == j);
        assert(!s1[i].pierce_open);
    }
}

impl Attempts {
    pub closed spec fn attempts(&self) -> Seq<Attempt> {
        self.list@
    }

    /// The id the next attempt gets.
    pub closed spec fn next_id(&self) -> u64 {
        self.next_id
    }

    /// The token of the last indirect request.
    pub closed spec fn last_token(&self) -> u32 {
        self.token
    }

    /// Ids are below the next one and distinct; each user and type has one
    /// current attempt at most, never a file one.
    pub open spec fn wf(&self) -> bool {
        &&& forall|i: int| 0 <= i < self.attempts().len() ==> #[trigger] self.attempts()[i].id < self.next_id()
        &&& forall|i: int, j: int|
            0 <= i < self.attempts().len() && 0 <= j < self.attempts().len() && #[trigger] self.attempts()[i].id
                == #[trigger] self.attempts()[j].id ==> i == j
        &&& forall|i: int| 0 <= i < self.attempts().len() && (#[trigger] self.attempts()[i]).current
            ==> self.attempts()[i].conn_type != ConnectionType::File
        &&& forall|i: int, j: int|
            0 <= i < self.attempts().len() && 0 <= j < self.attempts().len() && (#[trigger] self.attempts()[i]).current
                && (#[trigger] self.attempts()[j]).current && self.attempts()[i].username@
                == self.attempts()[j].username@ && self.attempts()[i].conn_type == self.attempts()[j].conn_type
                ==> i == j
    }

    pub fn new(first_token: u32) -> (a: Self)
        ensures
            a.wf(),
            a.attempts().len() == 0,
            a.last_token() == first_token,
            a.next_id() == 1,
    {
        Attempts { list: Vec::new(), token: first_token, next_id: 1 }
    }

    /// There is an id left for another attempt.
    pub fn can_register(&self) -> (b: bool)
        ensures
            b == (self.next_id() < u64::MAX),
    {
        self.next_id < u64::MAX
    }

    /// The user and connection type of the attempt with this id.
    pub fn target(&self, id: u64) -> (t: Option<(String, ConnectionType)>)
        requires
            self.wf(),
        ensures
            match self.position_spec(id) {
                Some(i) => t == Some((self.attempts()[i].username, self.attempts()[i].conn_type)),
                None => t is None,
            },
    {
        match self.position(id) {
            Some(i) => Some((self.list[i].username.clone(), self.list[i].conn_type)),
            None => None,
        }
    }

    /// The position of the attempt with this id.
    pub fn position(&self, id: u64) -> (p: Option<usize>)
        ensures
            match p {
                Some(i) => i < self.attempts().len() && self.attempts()[i as int].id == id,
                None => forall|i: int| 0 <= i < self.attempts().len() ==> #[trigger] self.attempts()[i].id != id,
            },
    {
        let mut i: usize = 0;
        while i < self.list.len()
            invariant
                i <= self.list@.len(),
                forall|j: int| 0 <= j < i ==> #[trigger] self.list@[j].id != id,
            decreases self.list@.len() - i,
        {
            if self.list[i].id == id {
                return Some(i);
            }
            i = i + 1;
        }
        None
    }

    /// The attempt already under way for a user's connection of a type, if
    /// any: none for file connections, which are never shared.
    pub fn existing_attempt(&self, username: &str, conn_type: ConnectionType) -> (id: Option<u64>)
        ensures
            match id {
                Some(x) => exists|i: int| 0 <= i < self.attempts().len() && self.attempts()[i].id == x
                    && found_for(#[trigger] self.attempts()[i], username@, conn_type),
                None => forall|i: int| 0 <= i < self.attempts().len() ==> !found_for(
                    #[trigger] self.attempts()[i],
                    username@,
                    conn_type,
                ),
            },
    {
        let mut i: usize = 0;
        while i < self.list.len()
            invariant
                i <= self.list@.len(),
                forall|j: int| 0 <= j < i ==> !found_for(#[trigger] self.list@[j], username@, conn_type),
            decreases self.list@.len() - i,
        {
            let a = &self.list[i];
            if a.current && a.conn_type == conn_type && text_eq(a.username.as_str(), username) {
                proof {
                    assert(found_for(self.attempts()[i as int], username@, conn_type));
                }
                return Some(a.id);
            }
            i = i + 1;
        }
        None
    }

    /// A new attempt: a fresh id and the next indirect token; a message or
    /// distributed attempt becomes the one found for its user and type.
    pub fn register(&mut self, username: String, conn_type: ConnectionType, now_ms: u64) -> (res: (u64, u32))
        requires
            old(self).wf(),
            old(self).next_id() < u64::MAX,
        ensures
            final(self).wf(),
            register_effect(*old(self), *final(self), username@, conn_type, now_ms, res.0, res.1),
    {
        let token = increment_token(self.token);
        self.token = token;
        let id = self.next_id;
        self.next_id = self.next_id + 1;
        let shared = match conn_type {
            ConnectionType::File => false,
            _ => true,
        };
        let ghost before = self.list@;
        let mut i: usize = 0;
        while i < self.list.len()
            invariant
                i <= self.list@.len(),
                self.list@.len() == before.len(),
                before == old(self).list@,
                old(self).wf(),
                self.token == token,
                id == old(self).next_id,
                self.next_id == id + 1,
                shared == (conn_type != ConnectionType::File),
                forall|j: int| 0 <= j < i ==> #[trigger] self.list@[j] == (Attempt {
                    current: before[j].current && !(shared && before[j].username@ == username@
                        && before[j].conn_type == conn_type),
                    ..before[j]
                }),
                forall|j: int| i <= j < before.len() ==> #[trigger] self.list@[j] == before[j],
            decreases before.len() - i,
        {
            if shared && self.list[i].current && self.list[i].conn_type == conn_type && text_eq(
                self.list[i].username.as_str(),
                username.as_str(),
            ) {
                let mut a = copy_attempt(&self.list[i]);
                a.current = false;
                self.list.set(i, a);
            }
            i = i + 1;
        }
        self.list.push(
            Attempt {
                id,
                username,
                conn_type,
                token,
                pierce_open: true,
                current: shared,
                conn_id: None,
                established: false,
                created_ms: now_ms,
            },
        );
        (id, token)
    }

    /// The peer answered the indirect request of `token`: the attempt it
    /// belongs to, if any still waits for it, stops waiting.
    pub fn claim_pierce(&mut self, token: u32) -> (id: Option<u64>)
        requires
            old(self).wf(),
        ensures
            final(self).wf(),
            final(self).next_id() == old(self).next_id(),
            final(self).last_token() == old(self).last_token(),
            final(self).attempts().len() == old(self).attempts().len(),
            pierce_claimed(old(self).attempts(), final(self).attempts(), token, id),
            match first_where(old(self).attempts(), waits_for(token)) {
                Some(i) => id == Some(old(self).attempts()[i].id) && final(self).attempts() == old(self).attempts().update(
                    i,
                    Attempt { pierce_open: false, ..old(self).attempts()[i] },
                ),
                None => id is None && final(self).attempts() == old(self).attempts(),
            },
    {
        let mut i: usize = 0;
        while i < self.list.len()
            invariant
                i <= self.list@.len(),
                self.list@ == old(self).list@,
                self.token == old(self).token,
                self.next_id == old(self).next_id,
                old(self).wf(),
                forall|j: int| 0 <= j < i ==> !(#[trigger] self.list@[j].pierce_open && self.list@[j].token == token),
            decreases self.list@.len() - i,
        {
            if self.list[i].pierce_open && self.list[i].token == token {
                proof {
                    assert forall|j: int| 0 <= j < i implies !waits_for(token)(#[trigger] self.list@[j]) by {
                        assert(!(self.list@[j].pierce_open && self.list@[j].token == token));
                    }
                    lemma_first_where(old(self).attempts(), waits_for(token), Some(i));
                }
                let mut a = copy_attempt(&self.list[i]);
                a.pierce_open = false;
                let id = a.id;
                self.list.set(i, a);
                proof {
                    assert forall|j: int| 0 <= j < self.list@.len() implies {
                        &&& #[trigger] self.list@[j].id == old(self).list@[j].id
                        &&& self.list@[j].current == old(self).list@[j].current
                        &&& self.list@[j].username == old(self).list@[j].username
                        &&& self.list@[j].conn_type == old(self).list@[j].conn_type
                    } by {}
                }
                return Some(id);
            }
            i = i + 1;
        }
        proof {
            assert forall|j: int| 0 <= j < self.list@.len() implies !waits_for(token)(#[trigger] self.list@[j]) by {
                assert(!(self.list@[j].pierce_open && self.list@[j].token == token));
            }
            lemma_first_where(old(self).attempts(), waits_for(token), None);
        }
        None
    }

    /// The connection of an attempt is up.
    pub fn mark_established(&mut self, id: u64, conn_id: ConnId) -> (found: bool)
        requires
            old(self).wf(),
        ensures
            final(self).wf(),
            final(self).next_id() == old(self).next_id(),
            final(self).last_token() == old(self).last_token(),
            match old(self).position_spec(id) {
                Some(i) => found && final(self).attempts() == old(self).attempts().update(
                    i,
                    Attempt { established: true, conn_id: Some(conn_id), ..old(self).attempts()[i] },
                ),
                None => !found && final(self).attempts() == old(self).attempts(),
            },
    {
        match self.position(id) {
            Some(i) => {
                let mut a = copy_attempt(&self.list[i]);
                a.established = true;
                a.conn_id = Some(conn_id);
                self.list.set(i, a);
                true
            },
            None => false,
        }
    }

    /// Where the attempt with this id stands.
    pub open spec fn position_spec(&self, id: u64) -> Option<int> {
        index_of_id(self.attempts(), id)
    }

    /// An attempt ends: it is forgotten with its token and its place as
    /// the attempt found for its user.
    pub fn remove(&mut self, id: u64) -> (removed: Option<Attempt>)
        requires
            old(self).wf(),
        ensures
            final(self).wf(),
            final(self).next_id() == old(self).next_id(),
            final(self).last_token() == old(self).last_token(),
            match old(self).position_spec(id) {
                Some(i) => removed == Some(old(self).attempts()[i]) && final(self).attempts() == old(self).attempts().remove(i),
                None => removed is None && final(self).attempts() == old(self).attempts(),
            },
    {
        match self.position(id) {
            Some(i) => {
                proof {
                    assert(self.attempts()[i as int].id == id);
                }
                let a = self.list.remove(i);
                Some(a)
            },
            None => None,
        }
    }

    /// A user connected to us for messages or the distributed network: any
    /// attempt of ours for the same is dropped, and the connection becomes
    /// the established attempt found for them.
    pub fn adopt_incoming(&mut self, username: String, conn_type: ConnectionType, conn_id: ConnId, now_ms: u64) -> (res: (u64, Option<Attempt>))
        requires
            old(self).wf(),
            old(self).next_id() < u64::MAX,
            conn_type != ConnectionType::File,
        ensures
            final(self).wf(),
            incoming_effect(*old(self), *final(self), username@, conn_type, conn_id, now_ms, res.0, res.1),
    {
        let previous = match self.existing_attempt(username.as_str(), conn_type) {
            Some(prev_id) => self.remove(prev_id),
            None => None,
        };
        proof {
            if previous is Some {
                let old_list = old(self).attempts();
                let k = choose|i: int| 0 <= i < old_list.len() && #[trigger] old_list[i].id == previous->0.id;
                assert(old_list[k] == previous->0);
            }
        }
        let id = self.next_id;
        self.next_id = self.next_id + 1;
        let ghost mid = self.list@;
        proof {
            assert forall|i: int| 0 <= i < mid.len() implies !found_for(#[trigger] mid[i], username@, conn_type) by {
                if found_for(mid[i], username@, conn_type) {
                    if previous is Some {
                        let old_list = old(self).attempts();
                        let k = choose|x: int| 0 <= x < old_list.len() && #[trigger] old_list[x].id == previous->0.id;
                        let j = if i < k { i } else { i + 1 };
                        assert(old_list[j] == mid[i]);
                    } else {
                        assert(old(self).attempts()[i] == mid[i]);
                    }
                }
            }
        }
        self.list.push(
            Attempt {
                id,
                username,
                conn_type,
                token: 0,
                pierce_open: false,
                current: true,
                conn_id: Some(conn_id),
                established: true,
                created_ms: now_ms,
            },
        );
        (id, previous)
    }

    /// The attempt that still waits for the answer to `token`, if any.
    pub fn waiting_for(&self, token: u32) -> (id: Option<u64>)
        ensures
            id == match first_where(self.attempts(), waits_for(token)) {
                Some(i) => Some(self.attempts()[i].id),
                None => None,
            },
    {
        let mut i: usize = 0;
        while i < self.list.len()
            invariant
                i <= self.list@.len(),
                forall|j: int| 0 <= j < i ==> !waits_for(token)(#[trigger] self.list@[j]),
            decreases self.list@.len() - i,
        {
            if self.list[i].pierce_open && self.list[i].token == token {
                proof {
                    lemma_first_where(self.attempts(), waits_for(token), Some(i));
                }
                return Some(self.list[i].id);
            }
            i = i + 1;
        }
        proof {
            lemma_first_where(self.attempts(), waits_for(token), None);
        }
        None
    }

    /// A connection closed: an established attempt through it ends; one
    /// not yet established only loses the connection and waits for the
    /// answer to its indirect request.
    pub fn detach_conn(&mut self, conn_id: ConnId) -> (ended: Option<Attempt>)
        requires
            old(self).wf(),
        ensures
            final(self).wf(),
            final(self).next_id() == old(self).next_id(),
            final(self).last_token() == old(self).last_token(),
            match first_where(old(self).attempts(), on_conn(conn_id)) {
                None => ended is None && final(self).attempts() == old(self).attempts(),
                Some(i) => if old(self).attempts()[i].established {
                    ended == Some(old(self).attempts()[i]) && final(self).attempts() == old(self).attempts().remove(i)
                } else {
                    ended is None && final(self).attempts() == old(self).attempts().update(
                        i,
                        Attempt { conn_id: None, ..old(self).attempts()[i] },
                    )
                },
            },
    {
        let mut i: usize = 0;
        while i < self.list.len()
            invariant
                i <= self.list@.len(),
                self.list@ == old(self).list@,
                self.token == old(self).token,
                self.next_id == old(self).next_id,
                old(self).wf(),
                forall|j: int| 0 <= j < i ==> !on_conn(conn_id)(#[trigger] self.list@[j]),
            decreases self.list@.len() - i,
        {
            if self.list[i].conn_id == Some(conn_id) {
                proof {
                    lemma_first_where(self.attempts(), on_conn(conn_id), Some(i));
                }
                if self.list[i].established {
                    let a = self.list.remove(i);
                    proof {
                        assert forall|x: int, y: int|
                            0 <= x < self.attempts().len() && 0 <= y < self.attempts().len() && #[trigger] self.attempts()[x].id
                                == #[trigger] self.attempts()[y].id implies x == y by {
                            let ox = if x < i { x } else { x + 1 };
                            let oy = if y < i { y } else { y + 1 };
                            assert(old(self).attempts()[ox] == self.attempts()[x]);
                            assert(old(self).attempts()[oy] == self.attempts()[y]);
                        }
                        assert forall|x: int, y: int|
                            0 <= x < self.attempts().len() && 0 <= y < self.attempts().len() && (#[trigger] self.attempts()[x]).current
                                && (#[trigger] self.attempts()[y]).current && self.attempts()[x].username@
                                == self.attempts()[y].username@ && self.attempts()[x].conn_type == self.attempts()[y].conn_type implies x == y by {
                            let ox = if x < i { x } else { x + 1 };
                            let oy = if y < i { y } else { y + 1 };
                            assert(old(self).attempts()[ox] == self.attempts()[x]);
                            assert(old(self).attempts()[oy] == self.attempts()[y]);
                        }
                    }
                    return Some(a);
                }
                let mut a = copy_attempt(&self.list[i]);
                a.conn_id = None;
                self.list.set(i, a);
                proof {
                    assert forall|j: int| 0 <= j < self.list@.len() implies {
                        &&& #[trigger] self.list@[j].id == old(self).list@[j].id
                        &&& self.list@[j].current == old(self).list@[j].current
                        &&& self.list@[j].username == old(self).list@[j].username
                        &&& self.list@[j].conn_type == old(self).list@[j].conn_type
                    } by {}
                }
                return None;
            }
            i = i + 1;
        }
        proof {
            lemma_first_where(self.attempts(), on_conn(conn_id), None);
        }
        None
    }

    /// The direct connection opened for an attempt.
    pub fn set_conn(&mut self, id: u64, conn_id: ConnId) -> (found: bool)
        requires
            old(self).wf(),
        ensures
            final(self).wf(),
            final(self).next_id() == old(self).next_id(),
            final(self).last_token() == old(self).last_token(),
            match old(self).position_spec(id) {
                Some(i) => found && final(self).attempts() == old(self).attempts().update(
                    i,
                    Attempt { conn_id: Some(conn_id), ..old(self).attempts()[i] },
                ),
                None => !found && final(self).attempts() == old(self).attempts(),
            },
    {
        match self.position(id) {
            Some(i) => {
                let mut a = copy_attempt(&self.list[i]);
                a.conn_id = Some(conn_id);
                self.list.set(i, a);
                true
            },
            None => false,
        }
    }

    /// The connection of the attempt with this id, and whether it is up.
    pub fn conn_of(&self, id: u64) -> (c: (Option<ConnId>, bool))
        requires
            self.wf(),
        ensures
            match self.position_spec(id) {
                Some(i) => c == (self.attempts()[i].conn_id, self.attempts()[i].established),
                None => c == (None::<ConnId>, false),
            },
    {
        match self.position(id) {
            Some(i) => (self.list[i].conn_id, self.list[i].established),
            None => (None, false),
        }
    }

    /// Forgets every attempt; ids and tokens go on from where they were.
    pub fn clear(&mut self)
        requires
            old(self).wf(),
        ensures
            final(self).wf(),
            final(self).attempts().len() == 0,
            final(self).next_id() == old(self).next_id(),
            final(self).last_token() == old(self).last_token(),
    {
        self.list = Vec::new();
    }

    /// The attempts whose indirect request has gone unanswered for longer
    /// than the timeout, in order.
    pub fn expired(&self, now_ms: u64) -> (ids: Vec<u64>)
        ensures
            forall|x: u64| ids@.contains(x) <==> exists|i: int| 0 <= i < self.attempts().len() && #[trigger] self.attempts()[i].id == x
                && !self.attempts()[i].established && now_ms >= self.attempts()[i].created_ms
                && now_ms - self.attempts()[i].created_ms > INDIRECT_REQUEST_TIMEOUT_MS,
    {
        let mut ids: Vec<u64> = Vec::new();
        let mut i: usize = 0;
        while i < self.list.len()
            invariant
                i <= self.list@.len(),
                forall|x: u64| ids@.contains(x) <==> exists|j: int| 0 <= j < i && #[trigger] self.list@[j].id == x
                    && !self.list@[j].established && now_ms >= self.list@[j].created_ms
                    && now_ms - self.list@[j].created_ms > INDIRECT_REQUEST_TIMEOUT_MS,
            decreases self.list@.len() - i,
        {
            let a = &self.list[i];
            if !a.established && now_ms >= a.created_ms && now_ms - a.created_ms > INDIRECT_REQUEST_TIMEOUT_MS {
                let ghost before = ids@;
                ids.push(a.id);
                proof {
                    assert forall|x: u64| ids@.contains(x) <==> exists|j: int| 0 <= j < i + 1 && #[trigger] self.list@[j].id == x
                        && !self.list@[j].established && now_ms >= self.list@[j].created_ms
                        && now_ms - self.list@[j].created_ms > INDIRECT_REQUEST_TIMEOUT_MS by {
                        if ids@.contains(x) {
                            let k = choose|k: int| 0 <= k < ids@.len() && ids@[k] == x;
                            if k < before.len() {
                                assert(before.contains(x));
                            }
                        }
                        if before.contains(x) {
                            let k = choose|k: int| 0 <= k < before.len() && before[k] == x;
                            assert(ids@[k] == x);
                        }
                        if x == self.list@[i as int].id {
                            assert(ids@[before.len() as int] == x);
                        }
                    }
                }
            } else {
                proof {
                    assert forall|x: u64| ids@.contains(x) <==> exists|j: int| 0 <= j < i + 1 && #[trigger] self.list@[j].id == x
                        && !self.list@[j].established && now_ms >= self.list@[j].created_ms
                        && now_ms - self.list@[j].created_ms > INDIRECT_REQUEST_TIMEOUT_MS by {
                        if exists|j: int| 0 <= j < i + 1 && #[trigger] self.list@[j].id == x
                            && !self.list@[j].established && now_ms >= self.list@[j].created_ms
                            && now_ms - self.list@[j].created_ms > INDIRECT_REQUEST_TIMEOUT_MS {
                            let j = choose|j: int| 0 <= j < i + 1 && #[trigger] self.list@[j].id == x
                                && !self.list@[j].established && now_ms >= self.list@[j].created_ms
                                && now_ms - self.list@[j].created_ms > INDIRECT_REQUEST_TIMEOUT_MS;
                            assert(j != i);
                        }
                    }
                }
            }
            i = i + 1;
        }
        ids
    }
}

} // verus!
