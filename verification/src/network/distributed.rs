//! Our place in the distributed search network: the parent searches come
//! from, the children they are passed on to, and what the server is told
//! of the branch we are on.
use vstd::prelude::*;

use crate::protocol::distributed::{distributed_parsed, DistributedMessage};
use crate::protocol::server_request::ServerRequest;
use crate::protocol::server_response::ParentCandidate;
use crate::text::text_eq;
use crate::types::ConnId;

verus! {

/// The most children taken, whatever the upload speed.
pub const MAX_DISTRIB_CHILDREN_LIMIT: u32 = 10;

/// The identifier of a search request in the distributed network.
pub const DISTRIBUTED_SEARCH_ID: u32 = 49;

/// A user the server offered as parent, and what it has said of its branch.
#[derive(Debug)]
pub struct PotentialParent {
    pub username: String,
    pub conn_id: Option<ConnId>,
    pub branch_level: Option<i32>,
    pub branch_root: Option<String>,
}

/// What the network layer is asked to do.
#[derive(Debug)]
pub enum DistribAction {
    Server(ServerRequest),
    Send { conn_id: ConnId, message: DistributedMessage },
    Close(ConnId),
    /// Open a distributed connection to a user at this address.
    Connect { username: String, ip_address: u32, port: u32 },
    /// A search to answer from our shares.
    Search { username: String, token: u32, search_term: String },
}

pub struct Distributed {
    /// The parent and its connection.
    pub parent: Option<(String, ConnId)>,
    pub potential_parents: Vec<PotentialParent>,
    pub branch_level: u32,
    pub branch_root: Option<String>,
    /// Searches come straight from the server: we are a branch root.
    pub is_server_parent: bool,
    pub children: Vec<(String, ConnId)>,
    pub max_children: u32,
    pub upload_speed: u32,
    pub parent_min_speed: u32,
    pub parent_speed_ratio: u32,
}

/// The action sends this message on this connection.
pub open spec fn is_send(a: DistribAction, c: ConnId, m: DistributedMessage) -> bool {
    a matches DistribAction::Send { conn_id, message } && conn_id == c && message@ == m@
}

/// The actions, from `start` on, send this message to each child in order.
pub open spec fn sent_to_children(
    actions: Seq<DistribAction>,
    start: int,
    children: Seq<(String, ConnId)>,
    m: DistributedMessage,
) -> bool {
    &&& actions.len() == start + children.len()
    &&& forall|i: int| 0 <= i < children.len() ==> is_send(#[trigger] actions[start + i], children[i].1, m)
}

/// The server is told we have no parent and take no children.
pub open spec fn no_parent_requests(root: Option<String>) -> Seq<DistribAction> {
    seq![DistribAction::Server(ServerRequest::HaveNoParent { no_parent: true })] + match root {
        Some(r) => seq![DistribAction::Server(ServerRequest::BranchRoot { user: r })],
        None => Seq::empty(),
    } + seq![
        DistribAction::Server(ServerRequest::BranchLevel { value: 0 }),
        DistribAction::Server(ServerRequest::AcceptChildren { enabled: false }),
    ]
}

/// The number of children an upload speed allows.
pub open spec fn children_allowed(speed: u32, min_speed: u32, ratio: u32) -> u32 {
    if speed >= min_speed && ratio > 0 {
        let n = speed / ratio / 100;
        if n < MAX_DISTRIB_CHILDREN_LIMIT { n } else { MAX_DISTRIB_CHILDREN_LIMIT }
    } else {
        0
    }
}

/// The connections of the candidates other than `keep` that are closed,
/// in order.
pub open spec fn candidate_closes(c: Seq<PotentialParent>, keep: Option<Seq<char>>) -> Seq<DistribAction>
    decreases c.len(),
{
    if c.len() == 0 {
        Seq::empty()
    } else {
        let last = c.last();
        candidate_closes(c.drop_last(), keep) + if last.conn_id is Some && keep != Some(last.username@) {
            seq![DistribAction::Close(last.conn_id->0)]
        } else {
            Seq::empty()
        }
    }
}

/// The candidate after its connection is closed unless it is `keep`.
pub open spec fn candidate_after_close(c: PotentialParent, keep: Option<Seq<char>>) -> PotentialParent {
    if keep == Some(c.username@) {
        c
    } else {
        PotentialParent { conn_id: None, ..c }
    }
}

/// The connections of the children, closed in order.
pub open spec fn child_closes(children: Seq<(String, ConnId)>) -> Seq<DistribAction> {
    Seq::new(children.len(), |i: int| DistribAction::Close(children[i].1))
}

/// A connection opened to each offered parent, in order.
pub open spec fn parent_connects(parents: Seq<ParentCandidate>) -> Seq<DistribAction> {
    Seq::new(parents.len(), |i: int| DistribAction::Connect {
        username: parents[i].username,
        ip_address: parents[i].ip_address,
        port: parents[i].port,
    })
}

/// The root of our branch as told to a child: empty when we know none.
pub open spec fn root_or_empty(root: Option<String>) -> String {
    match root {
        Some(r) => r,
        None => choose|e: String| e@ == Seq::<char>::empty(),
    }
}

/// What a new measure of our upload speed does: the number of children
/// allowed follows it, and the server hears when we stop taking children.
pub open spec fn own_speed_effect(
    d0: Distributed,
    d1: Distributed,
    speed: u32,
    a0: Seq<DistribAction>,
    a1: Seq<DistribAction>,
) -> bool {
    &&& d1.upload_speed == speed
    &&& d1.max_children == children_allowed(speed, d0.parent_min_speed, d0.parent_speed_ratio)
    &&& d1 == (Distributed { upload_speed: speed, max_children: d1.max_children, ..d0 })
    &&& a1 =~= a0 + if d1.max_children <= d0.children@.len() && d0.children@.len() < d0.max_children {
        seq![DistribAction::Server(ServerRequest::AcceptChildren { enabled: false })]
    } else {
        Seq::empty()
    }
}

/// What a user connecting to us as a child does: ourselves and offered
/// parents are no children; a refused one is closed; an accepted one is
/// kept and told our branch, and the server hears when we are full.
pub open spec fn child_effect(
    d0: Distributed,
    d1: Distributed,
    own: Option<String>,
    conn_id: ConnId,
    username: String,
    a0: Seq<DistribAction>,
    a1: Seq<DistribAction>,
    accepted: bool,
) -> bool {
    &&& accepted == (!not_a_child(own, d0.potential_parents@, username@) && !d0.refuses_child(username@))
    &&& not_a_child(own, d0.potential_parents@, username@) ==> d1 == d0 && a1 == a0
    &&& !not_a_child(own, d0.potential_parents@, username@) && d0.refuses_child(username@) ==> d1 == d0 && a1
        =~= a0.push(DistribAction::Close(conn_id))
    &&& accepted ==> {
        &&& d1 == (Distributed { children: d1.children, ..d0 })
        &&& d1.children@ =~= d0.children@.push((username, conn_id))
        &&& a1.len() == a0.len() + 2 + if d1.children@.len() >= d0.max_children { 1int } else { 0 }
        &&& a1.take(a0.len() as int) =~= a0
        &&& a1[a0.len() as int] == (DistribAction::Send {
            conn_id,
            message: DistributedMessage::BranchLevel { level: d0.branch_level as i32 },
        })
        &&& is_send(
            a1[a0.len() + 1int],
            conn_id,
            DistributedMessage::BranchRoot { root_username: root_or_empty(d0.branch_root) },
        )
        &&& d1.children@.len() >= d0.max_children ==> a1.last() == DistribAction::Server(
            ServerRequest::AcceptChildren { enabled: false },
        )
    }
}

/// The name of the parent.
pub open spec fn parent_name(parent: Option<(String, ConnId)>) -> Option<Seq<char>> {
    match parent {
        Some((p, _)) => Some(p@),
        None => None,
    }
}

/// The parent, if it is this user.
pub open spec fn parent_is(parent: Option<(String, ConnId)>, name: Seq<char>) -> bool {
    parent matches Some((p, _)) && p@ == name
}

/// The first child with this name.
pub open spec fn first_child(c: Seq<(String, ConnId)>, name: Seq<char>) -> Option<int> {
    if exists|i: int| 0 <= i < c.len() && #[trigger] c[i].0@ == name {
        Some(choose|i: int| 0 <= i < c.len() && #[trigger] c[i].0@ == name && forall|j: int| 0 <= j < i ==> #[trigger] c[j].0@ != name)
    } else {
        None
    }
}

/// A connection from this user is no child of ours to take: it is
/// ourselves, or a user offered as our parent.
pub open spec fn not_a_child(own: Option<String>, candidates: Seq<PotentialParent>, name: Seq<char>) -> bool {
    (own matches Some(o) && o@ == name) || first_candidate(candidates, name) is Some
}

/// The candidate with this name is connected and has told its branch.
pub open spec fn ready_candidate(candidates: Seq<PotentialParent>, name: Seq<char>) -> bool {
    first_candidate(candidates, name) matches Some(i) && candidates[i].conn_id is Some
        && candidates[i].branch_level is Some && candidates[i].branch_root is Some
}

/// The first candidate with this name.
pub open spec fn first_candidate(c: Seq<PotentialParent>, name: Seq<char>) -> Option<int> {
    if exists|i: int| 0 <= i < c.len() && #[trigger] c[i].username@ == name {
        Some(choose|i: int| 0 <= i < c.len() && #[trigger] c[i].username@ == name && forall|j: int| 0 <= j < i ==> #[trigger] c[j].username@ != name)
    } else {
        None
    }
}

/// A copy of a message.
fn copy_message(m: &DistributedMessage) -> (c: DistributedMessage)
    ensures
        c@ == m@,
{
    match m {
        DistributedMessage::Ping => DistributedMessage::Ping,
        DistributedMessage::Search { identifier, search_username, token, search_term } => DistributedMessage::Search {
            identifier: *identifier,
            search_username: search_username.clone(),
            token: *token,
            search_term: search_term.clone(),
        },
        DistributedMessage::BranchLevel { level } => DistributedMessage::BranchLevel { level: *level },
        DistributedMessage::BranchRoot { root_username } => DistributedMessage::BranchRoot {
            root_username: root_username.clone(),
        },
        DistributedMessage::ChildDepth { value } => DistributedMessage::ChildDepth { value: *value },
        DistributedMessage::EmbeddedMessage { distrib_code, distrib_message } => {
            let bytes = distrib_message.clone();
            proof {
                assert(bytes@ =~= distrib_message@);
            }
            DistributedMessage::EmbeddedMessage { distrib_code: *distrib_code, distrib_message: bytes }
        },
    }
}

fn copy_name(s: &Option<String>) -> (c: Option<String>)
    ensures
        c == *s,
{
    match s {
        Some(x) => Some(x.clone()),
        None => None,
    }
}

/// The position of a user in a list of children.
fn child_position(children: &Vec<(String, ConnId)>, name: &str) -> (k: Option<usize>)
    ensures
        match k {
            Some(i) => i < children@.len() && children@[i as int].0@ == name@ && forall|j: int|
                0 <= j < i ==> #[trigger] children@[j].0@ != name@,
            None => forall|j: int| 0 <= j < children@.len() ==> #[trigger] children@[j].0@ != name@,
        },
{
    let mut i: usize = 0;
    while i < children.len()
        invariant
            i <= children@.len(),
            forall|j: int| 0 <= j < i ==> #[trigger] children@[j].0@ != name@,
        decreases children@.len() - i,
    {
        if text_eq(children[i].0.as_str(), name) {
            return Some(i);
        }
        i = i + 1;
    }
    None
}

/// The position of a user among the potential parents.
fn candidate_position(parents: &Vec<PotentialParent>, name: &str) -> (k: Option<usize>)
    ensures
        match k {
            Some(i) => i < parents@.len() && parents@[i as int].username@ == name@ && forall|j: int|
                0 <= j < i ==> #[trigger] parents@[j].username@ != name@,
            None => forall|j: int| 0 <= j < parents@.len() ==> #[trigger] parents@[j].username@ != name@,
        },
{
    let mut i: usize = 0;
    while i < parents.len()
        invariant
            i <= parents@.len(),
            forall|j: int| 0 <= j < i ==> #[trigger] parents@[j].username@ != name@,
        decreases parents@.len() - i,
    {
        if text_eq(parents[i].username.as_str(), name) {
            return Some(i);
        }
        i = i + 1;
    }
    None
}

/// What taking the candidate `name` as parent does: it becomes the parent,
/// the branch is one below its own, the server and our children are told,
/// the other candidates are closed.
pub open spec fn adopt_effect(
    d0: Distributed,
    d1: Distributed,
    name: Seq<char>,
    a0: Seq<DistribAction>,
    a1: Seq<DistribAction>,
) -> bool {
    let i = first_candidate(d0.potential_parents@, name)->0;
    let c = d0.potential_parents@[i];
    let level = (c.branch_level->0 + 1) as u32;
    let root = c.branch_root->0;
    let n: int = a0.len() + candidate_closes(d0.potential_parents@, Some(name)).len() as int;
    let m: int = n + 3 + if d0.children@.len() < d0.max_children { 1int } else { 0 };
    &&& d1.parent matches Some((p, pc)) && p@ == name && pc == c.conn_id->0
    &&& d1.branch_level == level
    &&& d1.branch_root == Some(root)
    &&& !d1.is_server_parent
    &&& d1.potential_parents@.len() == d0.potential_parents@.len()
    &&& d1.potential_parents@[i] == (PotentialParent { branch_level: None, branch_root: None, ..c })
    &&& forall|j: int| 0 <= j < d0.potential_parents@.len() && j != i ==> #[trigger] d1.potential_parents@[j]
        == candidate_after_close(d0.potential_parents@[j], Some(name))
    &&& d1.children@ =~= match first_child(d0.children@, name) {
        Some(k) => d0.children@.remove(k),
        None => d0.children@,
    }
    &&& d1.max_children == d0.max_children
    &&& d1.upload_speed == d0.upload_speed
    &&& d1.parent_min_speed == d0.parent_min_speed
    &&& d1.parent_speed_ratio == d0.parent_speed_ratio
    &&& a1.subrange(0, n) =~= a0 + candidate_closes(d0.potential_parents@, Some(name))
    &&& a1.subrange(n, m) =~= seq![
        DistribAction::Server(ServerRequest::HaveNoParent { no_parent: false }),
        DistribAction::Server(ServerRequest::BranchRoot { user: root }),
        DistribAction::Server(ServerRequest::BranchLevel { value: level }),
    ] + if d0.children@.len() < d0.max_children {
        seq![DistribAction::Server(ServerRequest::AcceptChildren { enabled: true })]
    } else {
        Seq::empty()
    }
    &&& sent_to_children(a1.subrange(0, m + d0.children@.len() as int), m, d0.children@,
        DistributedMessage::BranchLevel { level: level as i32 })
    &&& sent_to_children(a1, m + d0.children@.len(), d0.children@,
        DistributedMessage::BranchRoot { root_username: root })
}

/// A search from the parent is passed on to each child and answered.
pub open spec fn forward_search_effect(
    d0: Distributed,
    d1: Distributed,
    search_username: String,
    token: u32,
    search_term: String,
    a0: Seq<DistribAction>,
    a1: Seq<DistribAction>,
) -> bool {
    &&& d1 == d0
    &&& a1.len() == a0.len() + d0.children@.len() + 1
    &&& a1.subrange(0, a0.len() as int) =~= a0
    &&& forall|i: int| 0 <= i < d0.children@.len() ==> is_send(
        #[trigger] a1[a0.len() + i],
        d0.children@[i].1,
        DistributedMessage::Search { identifier: DISTRIBUTED_SEARCH_ID, search_username, token, search_term },
    )
    &&& a1.last() == (DistribAction::Search { username: search_username, token, search_term })
}

/// Before a search is handled, a peer that is a ready candidate becomes our
/// parent while we have none.
pub open spec fn search_step(
    d0: Distributed,
    dm: Distributed,
    from: Seq<char>,
    a0: Seq<DistribAction>,
    am: Seq<DistribAction>,
) -> bool {
    if d0.parent is None && ready_candidate(d0.potential_parents@, from) {
        adopt_effect(d0, dm, from, a0, am)
    } else {
        dm == d0 && am == a0
    }
}

/// A search from a peer: it may make that peer our parent; from the parent
/// it is passed on and answered; from another peer, once we have a parent,
/// the connection is closed.
pub open spec fn peer_search_effect(
    d0: Distributed,
    d1: Distributed,
    from: Seq<char>,
    conn_id: ConnId,
    search_username: String,
    token: u32,
    search_term: String,
    a0: Seq<DistribAction>,
    a1: Seq<DistribAction>,
) -> bool {
    exists|dm: Distributed, am: Seq<DistribAction>|
        #![trigger search_step(d0, dm, from, a0, am)]
        {
            &&& search_step(d0, dm, from, a0, am)
            &&& if parent_is(dm.parent, from) {
                forward_search_effect(dm, d1, search_username, token, search_term, am, a1)
            } else {
                d1 == dm && a1 =~= am + if dm.parent is Some {
                    seq![DistribAction::Close(conn_id)]
                } else {
                    Seq::empty()
                }
            }
        }
}

/// The level of a peer's branch: the parent's makes ours one below, told
/// to the server and our children; a candidate's is kept for later; other
/// peers are closed once we have a parent.
pub open spec fn peer_level_effect(
    d0: Distributed,
    d1: Distributed,
    from: Seq<char>,
    conn_id: ConnId,
    level: i32,
    a0: Seq<DistribAction>,
    a1: Seq<DistribAction>,
) -> bool {
    if level < 0 {
        d1 == d0 && a1 =~= a0.push(DistribAction::Close(conn_id))
    } else if parent_is(d0.parent, from) {
        let ours = (level + 1) as u32;
        &&& d1 == Distributed { branch_level: ours, ..d0 }
        &&& a1.len() == a0.len() + 1 + d0.children@.len()
        &&& a1.subrange(0, a0.len() + 1int) =~= a0.push(DistribAction::Server(ServerRequest::BranchLevel { value: ours }))
        &&& forall|i: int| 0 <= i < d0.children@.len() ==> is_send(
            #[trigger] a1[a0.len() + 1 + i],
            d0.children@[i].1,
            DistributedMessage::BranchLevel { level: ours as i32 },
        )
    } else if d0.parent is None && first_candidate(d0.potential_parents@, from) is Some {
        let k = first_candidate(d0.potential_parents@, from)->0;
        let c = d0.potential_parents@[k];
        &&& d1 == Distributed { potential_parents: d1.potential_parents, ..d0 }
        &&& d1.potential_parents@.len() == d0.potential_parents@.len()
        &&& forall|j: int| 0 <= j < d0.potential_parents@.len() && j != k ==> #[trigger] d1.potential_parents@[j]
            == d0.potential_parents@[j]
        &&& d1.potential_parents@[k].username == c.username
        &&& d1.potential_parents@[k].conn_id == Some(conn_id)
        &&& d1.potential_parents@[k].branch_level == Some(level)
        &&& if level == 0 {
            d1.potential_parents@[k].branch_root matches Some(r) && r@ == from
        } else {
            d1.potential_parents@[k].branch_root == c.branch_root
        }
        &&& a1 == a0
    } else if d0.parent is Some {
        d1 == d0 && a1 =~= a0.push(DistribAction::Close(conn_id))
    } else {
        d1 == d0 && a1 == a0
    }
}

/// The root of a peer's branch, handled as its level is.
pub open spec fn peer_root_effect(
    d0: Distributed,
    d1: Distributed,
    from: Seq<char>,
    conn_id: ConnId,
    root: String,
    a0: Seq<DistribAction>,
    a1: Seq<DistribAction>,
) -> bool {
    if root@.len() == 0 {
        d1 == d0 && a1 =~= a0.push(DistribAction::Close(conn_id))
    } else if parent_is(d0.parent, from) {
        &&& d1 == Distributed { branch_root: Some(root), ..d0 }
        &&& a1.len() == a0.len() + 1 + d0.children@.len()
        &&& a1.subrange(0, a0.len() + 1int) =~= a0.push(DistribAction::Server(ServerRequest::BranchRoot { user: root }))
        &&& forall|i: int| 0 <= i < d0.children@.len() ==> is_send(
            #[trigger] a1[a0.len() + 1 + i],
            d0.children@[i].1,
            DistributedMessage::BranchRoot { root_username: root },
        )
    } else if d0.parent is None && first_candidate(d0.potential_parents@, from) is Some {
        let k = first_candidate(d0.potential_parents@, from)->0;
        &&& d1 == Distributed {
            potential_parents: d1.potential_parents,
            ..d0
        }
        &&& d1.potential_parents@ =~= d0.potential_parents@.update(
            k,
            PotentialParent { conn_id: Some(conn_id), branch_root: Some(root), ..d0.potential_parents@[k] },
        )
        &&& a1 == a0
    } else if d0.parent is Some {
        d1 == d0 && a1 =~= a0.push(DistribAction::Close(conn_id))
    } else {
        d1 == d0 && a1 == a0
    }
}

/// What a message other than an embedded one does.
pub open spec fn peer_message_effect(
    d0: Distributed,
    d1: Distributed,
    from: Seq<char>,
    conn_id: ConnId,
    m: DistributedMessage,
    a0: Seq<DistribAction>,
    a1: Seq<DistribAction>,
) -> bool {
    match m {
        DistributedMessage::Search { identifier, search_username, token, search_term } => if identifier
            != DISTRIBUTED_SEARCH_ID {
            d1 == d0 && a1 == a0
        } else {
            peer_search_effect(d0, d1, from, conn_id, search_username, token, search_term, a0, a1)
        },
        DistributedMessage::BranchLevel { level } => peer_level_effect(d0, d1, from, conn_id, level, a0, a1),
        DistributedMessage::BranchRoot { root_username } => peer_root_effect(
            d0,
            d1,
            from,
            conn_id,
            root_username,
            a0,
            a1,
        ),
        DistributedMessage::EmbeddedMessage { .. } => true,
        _ => d1 == d0 && a1 == a0,
    }
}

/// A search the server sends us itself: we become a branch root, may take
/// children, and pass the search on and answer it.
pub open spec fn server_search_effect(
    d0: Distributed,
    d1: Distributed,
    own: Option<String>,
    search_username: String,
    token: u32,
    search_term: String,
    a0: Seq<DistribAction>,
    a1: Seq<DistribAction>,
) -> bool {
    let dm = if d0.is_server_parent {
        d0
    } else {
        Distributed { is_server_parent: true, branch_level: 0, branch_root: own, ..d0 }
    };
    let am = if !d0.is_server_parent && d0.children@.len() < d0.max_children {
        a0.push(DistribAction::Server(ServerRequest::AcceptChildren { enabled: true }))
    } else {
        a0
    };
    d1 == dm && forward_search_effect(dm, d1, search_username, token, search_term, am, a1)
}

/// How deep embedded messages may still go.
pub open spec fn embedding(m: DistributedMessage) -> nat {
    match m {
        DistributedMessage::EmbeddedMessage { distrib_message, .. } => distrib_message@.len() + 1,
        _ => 0,
    }
}

impl Distributed {
    /// A level heard from a candidate is never negative.
    pub open spec fn wf(&self) -> bool {
        forall|i: int| 0 <= i < self.potential_parents@.len() ==> (#[trigger] self.potential_parents@[i].branch_level matches Some(l) ==> l >= 0)
    }

    pub fn new() -> (d: Self)
        ensures
            d.parent is None,
            d.potential_parents@.len() == 0,
            d.branch_level == 0,
            d.branch_root is None,
            !d.is_server_parent,
            d.children@.len() == 0,
            d.max_children == 0,
            d.upload_speed == 0,
            d.parent_min_speed == 0,
            d.parent_speed_ratio == 1,
            d.wf(),
    {
        Distributed {
            parent: None,
            potential_parents: Vec::new(),
            branch_level: 0,
            branch_root: None,
            is_server_parent: false,
            children: Vec::new(),
            max_children: 0,
            upload_speed: 0,
            parent_min_speed: 0,
            parent_speed_ratio: 1,
        }
    }

    /// Forgets the network on disconnection; the server's speed rules stay.
    pub fn reset(&mut self)
        ensures
            final(self).parent is None,
            final(self).potential_parents@.len() == 0,
            final(self).branch_level == 0,
            final(self).branch_root is None,
            !final(self).is_server_parent,
            final(self).children@.len() == 0,
            final(self).max_children == 0,
            final(self).upload_speed == 0,
            final(self).parent_min_speed == old(self).parent_min_speed,
            final(self).parent_speed_ratio == old(self).parent_speed_ratio,
            final(self).wf(),
    {
        self.parent = None;
        self.potential_parents = Vec::new();
        self.branch_level = 0;
        self.branch_root = None;
        self.is_server_parent = false;
        self.children = Vec::new();
        self.max_children = 0;
        self.upload_speed = 0;
    }

    /// Sends a message to each child, in order.
    pub fn send_to_children(&self, m: &DistributedMessage, actions: &mut Vec<DistribAction>)
        ensures
            final(actions)@.len() == old(actions)@.len() + self.children@.len(),
            final(actions)@.subrange(0, old(actions)@.len() as int) == old(actions)@,
            forall|i: int| 0 <= i < self.children@.len() ==> is_send(
                #[trigger] final(actions)@[old(actions)@.len() + i],
                self.children@[i].1,
                *m,
            ),
    {
        let ghost start = old(actions)@.len();
        let mut i: usize = 0;
        while i < self.children.len()
            invariant
                i <= self.children@.len(),
                start == old(actions)@.len(),
                actions@.len() == start + i,
                actions@.subrange(0, start as int) == old(actions)@,
                forall|k: int| 0 <= k < i ==> is_send(#[trigger] actions@[start + k], self.children@[k].1, *m),
            decreases self.children@.len() - i,
        {
            let conn_id = self.children[i].1;
            let message = copy_message(m);
            actions.push(DistribAction::Send { conn_id, message });
            proof {
                assert(actions@.subrange(0, start as int) =~= old(actions)@);
            }
            i = i + 1;
        }
    }

    /// We have no parent: the server is told, and we stop taking children.
    pub fn send_have_no_parent(&mut self, own: &Option<String>, actions: &mut Vec<DistribAction>)
        ensures
            *final(self) == (Distributed { parent: None, branch_level: 0, branch_root: *own, ..*old(self) }),
            final(actions)@ == old(actions)@ + no_parent_requests(*own),
    {
        self.parent = None;
        self.branch_level = 0;
        self.branch_root = copy_name(own);
        actions.push(DistribAction::Server(ServerRequest::HaveNoParent { no_parent: true }));
        match own {
            Some(root) => {
                actions.push(DistribAction::Server(ServerRequest::BranchRoot { user: root.clone() }));
            },
            None => {},
        }
        actions.push(DistribAction::Server(ServerRequest::BranchLevel { value: 0 }));
        actions.push(DistribAction::Server(ServerRequest::AcceptChildren { enabled: false }));
        proof {
            assert(actions@ =~= old(actions)@ + no_parent_requests(*own));
        }
    }
    /// The number of children allowed follows the upload speed; the server
    /// is told when we stop taking children because of it.
    pub fn update_max_children(&mut self, actions: &mut Vec<DistribAction>)
        ensures
            final(self).max_children == children_allowed(
                old(self).upload_speed,
                old(self).parent_min_speed,
                old(self).parent_speed_ratio,
            ),
            *final(self) == (Distributed { max_children: final(self).max_children, ..*old(self) }),
            final(actions)@ == old(actions)@ + if final(self).max_children <= old(self).children@.len()
                && old(self).children@.len() < old(self).max_children {
                seq![DistribAction::Server(ServerRequest::AcceptChildren { enabled: false })]
            } else {
                Seq::empty()
            },
    {
        let previous = self.max_children;
        let n = self.children.len();
        if self.upload_speed >= self.parent_min_speed && self.parent_speed_ratio > 0 {
            let allowed = self.upload_speed / self.parent_speed_ratio / 100;
            self.max_children = if allowed < MAX_DISTRIB_CHILDREN_LIMIT {
                allowed
            } else {
                MAX_DISTRIB_CHILDREN_LIMIT
            };
        } else {
            self.max_children = 0;
        }
        if (self.max_children as usize) <= n && n < (previous as usize) {
            actions.push(DistribAction::Server(ServerRequest::AcceptChildren { enabled: false }));
        }
        proof {
            assert(actions@ =~= old(actions)@ + if self.max_children <= n && n < previous {
                seq![DistribAction::Server(ServerRequest::AcceptChildren { enabled: false })]
            } else {
                Seq::empty()
            });
        }
    }

    /// Our average upload speed changed.
    pub fn update_own_speed(&mut self, speed: u32, actions: &mut Vec<DistribAction>)
        ensures
            own_speed_effect(*old(self), *final(self), speed, old(actions)@, final(actions)@),
    {
        self.upload_speed = speed;
        self.update_max_children(actions);
    }

    /// Closes the connections of the candidates that did not become parent.
    pub fn close_candidate_connections(&mut self, actions: &mut Vec<DistribAction>)
        ensures
            *final(self) == (Distributed { potential_parents: final(self).potential_parents, ..*old(self) }),
            final(self).potential_parents@.len() == old(self).potential_parents@.len(),
            forall|i: int| 0 <= i < old(self).potential_parents@.len() ==> #[trigger] final(self).potential_parents@[i]
                == candidate_after_close(old(self).potential_parents@[i], parent_name(old(self).parent)),
            final(actions)@ == old(actions)@ + candidate_closes(old(self).potential_parents@, parent_name(old(self).parent)),
    {
        let ghost keep: Option<Seq<char>> = parent_name(self.parent);
        let ghost before = self.potential_parents@;
        let ghost acts = actions@;
        let mut i: usize = 0;
        while i < self.potential_parents.len()
            invariant
                i <= self.potential_parents@.len(),
                self.potential_parents@.len() == before.len(),
                before == old(self).potential_parents@,
                *self == (Distributed { potential_parents: self.potential_parents, ..*old(self) }),
                keep == parent_name(old(self).parent),
                acts == old(actions)@,
                actions@ == acts + candidate_closes(before.take(i as int), keep),
                forall|j: int| 0 <= j < i ==> #[trigger] self.potential_parents@[j] == candidate_after_close(before[j], keep),
                forall|j: int| i <= j < before.len() ==> #[trigger] self.potential_parents@[j] == before[j],
            decreases before.len() - i,
        {
            proof {
                assert(before.take(i + 1).drop_last() =~= before.take(i as int));
            }
            let is_parent = match &self.parent {
                Some((p, _)) => text_eq(p.as_str(), self.potential_parents[i].username.as_str()),
                None => false,
            };
            if !is_parent {
                if let Some(conn) = self.potential_parents[i].conn_id {
                    let c = PotentialParent {
                        username: self.potential_parents[i].username.clone(),
                        conn_id: None,
                        branch_level: self.potential_parents[i].branch_level,
                        branch_root: copy_name(&self.potential_parents[i].branch_root),
                    };
                    self.potential_parents.set(i, c);
                    actions.push(DistribAction::Close(conn));
                }
            }
            i = i + 1;
        }
        proof {
            assert(before.take(before.len() as int) =~= before);
        }
    }
    /// The server offered parents: while we have none, a connection is
    /// opened to each, and they replace the earlier candidates, whose
    /// connections are closed.
    pub fn handle_possible_parents(&mut self, parents: &Vec<ParentCandidate>, actions: &mut Vec<DistribAction>)
        requires
            old(self).wf(),
        ensures
            final(self).wf(),
            old(self).parent is Some ==> *final(self) == *old(self) && final(actions)@ == old(actions)@,
            old(self).parent is None ==> {
                &&& *final(self) == (Distributed { potential_parents: final(self).potential_parents, ..*old(self) })
                &&& final(self).potential_parents@.len() == parents@.len()
                &&& forall|i: int| 0 <= i < parents@.len() ==> #[trigger] final(self).potential_parents@[i] == (
                PotentialParent { username: parents@[i].username, conn_id: None, branch_level: None, branch_root: None })
                &&& final(actions)@ == old(actions)@ + candidate_closes(old(self).potential_parents@, None)
                    + parent_connects(parents@)
            },
    {
        if self.parent.is_some() {
            return;
        }
        self.close_candidate_connections(actions);
        let ghost mid = actions@;
        let mut fresh: Vec<PotentialParent> = Vec::new();
        let mut i: usize = 0;
        while i < parents.len()
            invariant
                i <= parents@.len(),
                fresh@.len() == i,
                actions@ == mid + parent_connects(parents@).take(i as int),
                forall|j: int| 0 <= j < i ==> #[trigger] fresh@[j] == (PotentialParent {
                    username: parents@[j].username,
                    conn_id: None,
                    branch_level: None,
                    branch_root: None,
                }),
            decreases parents@.len() - i,
        {
            let p = &parents[i];
            fresh.push(PotentialParent { username: p.username.clone(), conn_id: None, branch_level: None, branch_root: None });
            actions.push(DistribAction::Connect { username: p.username.clone(), ip_address: p.ip_address, port: p.port });
            proof {
                assert(parent_connects(parents@).take(i + 1) =~= parent_connects(parents@).take(i as int).push(
                    parent_connects(parents@)[i as int]));
            }
            i = i + 1;
        }
        self.potential_parents = fresh;
        proof {
            assert(parent_connects(parents@).take(parents@.len() as int) =~= parent_connects(parents@));
        }
    }

    /// The server resets our place in the network: parent and children are
    /// closed, and the server is told we have no parent.
    pub fn handle_reset_distributed(&mut self, own: &Option<String>, actions: &mut Vec<DistribAction>)
        requires
            old(self).wf(),
        ensures
            final(self).wf(),
            *final(self) == (Distributed { parent: None, branch_level: 0, branch_root: *own, ..*old(self) }),
            final(actions)@ == old(actions)@ + match old(self).parent {
                Some((_, c)) => seq![DistribAction::Close(c)],
                None => Seq::empty(),
            } + child_closes(old(self).children@) + no_parent_requests(*own),
    {
        match &self.parent {
            Some((_, conn)) => {
                actions.push(DistribAction::Close(*conn));
            },
            None => {},
        }
        self.parent = None;
        let ghost mid = actions@;
        let mut i: usize = 0;
        while i < self.children.len()
            invariant
                i <= self.children@.len(),
                *self == (Distributed { parent: None, ..*old(self) }),
                actions@ == mid + child_closes(self.children@).take(i as int),
            decreases self.children@.len() - i,
        {
            actions.push(DistribAction::Close(self.children[i].1));
            proof {
                assert(child_closes(self.children@).take(i + 1) =~= child_closes(self.children@).take(i as int).push(
                    child_closes(self.children@)[i as int]));
            }
            i = i + 1;
        }
        proof {
            assert(child_closes(self.children@).take(self.children@.len() as int) =~= child_closes(self.children@));
        }
        self.send_have_no_parent(own, actions);
    }
    /// Children are refused while we have no parent and are no branch root,
    /// once one of that name is taken, and beyond the number allowed.
    pub open spec fn refuses_child(&self, name: Seq<char>) -> bool {
        ||| (self.parent is None && !self.is_server_parent)
        ||| first_child(self.children@, name) is Some
        ||| self.children@.len() >= self.max_children
    }

    /// A user connected to us as a child: taken and told our branch, or
    /// closed.
    pub fn accept_child_peer(
        &mut self,
        own: &Option<String>,
        conn_id: ConnId,
        username: String,
        actions: &mut Vec<DistribAction>,
    ) -> (accepted: bool)
        requires
            old(self).wf(),
        ensures
            final(self).wf(),
            child_effect(*old(self), *final(self), *own, conn_id, username, old(actions)@, final(actions)@, accepted),
    {
        let is_own = match own {
            Some(o) => text_eq(o.as_str(), username.as_str()),
            None => false,
        };
        let candidate = candidate_position(&self.potential_parents, username.as_str());
        proof {
            self.lemma_first_candidate(username@, candidate);
        }
        if is_own || candidate.is_some() {
            return false;
        }
        let taken = child_position(&self.children, username.as_str());
        proof {
            lemma_first_child(self.children@, username@, taken);
        }
        if (self.parent.is_none() && !self.is_server_parent) || taken.is_some() || self.children.len()
            >= self.max_children as usize {
            actions.push(DistribAction::Close(conn_id));
            return false;
        }
        let level = self.branch_level as i32;
        let root = match &self.branch_root {
            Some(r) => r.clone(),
            None => String::new(),
        };
        self.children.push((username, conn_id));
        actions.push(DistribAction::Send { conn_id, message: DistributedMessage::BranchLevel { level } });
        actions.push(DistribAction::Send { conn_id, message: DistributedMessage::BranchRoot { root_username: root } });
        if self.children.len() >= self.max_children as usize {
            actions.push(DistribAction::Server(ServerRequest::AcceptChildren { enabled: false }));
        }
        proof {
            if old(self).branch_root is None {
                assert(root@ == Seq::<char>::empty());
                let e = choose|e: String| e@ == Seq::<char>::empty();
                assert(e@ == root@);
            }
            assert(actions@.take(old(actions)@.len() as int) =~= old(actions)@);
        }
        true
    }

    /// A candidate that is connected and has told its branch becomes our
    /// parent: the server and our children are told the new branch, and the
    /// other candidates are closed.
    pub fn adopt_parent(&mut self, username: &str, actions: &mut Vec<DistribAction>) -> (adopted: bool)
        requires
            old(self).wf(),
        ensures
            final(self).wf(),
            adopted == ready_candidate(old(self).potential_parents@, username@),
            !adopted ==> *final(self) == *old(self) && final(actions)@ == old(actions)@,
            adopted ==> adopt_effect(*old(self), *final(self), username@, old(actions)@, final(actions)@),
    {
        let k = candidate_position(&self.potential_parents, username);
        proof {
            self.lemma_first_candidate(username@, k);
        }
        let i = match k {
            Some(i) => i,
            None => {
                return false;
            },
        };
        let (conn, level, root) = match (
            self.potential_parents[i].conn_id,
            self.potential_parents[i].branch_level,
            &self.potential_parents[i].branch_root,
        ) {
            (Some(conn), Some(level), Some(root)) => (conn, level, root.clone()),
            _ => {
                return false;
            },
        };
        proof {
            assert(self.potential_parents@[i as int].branch_level matches Some(l) ==> l >= 0);
        }
        let taken = PotentialParent {
            username: self.potential_parents[i].username.clone(),
            conn_id: Some(conn),
            branch_level: None,
            branch_root: None,
        };
        self.potential_parents.set(i, taken);
        let branch_level = level as u32 + 1;
        self.parent = Some((username.to_string(), conn));
        self.branch_level = branch_level;
        self.branch_root = Some(root.clone());
        self.is_server_parent = false;
        let ghost before_close = self.potential_parents@;
        self.close_candidate_connections(actions);
        proof {
            assert(candidate_closes(before_close, Some(username@)) == candidate_closes(old(self).potential_parents@, Some(username@))) by {
                lemma_closes_ignore_branch(old(self).potential_parents@, before_close, Some(username@));
            }
        }
        let ghost n = actions@.len();
        actions.push(DistribAction::Server(ServerRequest::HaveNoParent { no_parent: false }));
        actions.push(DistribAction::Server(ServerRequest::BranchRoot { user: root.clone() }));
        actions.push(DistribAction::Server(ServerRequest::BranchLevel { value: branch_level }));
        if self.children.len() < self.max_children as usize {
            actions.push(DistribAction::Server(ServerRequest::AcceptChildren { enabled: true }));
        }
        let ghost m = actions@.len();
        let ghost upto_m = actions@;
        self.send_to_children(&DistributedMessage::BranchLevel { level: branch_level as i32 }, actions);
        let ghost upto_level = actions@;
        self.send_to_children(&DistributedMessage::BranchRoot { root_username: root }, actions);
        let pos = child_position(&self.children, username);
        proof {
            lemma_first_child(self.children@, username@, pos);
        }
        match pos {
            Some(j) => {
                self.children.remove(j);
            },
            None => {},
        }
        proof {
            assert(actions@.subrange(0, n as int) =~= upto_m.subrange(0, n as int));
            assert(actions@.subrange(n as int, m as int) =~= upto_m.subrange(n as int, m as int));
            assert(actions@.subrange(0, m + old(self).children@.len() as int) =~= upto_level);
            assert forall|j: int| 0 <= j < old(self).potential_parents@.len() && j != i implies #[trigger] self.potential_parents@[j]
                == candidate_after_close(old(self).potential_parents@[j], Some(username@)) by {
                assert(before_close[j] == old(self).potential_parents@[j]);
            }
        }
        true
    }

    /// A distributed connection closed: a parent is replaced by none, a
    /// child is forgotten, and a candidate is no longer connected.
    pub fn handle_distributed_conn_closed(
        &mut self,
        own: &Option<String>,
        username: &str,
        conn_id: ConnId,
        actions: &mut Vec<DistribAction>,
    )
        requires
            old(self).wf(),
        ensures
            final(self).wf(),
            ({
                let was_parent = parent_is(old(self).parent, username@);
                let child = first_child(old(self).children@, username@);
                let drop_child = child matches Some(k) && old(self).children@[k].1 == conn_id;
                let children = if drop_child { old(self).children@.remove(child->0) } else { old(self).children@ };
                let cand = first_candidate(old(self).potential_parents@, username@);
                let unhook = cand matches Some(k) && old(self).potential_parents@[k].conn_id == Some(conn_id);
                &&& final(self).parent == if was_parent { None } else { old(self).parent }
                &&& final(self).branch_level == if was_parent { 0 } else { old(self).branch_level }
                &&& final(self).branch_root == if was_parent { *own } else { old(self).branch_root }
                &&& final(self).children@ == children
                &&& final(self).potential_parents@ == if unhook {
                    old(self).potential_parents@.update(cand->0, PotentialParent { conn_id: None, ..old(self).potential_parents@[cand->0] })
                } else {
                    old(self).potential_parents@
                }
                &&& final(self).is_server_parent == old(self).is_server_parent
                &&& final(self).max_children == old(self).max_children
                &&& final(self).upload_speed == old(self).upload_speed
                &&& final(self).parent_min_speed == old(self).parent_min_speed
                &&& final(self).parent_speed_ratio == old(self).parent_speed_ratio
                &&& final(actions)@ == old(actions)@ + (if was_parent { no_parent_requests(*own) } else { Seq::empty() })
                    + if drop_child && children.len() + 1 == old(self).max_children {
                    seq![DistribAction::Server(ServerRequest::AcceptChildren { enabled: true })]
                } else {
                    Seq::empty()
                }
            }),
    {
        let was_parent = match &self.parent {
            Some((p, _)) => text_eq(p.as_str(), username),
            None => false,
        };
        let ghost mid_actions = old(actions)@;
        if was_parent {
            self.send_have_no_parent(own, actions);
        }
        let ghost after_parent = actions@;
        let pos = child_position(&self.children, username);
        proof {
            lemma_first_child(self.children@, username@, pos);
        }
        match pos {
            Some(k) => {
                if self.children[k].1 == conn_id {
                    let before_len = self.children.len();
                    self.children.remove(k);
                    if before_len == self.max_children as usize {
                        actions.push(DistribAction::Server(ServerRequest::AcceptChildren { enabled: true }));
                    }
                }
            },
            None => {},
        }
        let cand = candidate_position(&self.potential_parents, username);
        proof {
            self.lemma_first_candidate(username@, cand);
        }
        match cand {
            Some(k) => {
                if self.potential_parents[k].conn_id == Some(conn_id) {
                    let c = PotentialParent {
                        username: self.potential_parents[k].username.clone(),
                        conn_id: None,
                        branch_level: self.potential_parents[k].branch_level,
                        branch_root: copy_name(&self.potential_parents[k].branch_root),
                    };
                    self.potential_parents.set(k, c);
                }
            },
            None => {},
        }
        proof {
            assert(actions@ =~= after_parent + if pos matches Some(k) && old(self).children@[k as int].1 == conn_id
                && self.children@.len() + 1 == old(self).max_children {
                seq![DistribAction::Server(ServerRequest::AcceptChildren { enabled: true })]
            } else {
                Seq::empty()
            });
        }
    }

    /// The parent is this user.
    fn from_parent(&self, from: &str) -> (b: bool)
        ensures
            b == parent_is(self.parent, from@),
    {
        match &self.parent {
            Some((p, _)) => text_eq(p.as_str(), from),
            None => false,
        }
    }

    /// Passes a search on to the children and answers it.
    fn forward_search(&self, search_username: String, token: u32, search_term: String, actions: &mut Vec<DistribAction>)
        ensures
            forward_search_effect(*self, *self, search_username, token, search_term, old(actions)@, final(actions)@),
    {
        let forwarded = DistributedMessage::Search {
            identifier: DISTRIBUTED_SEARCH_ID,
            search_username: search_username.clone(),
            token,
            search_term: search_term.clone(),
        };
        self.send_to_children(&forwarded, actions);
        actions.push(DistribAction::Search { username: search_username, token, search_term });
        proof {
            assert(actions@.subrange(0, old(actions)@.len() as int) =~= old(actions)@);
        }
    }

    /// A search from a peer.
    pub fn search_from_peer(
        &mut self,
        from: &str,
        conn_id: ConnId,
        search_username: String,
        token: u32,
        search_term: String,
        actions: &mut Vec<DistribAction>,
    )
        requires
            old(self).wf(),
        ensures
            final(self).wf(),
            peer_search_effect(*old(self), *final(self), from@, conn_id, search_username, token, search_term, old(actions)@, final(actions)@),
    {
        if self.parent.is_none() {
            self.adopt_parent(from, actions);
        }
        let ghost dm = *self;
        let ghost am = actions@;
        proof {
            assert(search_step(*old(self), dm, from@, old(actions)@, am));
        }
        if !self.from_parent(from) {
            if self.parent.is_some() {
                actions.push(DistribAction::Close(conn_id));
            }
            proof {
                assert(actions@ =~= am + if dm.parent is Some { seq![DistribAction::Close(conn_id)] } else { Seq::empty() });
            }
            return;
        }
        self.forward_search(search_username, token, search_term, actions);
    }

    /// A peer told us the level of its branch.
    pub fn level_from_peer(&mut self, from: &str, conn_id: ConnId, level: i32, actions: &mut Vec<DistribAction>)
        requires
            old(self).wf(),
        ensures
            final(self).wf(),
            peer_level_effect(*old(self), *final(self), from@, conn_id, level, old(actions)@, final(actions)@),
    {
        if level < 0 {
            actions.push(DistribAction::Close(conn_id));
            return;
        }
        if self.from_parent(from) {
            self.branch_level = level as u32 + 1;
            actions.push(DistribAction::Server(ServerRequest::BranchLevel { value: self.branch_level }));
            let ghost mid = actions@;
            self.send_to_children(&DistributedMessage::BranchLevel { level: self.branch_level as i32 }, actions);
            proof {
                assert(actions@.subrange(0, old(actions)@.len() + 1int) =~= mid);
            }
            return;
        }
        let k = candidate_position(&self.potential_parents, from);
        proof {
            self.lemma_first_candidate(from@, k);
        }
        if self.parent.is_none() && k.is_some() {
            let k = k.unwrap();
            let root = if level == 0 {
                Some(from.to_string())
            } else {
                copy_name(&self.potential_parents[k].branch_root)
            };
            let c = PotentialParent {
                username: self.potential_parents[k].username.clone(),
                conn_id: Some(conn_id),
                branch_level: Some(level),
                branch_root: root,
            };
            self.potential_parents.set(k, c);
        } else if self.parent.is_some() {
            actions.push(DistribAction::Close(conn_id));
        }
    }

    /// A peer told us the root of its branch.
    pub fn root_from_peer(&mut self, from: &str, conn_id: ConnId, root: String, actions: &mut Vec<DistribAction>)
        requires
            old(self).wf(),
        ensures
            final(self).wf(),
            peer_root_effect(*old(self), *final(self), from@, conn_id, root, old(actions)@, final(actions)@),
    {
        proof {
            reveal_strlit("");
        }
        proof {
            assert(root@.len() == 0 ==> root@ =~= ""@);
        }
        if text_eq(root.as_str(), "") {
            actions.push(DistribAction::Close(conn_id));
            return;
        }
        if self.from_parent(from) {
            self.branch_root = Some(root.clone());
            actions.push(DistribAction::Server(ServerRequest::BranchRoot { user: root.clone() }));
            let ghost mid = actions@;
            self.send_to_children(&DistributedMessage::BranchRoot { root_username: root }, actions);
            proof {
                assert(actions@.subrange(0, old(actions)@.len() + 1int) =~= mid);
            }
            return;
        }
        let k = candidate_position(&self.potential_parents, from);
        proof {
            self.lemma_first_candidate(from@, k);
        }
        if self.parent.is_none() && k.is_some() {
            let k = k.unwrap();
            let c = PotentialParent {
                username: self.potential_parents[k].username.clone(),
                conn_id: Some(conn_id),
                branch_level: self.potential_parents[k].branch_level,
                branch_root: Some(root),
            };
            self.potential_parents.set(k, c);
        } else if self.parent.is_some() {
            actions.push(DistribAction::Close(conn_id));
        }
    }

    /// A message from a peer on a distributed connection; an embedded one
    /// is unpacked and handled in its place.
    pub fn handle_distrib_message(
        &mut self,
        from: &str,
        conn_id: ConnId,
        message: DistributedMessage,
        actions: &mut Vec<DistribAction>,
    )
        requires
            old(self).wf(),
        ensures
            final(self).wf(),
            !(message is EmbeddedMessage) ==> peer_message_effect(
                *old(self),
                *final(self),
                from@,
                conn_id,
                message,
                old(actions)@,
                final(actions)@,
            ),
            message matches DistributedMessage::EmbeddedMessage { distrib_code, distrib_message } ==> exists|
                res: Result<DistributedMessage, crate::protocol::wire::ProtocolError>,
            | #![trigger distributed_parsed(distrib_code, distrib_message@, res)]
                distributed_parsed(distrib_code, distrib_message@, res) && match res {
                    Ok(inner) => !(inner is EmbeddedMessage) ==> peer_message_effect(
                        *old(self),
                        *final(self),
                        from@,
                        conn_id,
                        inner,
                        old(actions)@,
                        final(actions)@,
                    ),
                    Err(_) => *final(self) == *old(self) && final(actions)@ == old(actions)@,
                },
        decreases embedding(message),
    {
        match message {
            DistributedMessage::Search { identifier, search_username, token, search_term } => {
                if identifier == DISTRIBUTED_SEARCH_ID {
                    self.search_from_peer(from, conn_id, search_username, token, search_term, actions);
                }
            },
            DistributedMessage::EmbeddedMessage { distrib_code, distrib_message } => {
                let parsed = DistributedMessage::parse(distrib_code, distrib_message.as_slice());
                let ghost res = parsed;
                match parsed {
                    Ok(inner) => {
                        proof {
                            lemma_embedding_shrinks(distrib_code, distrib_message@, res);
                        }
                        self.handle_distrib_message(from, conn_id, inner, actions);
                    },
                    Err(_) => {},
                }
                proof {
                    assert(distributed_parsed(distrib_code, distrib_message@, res));
                }
            },
            DistributedMessage::BranchLevel { level } => {
                self.level_from_peer(from, conn_id, level, actions);
            },
            DistributedMessage::BranchRoot { root_username } => {
                self.root_from_peer(from, conn_id, root_username, actions);
            },
            _ => {},
        }
    }

    /// A message the server embeds for us: without a parent, a search in it
    /// makes us a branch root, and is passed on and answered.
    pub fn handle_embedded_message(
        &mut self,
        own: &Option<String>,
        distrib_code: u8,
        distrib_message: &Vec<u8>,
        actions: &mut Vec<DistribAction>,
    )
        requires
            old(self).wf(),
        ensures
            final(self).wf(),
            old(self).parent is Some ==> *final(self) == *old(self) && final(actions)@ == old(actions)@,
            old(self).parent is None ==> exists|res: Result<DistributedMessage, crate::protocol::wire::ProtocolError>|
                #![trigger distributed_parsed(distrib_code, distrib_message@, res)]
                distributed_parsed(distrib_code, distrib_message@, res) && if res matches Ok(
                    DistributedMessage::Search { identifier, .. },
                ) && identifier == DISTRIBUTED_SEARCH_ID {
                    server_search_effect(
                        *old(self),
                        *final(self),
                        *own,
                        res->Ok_0->search_username,
                        res->Ok_0->Search_token,
                        res->Ok_0->search_term,
                        old(actions)@,
                        final(actions)@,
                    )
                } else {
                    *final(self) == *old(self) && final(actions)@ == old(actions)@
                },
    {
        if self.parent.is_some() {
            return;
        }
        let parsed = DistributedMessage::parse(distrib_code, distrib_message.as_slice());
        let ghost res = parsed;
        match parsed {
            Ok(DistributedMessage::Search { identifier, search_username, token, search_term }) => {
                if identifier == DISTRIBUTED_SEARCH_ID {
                    if !self.is_server_parent {
                        self.is_server_parent = true;
                        self.branch_level = 0;
                        self.branch_root = copy_name(own);
                        if self.children.len() < self.max_children as usize {
                            actions.push(DistribAction::Server(ServerRequest::AcceptChildren { enabled: true }));
                        }
                    }
                    self.forward_search(search_username, token, search_term, actions);
                }
            },
            _ => {},
        }
        proof {
            assert(distributed_parsed(distrib_code, distrib_message@, res));
        }
    }

    proof fn lemma_first_candidate(&self, name: Seq<char>, k: Option<usize>)
        requires
            match k {
                Some(i) => i < self.potential_parents@.len() && self.potential_parents@[i as int].username@ == name
                    && forall|j: int| 0 <= j < i ==> #[trigger] self.potential_parents@[j].username@ != name,
                None => forall|j: int| 0 <= j < self.potential_parents@.len() ==> #[trigger] self.potential_parents@[j].username@ != name,
            },
        ensures
            first_candidate(self.potential_parents@, name) == match k {
                Some(i) => Some(i as int),
                None => None,
            },
    {
        let c = self.potential_parents@;
        if let Some(i) = k {
            assert(c[i as int].username@ == name);
            let x = choose|x: int| 0 <= x < c.len() && #[trigger] c[x].username@ == name && forall|j: int| 0 <= j < x ==> #[trigger] c[j].username@ != name;
            assert(exists|x: int| 0 <= x < c.len() && #[trigger] c[x].username@ == name && forall|j: int| 0 <= j < x ==> #[trigger] c[j].username@ != name) by {
                assert(forall|j: int| 0 <= j < i ==> #[trigger] c[j].username@ != name);
            }
            if x < i {
                assert(c[x].username@ != name);
            }
            if x > i {
                assert(c[i as int].username@ != name);
            }
        }
    }
}

/// Which connections are closed does not depend on what candidates said of
/// their branch.
proof fn lemma_closes_ignore_branch(a: Seq<PotentialParent>, b: Seq<PotentialParent>, keep: Option<Seq<char>>)
    requires
        a.len() == b.len(),
        forall|j: int| 0 <= j < a.len() ==> #[trigger] a[j].username@ == b[j].username@ && a[j].conn_id == b[j].conn_id,
    ensures
        candidate_closes(a, keep) == candidate_closes(b, keep),
    decreases a.len(),
{
    if a.len() > 0 {
        lemma_closes_ignore_branch(a.drop_last(), b.drop_last(), keep);
        assert(a.last().username@ == b.last().username@);
    }
}

/// A message unpacked from an embedded one embeds less.
proof fn lemma_embedding_shrinks(code: u8, payload: Seq<u8>, res: Result<DistributedMessage, crate::protocol::wire::ProtocolError>)
    requires
        distributed_parsed(code, payload, res),
        res is Ok,
    ensures
        embedding(res->Ok_0) < payload.len() + 1,
{
    let m = res->Ok_0;
    if m is EmbeddedMessage {
        assert(m@.0 == 93);
    }
}

proof fn lemma_first_child(c: Seq<(String, ConnId)>, name: Seq<char>, k: Option<usize>)
    requires
        match k {
            Some(i) => i < c.len() && c[i as int].0@ == name && forall|j: int| 0 <= j < i ==> #[trigger] c[j].0@ != name,
            None => forall|j: int| 0 <= j < c.len() ==> #[trigger] c[j].0@ != name,
        },
    ensures
        first_child(c, name) == match k {
            Some(i) => Some(i as int),
            None => None,
        },
{
    if let Some(i) = k {
        assert(c[i as int].0@ == name);
        assert(exists|x: int| 0 <= x < c.len() && #[trigger] c[x].0@ == name && forall|j: int| 0 <= j < x ==> #[trigger] c[j].0@ != name) by {
            assert(forall|j: int| 0 <= j < i ==> #[trigger] c[j].0@ != name);
        }
        let x = choose|x: int| 0 <= x < c.len() && #[trigger] c[x].0@ == name && forall|j: int| 0 <= j < x ==> #[trigger] c[j].0@ != name;
        if x < i {
            assert(c[x].0@ != name);
        }
        if x > i {
            assert(c[i as int].0@ != name);
        }
    }
}

} // verus!
