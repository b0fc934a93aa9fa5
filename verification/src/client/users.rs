//! What the client knows of other users: its buddy, ban and ignore lists,
//! the users it watches, who is privileged, and upload restrictions.
use vstd::prelude::*;

use crate::client::ip_bans::{covers, parsed_patterns, pattern_seq, IpBans, IpPattern};
use crate::text::text_eq;
use crate::types::{Restriction, UserStats, UserStatus};

verus! {

broadcast use vstd::seq_lib::group_seq_properties;

/// What the server has told us of a watched user.
#[derive(Debug, Clone, Copy, Default)]
pub struct WatchedUser {
    pub status: Option<UserStatus>,
    pub stats: Option<UserStats>,
    pub privileged: bool,
}

/// The names of a list, in order.
pub open spec fn names_of(v: Seq<String>) -> Seq<Seq<char>> {
    v.map_values(|s: String| s@)
}

/// The names in a list.
pub open spec fn name_set(v: Seq<String>) -> Set<Seq<char>> {
    names_of(v).to_set()
}

/// Each name occurs at most once as a key.
pub open spec fn keys_unique<V>(v: Seq<(String, V)>) -> bool {
    forall|i: int, j: int| 0 <= i < v.len() && 0 <= j < v.len() && v[i].0@ == v[j].0@ ==> i == j
}

/// The value stored under a name, if any.
pub open spec fn lookup<V>(v: Seq<(String, V)>, k: Seq<char>) -> Option<V> {
    if exists|i: int| 0 <= i < v.len() && v[i].0@ == k {
        Some(v[choose|i: int| 0 <= i < v.len() && v[i].0@ == k].1)
    } else {
        None
    }
}

pub proof fn lemma_lookup_at<V>(v: Seq<(String, V)>, i: int)
    requires
        keys_unique(v),
        0 <= i < v.len(),
    ensures
        lookup(v, v[i].0@) == Some(v[i].1),
{
    let k = v[i].0@;
    assert(exists|j: int| 0 <= j < v.len() && v[j].0@ == k);
}

fn position_in(v: &Vec<String>, name: &str) -> (k: Option<usize>)
    ensures
        match k {
            Some(i) => i < v@.len() && v@[i as int]@ == name@,
            None => forall|j: int| 0 <= j < v@.len() ==> v@[j]@ != name@,
        },
{
    let mut i: usize = 0;
    while i < v.len()
        invariant
            i <= v@.len(),
            forall|j: int| 0 <= j < i ==> v@[j]@ != name@,
        decreases v@.len() - i,
    {
        if text_eq(v[i].as_str(), name) {
            return Some(i);
        }
        i = i + 1;
    }
    None
}

pub(crate) fn key_position<V>(v: &Vec<(String, V)>, name: &str) -> (k: Option<usize>)
    ensures
        match k {
            Some(i) => i < v@.len() && v@[i as int].0@ == name@,
            None => forall|j: int| 0 <= j < v@.len() ==> v@[j].0@ != name@,
        },
{
    let mut i: usize = 0;
    while i < v.len()
        invariant
            i <= v@.len(),
            forall|j: int| 0 <= j < i ==> v@[j].0@ != name@,
        decreases v@.len() - i,
    {
        if text_eq(v[i].0.as_str(), name) {
            return Some(i);
        }
        i = i + 1;
    }
    None
}

/// Adds a name to a list unless it is there.
fn insert_name(v: &mut Vec<String>, name: String)
    ensures
        name_set(final(v)@) == name_set(old(v)@).insert(name@),
{
    if contains_name(v, name.as_str()) {
        proof {
            assert(name_set(old(v)@).insert(name@) =~= name_set(old(v)@));
        }
    } else {
        let ghost view = name@;
        v.push(name);
        proof {
            assert(names_of(v@) =~= names_of(old(v)@).push(view));
            assert(name_set(v@) =~= name_set(old(v)@).insert(view));
        }
    }
}

pub(crate) fn contains_name(v: &Vec<String>, name: &str) -> (b: bool)
    ensures
        b == name_set(v@).contains(name@),
{
    proof {
        assert(names_of(v@).len() == v@.len());
    }
    match position_in(v, name) {
        Some(i) => {
            proof {
                assert(names_of(v@)[i as int] == name@);
            }
            true
        },
        None => {
            proof {
                assert(!names_of(v@).contains(name@)) by {
                    if names_of(v@).contains(name@) {
                        let j = choose|j: int|
                            0 <= j < v@.len() && #[trigger] names_of(v@)[j] == name@;
                        assert(v@[j]@ == name@);
                    }
                }
            }
            false
        },
    }
}

/// Dropping one name from a list of names drops it from their set.
pub proof fn lemma_filter_out_contains(s: Seq<Seq<char>>, x: Seq<char>, a: Seq<char>)
    ensures
        s.filter(|n: Seq<char>| n != x).contains(a) == (s.contains(a) && a != x),
    decreases s.len(),
{
    reveal(Seq::filter);
    if s.len() > 0 {
        let init = s.drop_last();
        let e = s.last();
        lemma_filter_out_contains(init, x, a);
        assert(s =~= init.push(e));
        let f = init.filter(|n: Seq<char>| n != x);
        if s.contains(a) {
            let k = choose|k: int| 0 <= k < s.len() && s[k] == a;
            if k < s.len() - 1 {
                assert(init[k] == a);
            }
        }
        if init.contains(a) {
            let k = choose|k: int| 0 <= k < init.len() && init[k] == a;
            assert(s[k] == a);
        }
        if e != x {
            assert(s.filter(|n: Seq<char>| n != x) == f.push(e));
            if f.push(e).contains(a) {
                let k = choose|k: int| 0 <= k < f.push(e).len() && f.push(e)[k] == a;
                if k < f.len() {
                    assert(f[k] == a);
                }
            }
            if f.contains(a) {
                let k = choose|k: int| 0 <= k < f.len() && f[k] == a;
                assert(f.push(e)[k] == a);
            }
            if a == e {
                assert(f.push(e)[f.len() as int] == a);
            }
        } else {
            assert(s.filter(|n: Seq<char>| n != x) == f);
        }
    }
}

/// Removes every occurrence of a name; whether there was one.
fn remove_name(v: &mut Vec<String>, name: &str) -> (removed: bool)
    ensures
        name_set(final(v)@) == name_set(old(v)@).remove(name@),
        removed == name_set(old(v)@).contains(name@),
{
    let was = contains_name(v, name);
    let ghost start = names_of(v@);
    let ghost x = name@;
    let mut kept: Vec<String> = Vec::new();
    let mut i: usize = 0;
    proof {
        reveal(Seq::filter);
        assert(start.take(0).filter(|n: Seq<char>| n != x) =~= Seq::<Seq<char>>::empty());
        assert(names_of(kept@) =~= Seq::<Seq<char>>::empty());
    }
    while i < v.len()
        invariant
            i <= v@.len(),
            names_of(v@) == start,
            x == name@,
            names_of(kept@) == start.take(i as int).filter(|n: Seq<char>| n != x),
        decreases v@.len() - i,
    {
        let ghost before = names_of(kept@);
        proof {
            reveal(Seq::filter);
            assert(start.take(i + 1).drop_last() =~= start.take(i as int));
            assert(start.take(i + 1).last() == start[i as int]);
            assert(names_of(v@)[i as int] == v@[i as int]@);
        }
        if !text_eq(v[i].as_str(), name) {
            let s = v[i].clone();
            kept.push(s);
            proof {
                assert(names_of(kept@) =~= before.push(start[i as int]));
            }
        }
        i = i + 1;
    }
    *v = kept;
    proof {
        assert(start.take(i as int) =~= start);
        let a = name_set(final(v)@);
        let b = name_set(old(v)@).remove(x);
        assert forall|n: Seq<char>| a.contains(n) == b.contains(n) by {
            lemma_filter_out_contains(start, x, n);
        }
        assert(a =~= b);
    }
    was
}

pub proof fn lemma_assoc_after_set<V>(
    old_list: Seq<(String, V)>,
    list: Seq<(String, V)>,
    i: int,
    name: Seq<char>,
)
    requires
        keys_unique(old_list),
        0 <= i < old_list.len(),
        old_list[i].0@ == name,
        list.len() == old_list.len(),
        list[i].0@ == name,
        forall|j: int| 0 <= j < old_list.len() && j != i ==> list[j] == old_list[j],
    ensures
        keys_unique(list),
        lookup(list, name) == Some(list[i].1),
        forall|n: Seq<char>| n != name ==> lookup(list, n) == lookup(old_list, n),
{
    assert forall|a: int, b: int| 0 <= a < list.len() && 0 <= b < list.len() && list[a].0@ == list[b].0@ implies a == b by {
        assert(list[a].0@ == old_list[a].0@);
        assert(list[b].0@ == old_list[b].0@);
    }
    lemma_lookup_at(list, i);
    assert forall|n: Seq<char>| n != name implies lookup(list, n) == lookup(old_list, n) by {
        if exists|j: int| 0 <= j < list.len() && list[j].0@ == n {
            let j = choose|j: int| 0 <= j < list.len() && list[j].0@ == n;
            lemma_lookup_at(list, j);
            lemma_lookup_at(old_list, j);
        } else {
            if exists|j: int| 0 <= j < old_list.len() && old_list[j].0@ == n {
                let j = choose|j: int| 0 <= j < old_list.len() && old_list[j].0@ == n;
                assert(list[j] == old_list[j]);
            }
        }
    }
}

pub proof fn lemma_assoc_after_push<V>(
    old_list: Seq<(String, V)>,
    list: Seq<(String, V)>,
    name: Seq<char>,
)
    requires
        keys_unique(old_list),
        forall|j: int| 0 <= j < old_list.len() ==> old_list[j].0@ != name,
        list.len() == old_list.len() + 1,
        list.last().0@ == name,
        forall|j: int| 0 <= j < old_list.len() ==> list[j] == old_list[j],
    ensures
        keys_unique(list),
        lookup(list, name) == Some(list.last().1),
        forall|n: Seq<char>| n != name ==> lookup(list, n) == lookup(old_list, n),
{
    let last = old_list.len() as int;
    assert forall|a: int, b: int| 0 <= a < list.len() && 0 <= b < list.len() && list[a].0@ == list[b].0@ implies a == b by {
        if a < last {
            assert(list[a] == old_list[a]);
        }
        if b < last {
            assert(list[b] == old_list[b]);
        }
    }
    lemma_lookup_at(list, last);
    assert forall|n: Seq<char>| n != name implies lookup(list, n) == lookup(old_list, n) by {
        if exists|j: int| 0 <= j < list.len() && list[j].0@ == n {
            let j = choose|j: int| 0 <= j < list.len() && list[j].0@ == n;
            assert(j != last);
            assert(list[j] == old_list[j]);
            lemma_lookup_at(list, j);
            lemma_lookup_at(old_list, j);
        } else {
            if exists|j: int| 0 <= j < old_list.len() && old_list[j].0@ == n {
                let j = choose|j: int| 0 <= j < old_list.len() && old_list[j].0@ == n;
                assert(list[j] == old_list[j]);
            }
        }
    }
}

/// Everything the client keeps about other users.
pub struct Users {
    buddies: Vec<String>,
    banned: Vec<String>,
    ignored: Vec<String>,
    watched: Vec<(String, WatchedUser)>,
    privileged: Vec<String>,
    restrictions: Vec<(String, Restriction)>,
    ip_bans: IpBans,
}

impl Users {
    /// What a watch reply does: a user that does not exist is no longer
    /// watched; one that does gets the status and stats it came with,
    /// keeping earlier ones where none came; nothing else changes.
    pub open spec fn watch_effect(
        before: Users,
        after: Users,
        name: Seq<char>,
        user_exists: bool,
        status: Option<u32>,
        stats: Option<UserStats>,
    ) -> bool {
        &&& after.buddies() == before.buddies()
        &&& after.banned() == before.banned()
        &&& after.ignored() == before.ignored()
        &&& !user_exists ==> after.watched(name) is None
        &&& user_exists ==> (after.watched(name) matches Some(w) && w.status == (match status {
            Some(s) => UserStatus::spec_from_u32(s),
            None => match before.watched(name) {
                Some(o) => o.status,
                None => None,
            },
        }) && w.stats == (match stats {
            Some(s) => Some(s),
            None => match before.watched(name) {
                Some(o) => o.stats,
                None => None,
            },
        }) && w.privileged == (match before.watched(name) {
            Some(o) => o.privileged,
            None => false,
        }))
        &&& forall|n: Seq<char>| n != name ==> after.watched(n) == before.watched(n)
        &&& after.privileged_list() == before.privileged_list()
        &&& forall|n: Seq<char>| after.restriction_of(n) == before.restriction_of(n)
    }

    /// What a status update does: a watched user gets the new status and
    /// privilege; a privileged user joins the privileged list; nothing else
    /// changes.
    pub open spec fn status_effect(before: Users, after: Users, name: Seq<char>, status: u32, privileged: bool) -> bool {
        &&& after.buddies() == before.buddies()
        &&& after.banned() == before.banned()
        &&& after.ignored() == before.ignored()
        &&& match before.watched(name) {
            Some(o) => after.watched(name) == Some(
                WatchedUser { status: UserStatus::spec_from_u32(status), stats: o.stats, privileged },
            ),
            None => after.watched(name) is None,
        }
        &&& forall|n: Seq<char>| n != name ==> after.watched(n) == before.watched(n)
        &&& after.privileged_list() == if privileged {
            before.privileged_list().insert(name)
        } else {
            before.privileged_list()
        }
        &&& forall|n: Seq<char>| after.restriction_of(n) == before.restriction_of(n)
    }

    /// What a stats update does: a watched user gets the new stats; nothing
    /// else changes.
    pub open spec fn stats_effect(before: Users, after: Users, name: Seq<char>, stats: UserStats) -> bool {
        &&& after.buddies() == before.buddies()
        &&& after.banned() == before.banned()
        &&& after.ignored() == before.ignored()
        &&& match before.watched(name) {
            Some(o) => after.watched(name) == Some(
                WatchedUser { status: o.status, stats: Some(stats), privileged: o.privileged },
            ),
            None => after.watched(name) is None,
        }
        &&& forall|n: Seq<char>| n != name ==> after.watched(n) == before.watched(n)
        &&& after.privileged_list() == before.privileged_list()
        &&& forall|n: Seq<char>| after.restriction_of(n) == before.restriction_of(n)
    }

    pub closed spec fn buddies(&self) -> Set<Seq<char>> {
        name_set(self.buddies@)
    }

    /// The buddies, in the order they were added.
    pub closed spec fn buddy_names(&self) -> Seq<Seq<char>> {
        names_of(self.buddies@)
    }

    /// The buddy list.
    pub fn buddy_list(&self) -> (v: &Vec<String>)
        ensures
            names_of(v@) == self.buddy_names(),
            name_set(v@) == self.buddies(),
    {
        &self.buddies
    }

    pub closed spec fn banned(&self) -> Set<Seq<char>> {
        name_set(self.banned@)
    }

    pub closed spec fn ignored(&self) -> Set<Seq<char>> {
        name_set(self.ignored@)
    }

    /// Users named privileged by the server's list or its status reports.
    pub closed spec fn privileged_list(&self) -> Set<Seq<char>> {
        name_set(self.privileged@)
    }

    /// What we know of a watched user, if it is watched.
    pub closed spec fn watched(&self, name: Seq<char>) -> Option<WatchedUser> {
        lookup(self.watched@, name)
    }

    /// The upload restriction set for a user, if any.
    pub closed spec fn restriction_of(&self, name: Seq<char>) -> Option<Restriction> {
        lookup(self.restrictions@, name)
    }

    /// Privileged by the server's list, or by the last status of a watched user.
    pub open spec fn privileged(&self, name: Seq<char>) -> bool {
        self.privileged_list().contains(name) || (self.watched(name) matches Some(w)
            && w.privileged)
    }

    /// Each user is watched, and restricted, under one entry at most.
    pub closed spec fn wf(&self) -> bool {
        keys_unique(self.watched@) && keys_unique(self.restrictions@)
    }

    pub fn new(buddies: Vec<String>, banned: Vec<String>, ignored: Vec<String>) -> (u: Self)
        ensures
            u.wf(),
            u.buddies() == name_set(buddies@),
            u.banned() == name_set(banned@),
            u.ignored() == name_set(ignored@),
            u.privileged_list() == Set::<Seq<char>>::empty(),
            forall|n: Seq<char>| u.watched(n) is None && u.restriction_of(n) is None,
            u.ip_patterns().len() == 0,
    {
        let u = Self {
            buddies,
            banned,
            ignored,
            watched: Vec::new(),
            privileged: Vec::new(),
            restrictions: Vec::new(),
            ip_bans: IpBans::new(),
        };
        proof {
            assert(names_of(u.privileged@).to_set() =~= Set::<Seq<char>>::empty());
        }
        u
    }

    /// The banned address patterns.
    pub closed spec fn ip_patterns(&self) -> Seq<IpPattern> {
        self.ip_bans.patterns()
    }

    /// The banned addresses become the well-formed patterns among
    /// `patterns`; nothing else changes.
    pub fn set_ip_bans(&mut self, patterns: Vec<String>)
        requires
            old(self).wf(),
        ensures
            final(self).wf(),
            final(self).ip_patterns().map_values(|p: IpPattern| pattern_seq(p)) == parsed_patterns(
                patterns@.map_values(|t: String| t@),
            ),
            final(self).buddies() == old(self).buddies(),
            final(self).banned() == old(self).banned(),
            final(self).ignored() == old(self).ignored(),
            final(self).privileged_list() == old(self).privileged_list(),
            forall|n: Seq<char>| final(self).watched(n) == old(self).watched(n),
            forall|n: Seq<char>| final(self).restriction_of(n) == old(self).restriction_of(n),
    {
        self.ip_bans.set(patterns);
    }

    /// A connection from this address is refused.
    pub fn is_ip_banned(&self, ip: u32) -> (b: bool)
        ensures
            b == exists|i: int| 0 <= i < self.ip_patterns().len() && covers(#[trigger] self.ip_patterns()[i], ip),
    {
        let b = self.ip_bans.is_banned(ip);
        proof {
            let ps = self.ip_bans.patterns();
            assert(self.ip_patterns() == ps);
            if b {
                let i = choose|i: int| 0 <= i < ps.len() && covers(#[trigger] ps[i], ip);
                assert(covers(self.ip_patterns()[i], ip));
            } else {
                assert forall|i: int| 0 <= i < self.ip_patterns().len() implies !covers(#[trigger] self.ip_patterns()[i], ip) by {
                    assert(!covers(ps[i], ip));
                }
            }
        }
        b
    }

    pub fn is_buddy(&self, username: &str) -> (b: bool)
        ensures
            b == self.buddies().contains(username@),
    {
        contains_name(&self.buddies, username)
    }

    pub fn is_banned(&self, username: &str) -> (b: bool)
        ensures
            b == self.banned().contains(username@),
    {
        contains_name(&self.banned, username)
    }

    pub fn is_ignored(&self, username: &str) -> (b: bool)
        ensures
            b == self.ignored().contains(username@),
    {
        contains_name(&self.ignored, username)
    }

    /// Privileged by the server's list, or by the last status of a watched user.
    pub fn is_privileged(&self, username: &str) -> (b: bool)
        requires
            self.wf(),
        ensures
            b == self.privileged(username@),
    {
        if contains_name(&self.privileged, username) {
            return true;
        }
        match key_position(&self.watched, username) {
            Some(i) => {
                proof {
                    lemma_lookup_at(self.watched@, i as int);
                }
                self.watched[i].1.privileged
            },
            None => false,
        }
    }

    /// Adds a buddy; whether it was not one before (then the server is to
    /// be asked to watch the user).
    pub fn add_buddy(&mut self, username: String) -> (added: bool)
        ensures
            final(self).buddies() == old(self).buddies().insert(username@),
            added == !old(self).buddies().contains(username@),
            final(self).banned() == old(self).banned(),
            final(self).ignored() == old(self).ignored(),
            final(self).wf() == old(self).wf(),
    {
        if contains_name(&self.buddies, username.as_str()) {
            proof {
                assert(old(self).buddies().insert(username@) =~= old(self).buddies());
            }
            false
        } else {
            let ghost view = username@;
            self.buddies.push(username);
            proof {
                assert(names_of(self.buddies@) =~= names_of(old(self).buddies@).push(view));
                assert(self.buddies() =~= old(self).buddies().insert(view));
            }
            true
        }
    }

    /// Removes a buddy; whether it was one (then the server is to be asked
    /// to stop watching the user).
    pub fn remove_buddy(&mut self, username: &str) -> (removed: bool)
        ensures
            final(self).buddies() == old(self).buddies().remove(username@),
            removed == old(self).buddies().contains(username@),
            final(self).banned() == old(self).banned(),
            final(self).ignored() == old(self).ignored(),
            final(self).wf() == old(self).wf(),
    {
        remove_name(&mut self.buddies, username)
    }

    /// Bans a user.
    pub fn ban(&mut self, username: String)
        ensures
            final(self).banned() == old(self).banned().insert(username@),
            final(self).buddies() == old(self).buddies(),
            final(self).ignored() == old(self).ignored(),
            final(self).wf() == old(self).wf(),
            forall|n: Seq<char>| final(self).watched(n) == old(self).watched(n),
            forall|n: Seq<char>| final(self).restriction_of(n) == old(self).restriction_of(n),
            final(self).privileged_list() == old(self).privileged_list(),
    {
        insert_name(&mut self.banned, username);
    }

    /// Lifts a user's ban.
    pub fn unban(&mut self, username: &str)
        ensures
            final(self).banned() == old(self).banned().remove(username@),
            final(self).buddies() == old(self).buddies(),
            final(self).ignored() == old(self).ignored(),
            final(self).wf() == old(self).wf(),
            forall|n: Seq<char>| final(self).watched(n) == old(self).watched(n),
            forall|n: Seq<char>| final(self).restriction_of(n) == old(self).restriction_of(n),
            final(self).privileged_list() == old(self).privileged_list(),
    {
        remove_name(&mut self.banned, username);
    }

    /// Ignores a user.
    pub fn ignore(&mut self, username: String)
        ensures
            final(self).ignored() == old(self).ignored().insert(username@),
            final(self).buddies() == old(self).buddies(),
            final(self).banned() == old(self).banned(),
            final(self).wf() == old(self).wf(),
            forall|n: Seq<char>| final(self).watched(n) == old(self).watched(n),
            forall|n: Seq<char>| final(self).restriction_of(n) == old(self).restriction_of(n),
            final(self).privileged_list() == old(self).privileged_list(),
    {
        insert_name(&mut self.ignored, username);
    }

    /// Stops ignoring a user.
    pub fn unignore(&mut self, username: &str)
        ensures
            final(self).ignored() == old(self).ignored().remove(username@),
            final(self).buddies() == old(self).buddies(),
            final(self).banned() == old(self).banned(),
            final(self).wf() == old(self).wf(),
            forall|n: Seq<char>| final(self).watched(n) == old(self).watched(n),
            forall|n: Seq<char>| final(self).restriction_of(n) == old(self).restriction_of(n),
            final(self).privileged_list() == old(self).privileged_list(),
    {
        remove_name(&mut self.ignored, username);
    }

    /// The server's answer to watching a user: an unknown user is no longer
    /// watched; a known one is, with the status and statistics sent.
    pub fn handle_watch_user(
        &mut self,
        username: &str,
        user_exists: bool,
        status: Option<u32>,
        stats: Option<UserStats>,
    )
        requires
            old(self).wf(),
        ensures
            final(self).wf(),
            Users::watch_effect(*old(self), *final(self), username@, user_exists, status, stats),
    {
        let ghost old_watched = self.watched@;
        match key_position(&self.watched, username) {
            Some(i) => {
                proof {
                    lemma_lookup_at(old_watched, i as int);
                }
                if !user_exists {
                    self.watched.remove(i);
                    proof {
                        self.lemma_watched_after_remove(old_watched, i as int, username@);
                    }
                    return;
                }
                let mut entry = self.watched[i].1;
                if let Some(s) = status {
                    entry.status = UserStatus::from_u32(s);
                }
                if let Some(s) = stats {
                    entry.stats = Some(s);
                }
                let key = self.watched[i].0.clone();
                self.watched.set(i, (key, entry));
                proof {
                    self.lemma_watched_after_set(old_watched, i as int, username@);
                }
            },
            None => {
                if !user_exists {
                    return;
                }
                let mut entry = WatchedUser { status: None, stats: None, privileged: false };
                if let Some(s) = status {
                    entry.status = UserStatus::from_u32(s);
                }
                if let Some(s) = stats {
                    entry.stats = Some(s);
                }
                self.watched.push((username.to_owned(), entry));
                proof {
                    self.lemma_watched_after_push(old_watched, username@);
                }
            },
        }
    }

    proof fn lemma_watched_after_remove(&self, old_watched: Seq<(String, WatchedUser)>, i: int, name: Seq<char>)
        requires
            keys_unique(old_watched),
            0 <= i < old_watched.len(),
            old_watched[i].0@ == name,
            self.watched@ == old_watched.remove(i),
        ensures
            keys_unique(self.watched@),
            lookup(self.watched@, name) is None,
            forall|n: Seq<char>| n != name ==> lookup(self.watched@, n) == lookup(old_watched, n),
    {
        let v = self.watched@;
        assert forall|a: int, b: int| 0 <= a < v.len() && 0 <= b < v.len() && v[a].0@ == v[b].0@ implies a == b by {
            let oa = if a < i { a } else { a + 1 };
            let ob = if b < i { b } else { b + 1 };
            assert(v[a] == old_watched[oa]);
            assert(v[b] == old_watched[ob]);
        }
        assert forall|j: int| 0 <= j < v.len() implies v[j].0@ != name by {
            let oj = if j < i { j } else { j + 1 };
            assert(v[j] == old_watched[oj]);
        }
        assert forall|n: Seq<char>| n != name implies lookup(v, n) == lookup(old_watched, n) by {
            if exists|j: int| 0 <= j < v.len() && v[j].0@ == n {
                let j = choose|j: int| 0 <= j < v.len() && v[j].0@ == n;
                let oj = if j < i { j } else { j + 1 };
                assert(v[j] == old_watched[oj]);
                lemma_lookup_at(v, j);
                lemma_lookup_at(old_watched, oj);
            } else {
                if exists|j: int| 0 <= j < old_watched.len() && old_watched[j].0@ == n {
                    let oj = choose|j: int| 0 <= j < old_watched.len() && old_watched[j].0@ == n;
                    assert(oj != i);
                    let j = if oj < i { oj } else { oj - 1 };
                    assert(v[j] == old_watched[oj]);
                }
            }
        }
    }

    proof fn lemma_watched_after_set(&self, old_watched: Seq<(String, WatchedUser)>, i: int, name: Seq<char>)
        requires
            keys_unique(old_watched),
            0 <= i < old_watched.len(),
            old_watched[i].0@ == name,
            self.watched@.len() == old_watched.len(),
            self.watched@[i].0@ == name,
            forall|j: int| 0 <= j < old_watched.len() && j != i ==> self.watched@[j] == old_watched[j],
        ensures
            keys_unique(self.watched@),
            lookup(self.watched@, name) == Some(self.watched@[i].1),
            forall|n: Seq<char>| n != name ==> lookup(self.watched@, n) == lookup(old_watched, n),
    {
        let v = self.watched@;
        assert forall|a: int, b: int| 0 <= a < v.len() && 0 <= b < v.len() && v[a].0@ == v[b].0@ implies a == b by {
            assert(v[a].0@ == old_watched[a].0@);
            assert(v[b].0@ == old_watched[b].0@);
        }
        lemma_lookup_at(v, i);
        assert forall|n: Seq<char>| n != name implies lookup(v, n) == lookup(old_watched, n) by {
            if exists|j: int| 0 <= j < v.len() && v[j].0@ == n {
                let j = choose|j: int| 0 <= j < v.len() && v[j].0@ == n;
                lemma_lookup_at(v, j);
                lemma_lookup_at(old_watched, j);
            } else {
                if exists|j: int| 0 <= j < old_watched.len() && old_watched[j].0@ == n {
                    let j = choose|j: int| 0 <= j < old_watched.len() && old_watched[j].0@ == n;
                    assert(v[j] == old_watched[j]);
                }
            }
        }
    }

    proof fn lemma_watched_after_push(&self, old_watched: Seq<(String, WatchedUser)>, name: Seq<char>)
        requires
            keys_unique(old_watched),
            forall|j: int| 0 <= j < old_watched.len() ==> old_watched[j].0@ != name,
            self.watched@.len() == old_watched.len() + 1,
            self.watched@.last().0@ == name,
            forall|j: int| 0 <= j < old_watched.len() ==> self.watched@[j] == old_watched[j],
        ensures
            keys_unique(self.watched@),
            lookup(self.watched@, name) == Some(self.watched@.last().1),
            forall|n: Seq<char>| n != name ==> lookup(self.watched@, n) == lookup(old_watched, n),
    {
        let v = self.watched@;
        let last = old_watched.len() as int;
        assert forall|a: int, b: int| 0 <= a < v.len() && 0 <= b < v.len() && v[a].0@ == v[b].0@ implies a == b by {
            if a < last && b < last {
                assert(v[a] == old_watched[a]);
                assert(v[b] == old_watched[b]);
            } else if a < last {
                assert(v[a] == old_watched[a]);
            } else if b < last {
                assert(v[b] == old_watched[b]);
            }
        }
        lemma_lookup_at(v, last);
        assert forall|n: Seq<char>| n != name implies lookup(v, n) == lookup(old_watched, n) by {
            if exists|j: int| 0 <= j < v.len() && v[j].0@ == n {
                let j = choose|j: int| 0 <= j < v.len() && v[j].0@ == n;
                assert(j != last);
                assert(v[j] == old_watched[j]);
                lemma_lookup_at(v, j);
                lemma_lookup_at(old_watched, j);
            } else {
                if exists|j: int| 0 <= j < old_watched.len() && old_watched[j].0@ == n {
                    let j = choose|j: int| 0 <= j < old_watched.len() && old_watched[j].0@ == n;
                    assert(v[j] == old_watched[j]);
                }
            }
        }
    }

    /// A status report: updates a watched user, and records a privileged one.
    pub fn handle_user_status(&mut self, username: &str, status: u32, privileged: bool)
        requires
            old(self).wf(),
        ensures
            final(self).wf(),
            Users::status_effect(*old(self), *final(self), username@, status, privileged),
    {
        let ghost old_watched = self.watched@;
        if let Some(i) = key_position(&self.watched, username) {
            proof {
                lemma_lookup_at(old_watched, i as int);
            }
            let key = self.watched[i].0.clone();
            let stats = self.watched[i].1.stats;
            let entry = WatchedUser { status: UserStatus::from_u32(status), stats, privileged };
            self.watched.set(i, (key, entry));
            proof {
                self.lemma_watched_after_set(old_watched, i as int, username@);
            }
        }
        if privileged && !contains_name(&self.privileged, username) {
            let ghost before = self.privileged@;
            self.privileged.push(username.to_owned());
            proof {
                assert(names_of(self.privileged@) =~= names_of(before).push(username@));
                assert(self.privileged_list() =~= old(self).privileged_list().insert(username@));
            }
        } else if privileged {
            proof {
                assert(old(self).privileged_list().insert(username@) =~= old(self).privileged_list());
            }
        }
    }

    /// Statistics of a user, kept when the user is watched.
    pub fn handle_user_stats(&mut self, username: &str, stats: UserStats)
        requires
            old(self).wf(),
        ensures
            final(self).wf(),
            Users::stats_effect(*old(self), *final(self), username@, stats),
    {
        let ghost old_watched = self.watched@;
        if let Some(i) = key_position(&self.watched, username) {
            proof {
                lemma_lookup_at(old_watched, i as int);
            }
            let key = self.watched[i].0.clone();
            let old_entry = self.watched[i].1;
            let entry = WatchedUser {
                status: old_entry.status,
                stats: Some(stats),
                privileged: old_entry.privileged,
            };
            self.watched.set(i, (key, entry));
            proof {
                self.lemma_watched_after_set(old_watched, i as int, username@);
            }
        }
    }

    /// The server's list of privileged users replaces the previous one.
    pub fn handle_privileged_users(&mut self, users: Vec<String>)
        ensures
            final(self).buddies() == old(self).buddies(),
            final(self).banned() == old(self).banned(),
            final(self).ignored() == old(self).ignored(),
            final(self).privileged_list() == name_set(users@),
            forall|n: Seq<char>| final(self).watched(n) == old(self).watched(n),
            forall|n: Seq<char>| final(self).restriction_of(n) == old(self).restriction_of(n),
            final(self).wf() == old(self).wf(),
    {
        self.privileged = users;
    }

    /// The upload restriction of a user, if one is set.
    pub fn restriction(&self, username: &str) -> (r: Option<&Restriction>)
        requires
            self.wf(),
        ensures
            match self.restriction_of(username@) {
                Some(x) => r == Some(&x),
                None => r is None,
            },
    {
        match key_position(&self.restrictions, username) {
            Some(i) => {
                proof {
                    lemma_lookup_at(self.restrictions@, i as int);
                }
                Some(&self.restrictions[i].1)
            },
            None => None,
        }
    }

    /// Sets the upload restriction of a user.
    pub fn set_restriction(&mut self, username: String, restriction: Restriction)
        requires
            old(self).wf(),
        ensures
            final(self).buddies() == old(self).buddies(),
            final(self).banned() == old(self).banned(),
            final(self).ignored() == old(self).ignored(),
            final(self).wf(),
            final(self).restriction_of(username@) == Some(restriction),
            forall|n: Seq<char>| n != username@ ==> final(self).restriction_of(n) == old(self).restriction_of(n),
            forall|n: Seq<char>| final(self).watched(n) == old(self).watched(n),
            final(self).privileged_list() == old(self).privileged_list(),
    {
        let ghost old_list = self.restrictions@;
        let ghost name = username@;
        match key_position(&self.restrictions, username.as_str()) {
            Some(i) => {
                self.restrictions.set(i, (username, restriction));
                proof {
                    lemma_assoc_after_set(old_list, self.restrictions@, i as int, name);
                }
            },
            None => {
                self.restrictions.push((username, restriction));
                proof {
                    lemma_assoc_after_push(old_list, self.restrictions@, name);
                }
            },
        }
    }

    /// Forgets what the server said, as after a disconnection.
    pub fn reset(&mut self)
        ensures
            old(self).wf() ==> final(self).wf(),
            forall|n: Seq<char>| final(self).watched(n) is None,
            final(self).privileged_list() == Set::<Seq<char>>::empty(),
            final(self).buddies() == old(self).buddies(),
            final(self).banned() == old(self).banned(),
            final(self).ignored() == old(self).ignored(),
            forall|n: Seq<char>| final(self).restriction_of(n) == old(self).restriction_of(n),
    {
        self.watched = Vec::new();
        self.privileged = Vec::new();
        proof {
            assert(names_of(self.privileged@).to_set() =~= Set::<Seq<char>>::empty());
        }
    }
}

} // verus!
