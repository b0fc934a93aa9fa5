//! The queue of uploads waiting for a slot, and which user is served next.
//!
//! Each user with queued uploads holds a number from a counter that only
//! grows; it is renewed whenever the user's queue changes.  The next upload
//! goes to the eligible user with the lowest number, privileged users first,
//! so that users take turns.
use vstd::prelude::*;

use crate::client::users::{
    key_position, keys_unique, lemma_assoc_after_push, lemma_assoc_after_set, lemma_lookup_at,
    lookup, Users,
};
use crate::text::text_eq;
use crate::types::Restriction;

verus! {

broadcast use vstd::seq_lib::group_seq_properties;

/// A transfer is known by its user and virtual path.
pub type TransferKey = (String, String);

pub open spec fn key_view(k: TransferKey) -> (Seq<char>, Seq<char>) {
    (k.0@, k.1@)
}

pub open spec fn keys_view(v: Seq<TransferKey>) -> Seq<(Seq<char>, Seq<char>)> {
    v.map_values(|k: TransferKey| key_view(k))
}

/// Some upload of the user is queued.
pub open spec fn queued(entries: Seq<(Seq<char>, Seq<char>)>, name: Seq<char>) -> bool {
    exists|i: int| 0 <= i < entries.len() && (#[trigger] entries[i]).0 == name
}

/// Whether an entry differs from `key`.
pub open spec fn other_than(key: (Seq<char>, Seq<char>)) -> spec_fn((Seq<char>, Seq<char>)) -> bool {
    |e: (Seq<char>, Seq<char>)| e != key
}

/// The entries other than `key`.
pub open spec fn without(entries: Seq<(Seq<char>, Seq<char>)>, key: (Seq<char>, Seq<char>)) -> Seq<
    (Seq<char>, Seq<char>),
> {
    entries.filter(other_than(key))
}

/// Number of queued uploads of a user.
pub open spec fn count_of(entries: Seq<(Seq<char>, Seq<char>)>, name: Seq<char>) -> nat {
    entries.filter(|e: (Seq<char>, Seq<char>)| e.0 == name).len()
}

/// Place of an upload in the queue, counting from one.
pub open spec fn place_in(entries: Seq<(Seq<char>, Seq<char>)>, key: (Seq<char>, Seq<char>)) -> Option<
    int,
> {
    if exists|i: int| 0 <= i < entries.len() && entries[i] == key {
        Some(
            (choose|i: int|
                0 <= i < entries.len() && entries[i] == key && forall|j: int|
                    0 <= j < i ==> entries[j] != key) + 1,
        )
    } else {
        None
    }
}

/// Removing the entries equal to `key` keeps every other user's queue.
pub proof fn lemma_queued_without(
    entries: Seq<(Seq<char>, Seq<char>)>,
    key: (Seq<char>, Seq<char>),
    name: Seq<char>,
)
    requires
        name != key.0,
    ensures
        queued(without(entries, key), name) == queued(entries, name),
{
    let p = other_than(key);
    let f = entries.filter(p);
    if queued(f, name) {
        let i = choose|i: int| 0 <= i < f.len() && (#[trigger] f[i]).0 == name;
        assert(f.contains(f[i]));
        entries.lemma_filter_contains_rev(p, f[i]);
        let j = choose|j: int| 0 <= j < entries.len() && entries[j] == f[i];
        assert(entries[j].0 == name);
    }
    if queued(entries, name) {
        let j = choose|j: int| 0 <= j < entries.len() && (#[trigger] entries[j]).0 == name;
        entries.lemma_filter_contains(p, j);
        let i = choose|i: int| 0 <= i < f.len() && f[i] == entries[j];
        assert(f[i].0 == name);
    }
}

/// Dropping the entry at `i` of a list with unique keys.
pub proof fn lemma_assoc_after_remove<V>(old_list: Seq<(String, V)>, list: Seq<(String, V)>, i: int)
    requires
        keys_unique(old_list),
        0 <= i < old_list.len(),
        list == old_list.remove(i),
    ensures
        keys_unique(list),
        lookup(list, old_list[i].0@) is None,
        forall|n: Seq<char>| n != old_list[i].0@ ==> lookup(list, n) == lookup(old_list, n),
{
    let name = old_list[i].0@;
    assert forall|a: int, b: int|
        0 <= a < list.len() && 0 <= b < list.len() && list[a].0@ == list[b].0@ implies a == b by {
        let oa = if a < i { a } else { a + 1 };
        let ob = if b < i { b } else { b + 1 };
        assert(list[a] == old_list[oa]);
        assert(list[b] == old_list[ob]);
    }
    assert forall|j: int| 0 <= j < list.len() implies list[j].0@ != name by {
        let oj = if j < i { j } else { j + 1 };
        assert(list[j] == old_list[oj]);
    }
    assert forall|n: Seq<char>| n != name implies lookup(list, n) == lookup(old_list, n) by {
        if exists|j: int| 0 <= j < list.len() && list[j].0@ == n {
            let j = choose|j: int| 0 <= j < list.len() && list[j].0@ == n;
            let oj = if j < i { j } else { j + 1 };
            assert(list[j] == old_list[oj]);
            lemma_lookup_at(list, j);
            lemma_lookup_at(old_list, oj);
        } else if exists|j: int| 0 <= j < old_list.len() && old_list[j].0@ == n {
            let oj = choose|j: int| 0 <= j < old_list.len() && old_list[j].0@ == n;
            assert(oj != i);
            let j = if oj < i { oj } else { oj - 1 };
            assert(list[j] == old_list[oj]);
        }
    }
}

/// Uploads to a user come after those of users that are not
/// deprioritized.
pub open spec fn deprioritized(users: &Users, name: Seq<char>) -> bool {
    users.restriction_of(name) matches Some(Restriction::Deprioritized)
}

/// Uploads waiting for a slot, the users being served, and the turn of
/// each waiting user.
pub struct UploadQueue {
    entries: Vec<TransferKey>,
    active_users: Vec<(String, u32)>,
    user_counters: Vec<(String, u64)>,
    counter: u64,
}

impl UploadQueue {
    /// The queued uploads, in the order they came.
    pub closed spec fn entries(&self) -> Seq<(Seq<char>, Seq<char>)> {
        keys_view(self.entries@)
    }

    /// The token of the upload a user is being served, if any.
    pub closed spec fn active_token(&self, name: Seq<char>) -> Option<u32> {
        lookup(self.active_users@, name)
    }

    /// Number of users being served.
    pub closed spec fn active_count(&self) -> nat {
        self.active_users@.len()
    }

    /// The turn number of a user with queued uploads.
    pub closed spec fn turn(&self, name: Seq<char>) -> Option<u64> {
        lookup(self.user_counters@, name)
    }

    /// The last turn number given out.
    pub closed spec fn counter(&self) -> u64 {
        self.counter
    }

    /// Each user is listed once; the users with a turn are the users with
    /// queued uploads; turns are distinct and none exceeds the counter.
    pub closed spec fn wf(&self) -> bool {
        &&& self.wf_except(None)
    }

    /// `wf`, except that the turn of `name` may not match its queue.
    pub closed spec fn wf_except(&self, name: Option<Seq<char>>) -> bool {
        let counters = self.user_counters@;
        &&& keys_unique(self.active_users@)
        &&& keys_unique(counters)
        &&& forall|i: int| 0 <= i < counters.len() ==> (#[trigger] counters[i]).1 <= self.counter
        &&& forall|i: int, j: int|
            0 <= i < counters.len() && 0 <= j < counters.len() && i != j ==> (#[trigger] counters[i]).1
                != (#[trigger] counters[j]).1
        &&& forall|i: int|
            0 <= i < counters.len() && Some((#[trigger] counters[i]).0@) != name ==> queued(
                self.entries(),
                counters[i].0@,
            )
        &&& forall|i: int|
            0 <= i < self.entries().len() && Some((#[trigger] self.entries()[i]).0) != name
                ==> lookup(counters, self.entries()[i].0) is Some
    }

    /// A user may be served next: it has queued uploads, is not on hold,
    /// and is not being served already.
    pub open spec fn eligible(&self, users: &Users, name: Seq<char>) -> bool {
        &&& self.turn(name) is Some
        &&& !(users.restriction_of(name) matches Some(Restriction::Hold))
        &&& self.active_token(name) is None
    }

    /// Some eligible user is privileged.
    pub open spec fn privileged_waiting(&self, users: &Users) -> bool {
        exists|n: Seq<char>| #[trigger] self.eligible(users, n) && users.privileged(n)
    }

    /// Some eligible user is not deprioritized.
    pub open spec fn normal_waiting(&self, users: &Users) -> bool {
        exists|n: Seq<char>| #[trigger] self.eligible(users, n) && !deprioritized(users, n)
    }

    /// The users among whom the next one is chosen: the eligible privileged
    /// users if there are any, else the eligible users that are not
    /// deprioritized if there are any, else every eligible user.
    pub open spec fn in_tier(&self, users: &Users, name: Seq<char>) -> bool {
        &&& self.eligible(users, name)
        &&& self.privileged_waiting(users) ==> users.privileged(name)
        &&& (!self.privileged_waiting(users) && self.normal_waiting(users)) ==> !deprioritized(
            users,
            name,
        )
    }

    /// No turn exceeds the counter.
    pub proof fn lemma_turns_bounded(&self)
        requires
            self.wf(),
        ensures
            forall|n: Seq<char>| #[trigger] self.turn(n) is Some ==> self.turn(n)->0 <= self.counter(),
    {
        assert forall|n: Seq<char>| #[trigger] self.turn(n) is Some implies self.turn(n)->0
            <= self.counter() by {
            if self.turn(n) is Some {
                let j = choose|j: int|
                    0 <= j < self.user_counters@.len() && self.user_counters@[j].0@ == n;
                lemma_lookup_at(self.user_counters@, j);
            }
        }
    }

    pub fn new() -> (q: Self)
        ensures
            q.wf(),
            q.entries() == Seq::<(Seq<char>, Seq<char>)>::empty(),
            q.active_count() == 0,
            q.counter() == 0,
            forall|n: Seq<char>| q.turn(n) is None && q.active_token(n) is None,
    {
        let q = Self {
            entries: Vec::new(),
            active_users: Vec::new(),
            user_counters: Vec::new(),
            counter: 0,
        };
        proof {
            assert(q.entries() =~= Seq::<(Seq<char>, Seq<char>)>::empty());
        }
        q
    }

    pub fn is_active(&self, username: &str) -> (b: bool)
        requires
            self.wf(),
        ensures
            b == self.active_token(username@) is Some,
    {
        match key_position(&self.active_users, username) {
            Some(i) => {
                proof {
                    lemma_lookup_at(self.active_users@, i as int);
                }
                true
            },
            None => false,
        }
    }

    pub fn active_user_count(&self) -> (n: usize)
        ensures
            n == self.active_count(),
    {
        self.active_users.len()
    }

    /// The last turn number given out.
    pub fn counter_value(&self) -> (c: u64)
        ensures
            c == self.counter(),
    {
        self.counter
    }

    pub fn len(&self) -> (n: usize)
        ensures
            n == self.entries().len(),
    {
        self.entries.len()
    }

    /// Number of queued uploads of a user.
    pub fn queued_for(&self, username: &str) -> (n: usize)
        ensures
            n == count_of(self.entries(), username@),
    {
        let ghost es = self.entries();
        let ghost name = username@;
        let mut n: usize = 0;
        let mut i: usize = 0;
        proof {
            reveal(Seq::filter);
            assert(es.take(0) =~= Seq::<(Seq<char>, Seq<char>)>::empty());
        }
        while i < self.entries.len()
            invariant
                es == self.entries(),
                name == username@,
                i <= es.len(),
                n == count_of(es.take(i as int), name),
                n <= i,
            decreases es.len() - i,
        {
            proof {
                reveal(Seq::filter);
                assert(es.take(i + 1).drop_last() =~= es.take(i as int));
                assert(es[i as int] == key_view(self.entries@[i as int]));
            }
            if text_eq(self.entries[i].0.as_str(), username) {
                n = n + 1;
            }
            i = i + 1;
        }
        proof {
            assert(es.take(i as int) =~= es);
        }
        n
    }

    /// Place of an upload in the queue, counting from one.
    pub fn place_of(&self, username: &str, virtual_path: &str) -> (place: Option<u32>)
        requires
            self.entries().len() < u32::MAX,
        ensures
            match place_in(self.entries(), (username@, virtual_path@)) {
                Some(p) => place == Some(p as u32),
                None => place is None,
            },
    {
        let ghost es = self.entries();
        let ghost key = (username@, virtual_path@);
        let mut i: usize = 0;
        while i < self.entries.len()
            invariant
                es == self.entries(),
                key == (username@, virtual_path@),
                i <= es.len(),
                es.len() < u32::MAX,
                forall|j: int| 0 <= j < i ==> es[j] != key,
            decreases es.len() - i,
        {
            proof {
                assert(es[i as int] == key_view(self.entries@[i as int]));
            }
            if text_eq(self.entries[i].0.as_str(), username) && text_eq(
                self.entries[i].1.as_str(),
                virtual_path,
            ) {
                proof {
                    let c = choose|k: int|
                        0 <= k < es.len() && es[k] == key && forall|j: int|
                            0 <= j < k ==> es[j] != key;
                    assert(0 <= i < es.len() && es[i as int] == key);
                    if c < i {
                    } else if c > i {
                        assert(es[i as int] != key);
                    }
                }
                return Some(i as u32 + 1);
            }
            i = i + 1;
        }
        None
    }

    /// Whether a user has queued uploads.
    fn has_queued(&self, username: &str) -> (b: bool)
        ensures
            b == queued(self.entries(), username@),
    {
        let ghost es = self.entries();
        let mut i: usize = 0;
        while i < self.entries.len()
            invariant
                es == self.entries(),
                i <= es.len(),
                forall|j: int| 0 <= j < i ==> (#[trigger] es[j]).0 != username@,
            decreases es.len() - i,
        {
            proof {
                assert(es[i as int] == key_view(self.entries@[i as int]));
            }
            if text_eq(self.entries[i].0.as_str(), username) {
                return true;
            }
            i = i + 1;
        }
        false
    }

    /// Gives a user a new turn if it has queued uploads, or takes its turn
    /// away if not.
    fn record_user(&mut self, username: &str)
        requires
            old(self).wf_except(Some(username@)),
            old(self).counter() < u64::MAX,
        ensures
            final(self).wf(),
            final(self).entries() == old(self).entries(),
            forall|n: Seq<char>| final(self).active_token(n) == old(self).active_token(n),
            final(self).active_count() == old(self).active_count(),
            queued(old(self).entries(), username@) ==> final(self).counter() == old(self).counter()
                + 1 && final(self).turn(username@) == Some(final(self).counter()),
            !queued(old(self).entries(), username@) ==> final(self).counter() == old(self).counter()
                && final(self).turn(username@) is None,
            forall|n: Seq<char>| n != username@ ==> final(self).turn(n) == old(self).turn(n),
    {
        let ghost name = username@;
        let ghost old_list = self.user_counters@;
        if self.has_queued(username) {
            self.counter = self.counter + 1;
            let value = self.counter;
            match key_position(&self.user_counters, username) {
                Some(i) => {
                    self.user_counters.set(i, (username.to_owned(), value));
                    proof {
                        lemma_assoc_after_set(old_list, self.user_counters@, i as int, name);
                        assert forall|k: int| 0 <= k < self.user_counters@.len() && k != i implies
                            self.user_counters@[k] == old_list[k] by {}
                        assert(self.user_counters@[i as int].1 == value);
                    }
                },
                None => {
                    self.user_counters.push((username.to_owned(), value));
                    proof {
                        lemma_assoc_after_push(old_list, self.user_counters@, name);
                        assert forall|k: int| 0 <= k < old_list.len() implies
                            self.user_counters@[k] == old_list[k] by {}
                        assert(self.user_counters@.last().1 == value);
                    }
                },
            }
            proof {
                let counters = self.user_counters@;
                assert forall|k: int| 0 <= k < counters.len() implies (#[trigger] counters[k]).1
                    <= self.counter by {
                    if k < old_list.len() && counters[k] == old_list[k] {
                    }
                }
                assert forall|k: int, l: int|
                    0 <= k < counters.len() && 0 <= l < counters.len() && k != l implies (#[trigger] counters[k]).1
                        != (#[trigger] counters[l]).1 by {
                    if counters[k].1 == value {
                        assert(!(k < old_list.len() && counters[k] == old_list[k]));
                    }
                    if counters[l].1 == value {
                        assert(!(l < old_list.len() && counters[l] == old_list[l]));
                    }
                }
                assert forall|k: int| 0 <= k < counters.len() implies queued(
                    self.entries(),
                    (#[trigger] counters[k]).0@,
                ) by {
                    if counters[k].0@ != name {
                        assert(k < old_list.len() && counters[k] == old_list[k]);
                    }
                }
            }
        } else {
            match key_position(&self.user_counters, username) {
                Some(i) => {
                    self.user_counters.remove(i);
                    proof {
                        lemma_assoc_after_remove(old_list, self.user_counters@, i as int);
                    }
                },
                None => {},
            }
        }
    }
    /// Queues an upload at the end; its user gets a new turn.
    pub fn push(&mut self, key: TransferKey)
        requires
            old(self).wf(),
            old(self).counter() < u64::MAX,
        ensures
            final(self).wf(),
            final(self).entries() == old(self).entries().push(key_view(key)),
            forall|n: Seq<char>| final(self).active_token(n) == old(self).active_token(n),
            final(self).active_count() == old(self).active_count(),
            final(self).counter() == old(self).counter() + 1,
            final(self).turn(key.0@) == Some(final(self).counter()),
            forall|n: Seq<char>| n != key.0@ ==> final(self).turn(n) == old(self).turn(n),
            forall|n: Seq<char>|
                n != key.0@ && #[trigger] final(self).turn(n) is Some ==> final(self).turn(n)->0
                    < final(self).turn(key.0@)->0,
    {
        proof {
            old(self).lemma_turns_bounded();
        }
        let username = key.0.clone();
        let ghost kv = key_view(key);
        self.entries.push(key);
        proof {
            let es = self.entries();
            assert(es =~= old(self).entries().push(kv));
            assert(es[es.len() - 1].0 == username@);
            assert forall|i: int| 0 <= i < self.user_counters@.len() implies queued(
                self.entries(),
                (#[trigger] self.user_counters@[i]).0@,
            ) by {
                let name = self.user_counters@[i].0@;
                let j = choose|j: int|
                    0 <= j < old(self).entries().len() && (#[trigger] old(self).entries()[j]).0
                        == name;
                assert(es[j] == old(self).entries()[j]);
            }
            assert forall|i: int|
                0 <= i < es.len() && Some((#[trigger] es[i]).0) != Some(username@) implies lookup(
                self.user_counters@,
                es[i].0,
            ) is Some by {
                assert(i < old(self).entries().len());
                assert(es[i] == old(self).entries()[i]);
            }
        }
        self.record_user(username.as_str());
    }

    /// Moves the queued entries other than `key` into a new queue order.
    fn retain_other(&mut self, key: &TransferKey)
        ensures
            final(self).entries() == without(old(self).entries(), key_view(*key)),
            final(self).active_users == old(self).active_users,
            final(self).user_counters == old(self).user_counters,
            final(self).counter == old(self).counter,
    {
        let ghost all = self.entries();
        let ghost k = key_view(*key);
        let mut rest: Vec<TransferKey> = Vec::new();
        std::mem::swap(&mut self.entries, &mut rest);
        let mut i: usize = 0;
        proof {
            reveal(Seq::filter);
            assert(all.take(0) =~= Seq::<(Seq<char>, Seq<char>)>::empty());
            assert(self.entries() =~= Seq::<(Seq<char>, Seq<char>)>::empty());
        }
        while i < rest.len()
            invariant
                all == keys_view(rest@),
                k == key_view(*key),
                i <= rest@.len(),
                self.entries() == without(all.take(i as int), k),
                self.active_users == old(self).active_users,
                self.user_counters == old(self).user_counters,
                self.counter == old(self).counter,
            decreases rest@.len() - i,
        {
            let ghost before = self.entries();
            proof {
                reveal(Seq::filter);
                assert(all.take(i + 1).drop_last() =~= all.take(i as int));
                assert(all.take(i + 1).last() == all[i as int]);
                assert(all[i as int] == key_view(rest@[i as int]));
            }
            let same = text_eq(rest[i].0.as_str(), key.0.as_str()) && text_eq(
                rest[i].1.as_str(),
                key.1.as_str(),
            );
            if !same {
                let copy = (rest[i].0.clone(), rest[i].1.clone());
                self.entries.push(copy);
                proof {
                    assert(self.entries() =~= before.push(all[i as int]));
                }
            }
            i = i + 1;
        }
        proof {
            assert(all.take(i as int) =~= all);
        }
    }

    /// Whether the user at `i` of the turn list may be served next.
    fn eligible_at(&self, users: &Users, i: usize) -> (b: bool)
        requires
            self.wf(),
            users.wf(),
            i < self.user_counters@.len(),
        ensures
            b == (!(users.restriction_of(self.user_counters@[i as int].0@) matches Some(
                Restriction::Hold,
            )) && self.active_token(self.user_counters@[i as int].0@) is None),
    {
        let name = self.user_counters[i].0.as_str();
        let hold = match users.restriction(name) {
            Some(Restriction::Hold) => true,
            _ => false,
        };
        !hold && !self.is_active(name)
    }

    /// The upload to serve next: the first queued upload of the eligible
    /// user with the lowest turn, among the privileged ones if any is
    /// eligible, else among those not deprioritized if any is eligible.
    pub fn select_next(&self, users: &Users) -> (res: Option<TransferKey>)
        requires
            self.wf(),
            users.wf(),
        ensures
            res is None <==> !(exists|n: Seq<char>| #[trigger] self.eligible(users, n)),
            res matches Some(k) ==> {
                &&& self.in_tier(users, k.0@)
                &&& forall|n: Seq<char>|
                    #[trigger] self.in_tier(users, n) ==> self.turn(k.0@)->0 <= self.turn(n)->0
                &&& exists|i: int|
                    0 <= i < self.entries().len() && self.entries()[i] == key_view(k) && forall|
                        j: int,
                    | 0 <= j < i ==> (#[trigger] self.entries()[j]).0 != k.0@
            },
    {
        let ghost counters = self.user_counters@;
        let mut best_any: Option<usize> = None;
        let mut best_norm: Option<usize> = None;
        let mut best_priv: Option<usize> = None;
        let mut i: usize = 0;
        while i < self.user_counters.len()
            invariant
                self.wf(),
                users.wf(),
                counters == self.user_counters@,
                i <= counters.len(),
                match best_any {
                    Some(b) => b < i && self.eligible(users, counters[b as int].0@) && forall|
                        j: int,
                    |
                        0 <= j < i && #[trigger] self.eligible(users, counters[j].0@) ==> counters[b as int].1
                            <= counters[j].1,
                    None => forall|j: int|
                        0 <= j < i ==> !#[trigger] self.eligible(users, counters[j].0@),
                },
                match best_priv {
                    Some(b) => b < i && self.eligible(users, counters[b as int].0@) && users.privileged(
                        counters[b as int].0@,
                    ) && forall|j: int|
                        0 <= j < i && #[trigger] self.eligible(users, counters[j].0@)
                            && users.privileged(counters[j].0@) ==> counters[b as int].1
                            <= counters[j].1,
                    None => forall|j: int|
                        0 <= j < i ==> !(#[trigger] self.eligible(users, counters[j].0@)
                            && users.privileged(counters[j].0@)),
                },
                match best_norm {
                    Some(b) => b < i && self.eligible(users, counters[b as int].0@) && !deprioritized(
                        users,
                        counters[b as int].0@,
                    ) && forall|j: int|
                        0 <= j < i && #[trigger] self.eligible(users, counters[j].0@)
                            && !deprioritized(users, counters[j].0@) ==> counters[b as int].1
                            <= counters[j].1,
                    None => forall|j: int|
                        0 <= j < i ==> !(#[trigger] self.eligible(users, counters[j].0@)
                            && !deprioritized(users, counters[j].0@)),
                },
            decreases counters.len() - i,
        {
            proof {
                lemma_lookup_at(counters, i as int);
            }
            if self.eligible_at(users, i) {
                let c = self.user_counters[i].1;
                let better_any = match best_any {
                    Some(b) => c < self.user_counters[b].1,
                    None => true,
                };
                if better_any {
                    best_any = Some(i);
                }
                let lowered = match users.restriction(self.user_counters[i].0.as_str()) {
                    Some(Restriction::Deprioritized) => true,
                    _ => false,
                };
                if !lowered {
                    let better_norm = match best_norm {
                        Some(b) => c < self.user_counters[b].1,
                        None => true,
                    };
                    if better_norm {
                        best_norm = Some(i);
                    }
                }
                if users.is_privileged(self.user_counters[i].0.as_str()) {
                    let better_priv = match best_priv {
                        Some(b) => c < self.user_counters[b].1,
                        None => true,
                    };
                    if better_priv {
                        best_priv = Some(i);
                    }
                }
            }
            i = i + 1;
        }
        let chosen = match best_priv {
            Some(b) => Some(b),
            None => match best_norm {
                Some(b) => Some(b),
                None => best_any,
            },
        };
        proof {
            assert forall|n: Seq<char>| #[trigger] self.eligible(users, n) implies exists|j: int|
                0 <= j < counters.len() && counters[j].0@ == n by {
                assert(self.turn(n) is Some);
            }
        }
        match chosen {
            None => None,
            Some(b) => {
                let ghost w = counters[b as int].0@;
                proof {
                    lemma_lookup_at(counters, b as int);
                    assert forall|n: Seq<char>| #[trigger] self.in_tier(users, n) implies self.turn(
                        w,
                    )->0 <= self.turn(n)->0 by {
                        let j = choose|j: int| 0 <= j < counters.len() && counters[j].0@ == n;
                        lemma_lookup_at(counters, j);
                    }
                    assert(queued(self.entries(), w));
                }
                let name = self.user_counters[b].0.as_str();
                let ghost es = self.entries();
                let mut k: usize = 0;
                while k < self.entries.len()
                    invariant
                        es == self.entries(),
                        name@ == w,
                        k <= es.len(),
                        queued(es, w),
                        self.eligible(users, w),
                        self.in_tier(users, w),
                        forall|n: Seq<char>| #[trigger] self.in_tier(users, n) ==> self.turn(w)->0
                            <= self.turn(n)->0,
                        forall|j: int| 0 <= j < k ==> (#[trigger] es[j]).0 != w,
                    decreases es.len() - k,
                {
                    proof {
                        assert(es[k as int] == key_view(self.entries@[k as int]));
                    }
                    if text_eq(self.entries[k].0.as_str(), name) {
                        let found = (self.entries[k].0.clone(), self.entries[k].1.clone());
                        proof {
                            assert(key_view(found) == es[k as int]);
                        }
                        return Some(found);
                    }
                    k = k + 1;
                }
                proof {
                    let j = choose|j: int| 0 <= j < es.len() && (#[trigger] es[j]).0 == w;
                    assert(es[j].0 != w);
                }
                None
            },
        }
    }

    /// Starts serving an upload: it leaves the queue, its user is active
    /// with the transfer's token, and the user's turn is renewed.
    pub fn mark_active(&mut self, key: &TransferKey, token: u32)
        requires
            old(self).wf(),
            old(self).counter() < u64::MAX,
        ensures
            final(self).wf(),
            final(self).entries() == without(old(self).entries(), key_view(*key)),
            final(self).active_token(key.0@) == Some(token),
            forall|n: Seq<char>| n != key.0@ ==> final(self).active_token(n) == old(self).active_token(n),
            forall|n: Seq<char>| n != key.0@ ==> final(self).turn(n) == old(self).turn(n),
            queued(final(self).entries(), key.0@) ==> final(self).turn(key.0@) == Some(
                final(self).counter(),
            ),
            !queued(final(self).entries(), key.0@) ==> final(self).turn(key.0@) is None,
            final(self).counter() <= old(self).counter() + 1,
    {
        let ghost name = key.0@;
        self.retain_other(key);
        proof {
            self.lemma_without_keeps_others(old(self).entries(), key_view(*key));
        }
        let ghost old_active = self.active_users@;
        match key_position(&self.active_users, key.0.as_str()) {
            Some(i) => {
                self.active_users.set(i, (key.0.clone(), token));
                proof {
                    lemma_assoc_after_set(old_active, self.active_users@, i as int, name);
                }
            },
            None => {
                self.active_users.push((key.0.clone(), token));
                proof {
                    lemma_assoc_after_push(old_active, self.active_users@, name);
                }
            },
        }
        self.record_user(key.0.as_str());
    }

    /// Stops serving or drops an upload: the user stops being active if
    /// the token is the one it is served under, the upload leaves the
    /// queue, and the user's turn is renewed.
    pub fn release(&mut self, key: &TransferKey, token: Option<u32>)
        requires
            old(self).wf(),
            old(self).counter() < u64::MAX,
        ensures
            final(self).wf(),
            final(self).entries() == without(old(self).entries(), key_view(*key)),
            (token is Some && old(self).active_token(key.0@) == token) ==> final(self).active_token(
                key.0@,
            ) is None,
            !(token is Some && old(self).active_token(key.0@) == token) ==> final(self).active_token(
                key.0@,
            ) == old(self).active_token(key.0@),
            forall|n: Seq<char>| n != key.0@ ==> final(self).active_token(n) == old(self).active_token(n),
            forall|n: Seq<char>| n != key.0@ ==> final(self).turn(n) == old(self).turn(n),
            queued(final(self).entries(), key.0@) ==> final(self).turn(key.0@) == Some(
                final(self).counter(),
            ),
            !queued(final(self).entries(), key.0@) ==> final(self).turn(key.0@) is None,
            final(self).counter() <= old(self).counter() + 1,
    {
        let ghost name = key.0@;
        if let Some(t) = token {
            match key_position(&self.active_users, key.0.as_str()) {
                Some(i) => {
                    proof {
                        lemma_lookup_at(self.active_users@, i as int);
                    }
                    if self.active_users[i].1 == t {
                        let ghost old_active = self.active_users@;
                        self.active_users.remove(i);
                        proof {
                            lemma_assoc_after_remove(old_active, self.active_users@, i as int);
                        }
                    }
                },
                None => {},
            }
        }
        self.retain_other(key);
        proof {
            self.lemma_without_keeps_others(old(self).entries(), key_view(*key));
        }
        self.record_user(key.0.as_str());
    }

    /// After the entries equal to `key` leave the queue, every user other
    /// than the key's keeps its turn and queue.
    proof fn lemma_without_keeps_others(
        &self,
        before: Seq<(Seq<char>, Seq<char>)>,
        key: (Seq<char>, Seq<char>),
    )
        requires
            self.entries() == without(before, key),
            forall|i: int|
                0 <= i < self.user_counters@.len() ==> queued(
                    before,
                    (#[trigger] self.user_counters@[i]).0@,
                ),
            forall|i: int|
                0 <= i < before.len() ==> lookup(self.user_counters@, (#[trigger] before[i]).0)
                    is Some,
        ensures
            forall|i: int|
                0 <= i < self.user_counters@.len() && Some(
                    (#[trigger] self.user_counters@[i]).0@,
                ) != Some(key.0) ==> queued(self.entries(), self.user_counters@[i].0@),
            forall|i: int|
                0 <= i < self.entries().len() && Some((#[trigger] self.entries()[i]).0) != Some(
                    key.0,
                ) ==> lookup(self.user_counters@, self.entries()[i].0) is Some,
    {
        assert forall|i: int|
            0 <= i < self.user_counters@.len() && Some((#[trigger] self.user_counters@[i]).0@)
                != Some(key.0) implies queued(self.entries(), self.user_counters@[i].0@) by {
            lemma_queued_without(before, key, self.user_counters@[i].0@);
        }
        assert forall|i: int|
            0 <= i < self.entries().len() && Some((#[trigger] self.entries()[i]).0) != Some(key.0)
                implies lookup(self.user_counters@, self.entries()[i].0) is Some by {
            let e = self.entries()[i];
            assert(before.filter(other_than(key)).contains(e));
            before.lemma_filter_contains_rev(other_than(key), e);
            let j = choose|j: int| 0 <= j < before.len() && before[j] == e;
            assert(lookup(self.user_counters@, before[j].0) is Some);
        }
    }

    /// Forgets every queued upload, active user and turn.
    pub fn clear(&mut self)
        ensures
            final(self).wf(),
            final(self).entries() == Seq::<(Seq<char>, Seq<char>)>::empty(),
            final(self).active_count() == 0,
            forall|n: Seq<char>| final(self).turn(n) is None && final(self).active_token(n) is None,
            final(self).counter() == old(self).counter(),
    {
        self.entries = Vec::new();
        self.active_users = Vec::new();
        self.user_counters = Vec::new();
        proof {
            assert(self.entries() =~= Seq::<(Seq<char>, Seq<char>)>::empty());
        }
    }
}

} // verus!
