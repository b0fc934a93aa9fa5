//! The addresses of watched users, as the server last gave them, and when
//! they may still be used to connect directly.
use vstd::prelude::*;

use crate::client::users::{key_position, keys_unique, lemma_assoc_after_push, lemma_assoc_after_set, lemma_lookup_at, lookup};
use crate::text::text_eq;

verus! {

/// How long an address given by the server is used, in milliseconds.
pub const USER_ADDRESS_TTL_MS: u64 = 1_800_000;

/// A user's address and when it was learnt.
#[derive(Debug, Clone, Copy, PartialEq, Eq, Structural)]
pub struct PeerAddress {
    pub ip: u32,
    pub port: u16,
    pub updated_ms: u64,
}

/// For each watched user, its last known address, if any.
pub struct AddressBook {
    entries: Vec<(String, Option<PeerAddress>)>,
}

/// Whether a known address may be used to connect at `now_ms`: it has a
/// port, and is recent unless it is our own.
pub open spec fn usable(a: PeerAddress, own: bool, now_ms: u64) -> bool {
    a.port != 0 && (own || !(now_ms >= a.updated_ms && now_ms - a.updated_ms > USER_ADDRESS_TTL_MS))
}

impl AddressBook {
    /// The entry of a user: `None` when it is not watched, `Some(None)`
    /// when no address is known.
    pub closed spec fn entry(&self, name: Seq<char>) -> Option<Option<PeerAddress>> {
        lookup(self.entries@, name)
    }

    pub closed spec fn wf(&self) -> bool {
        keys_unique(self.entries@)
    }

    pub fn new() -> (book: Self)
        ensures
            book.wf(),
            forall|n: Seq<char>| book.entry(n) is None,
    {
        AddressBook { entries: Vec::new() }
    }

    /// Sets the entry of a user, adding it when missing.
    fn put(&mut self, name: &str, value: Option<PeerAddress>)
        requires
            old(self).wf(),
        ensures
            final(self).wf(),
            final(self).entry(name@) == Some(value),
            forall|n: Seq<char>| n != name@ ==> final(self).entry(n) == old(self).entry(n),
    {
        let ghost old_list = self.entries@;
        match key_position(&self.entries, name) {
            Some(i) => {
                let key = self.entries[i].0.clone();
                self.entries.set(i, (key, value));
                proof {
                    lemma_assoc_after_set(old_list, self.entries@, i as int, name@);
                }
            },
            None => {
                self.entries.push((name.to_owned(), value));
                proof {
                    lemma_assoc_after_push(old_list, self.entries@, name@);
                }
            },
        }
    }

    /// A user is watched: its entry is kept, or begun without an address.
    pub fn watch_user(&mut self, name: &str)
        requires
            old(self).wf(),
        ensures
            final(self).wf(),
            final(self).entry(name@) == match old(self).entry(name@) {
                Some(e) => Some(e),
                None => Some(None::<PeerAddress>),
            },
            forall|n: Seq<char>| n != name@ ==> final(self).entry(n) == old(self).entry(n),
    {
        match key_position(&self.entries, name) {
            Some(i) => {
                proof {
                    lemma_lookup_at(self.entries@, i as int);
                }
            },
            None => {
                self.put(name, None);
            },
        }
    }

    /// A user is no longer watched: its entry goes.
    pub fn unwatch_user(&mut self, name: &str)
        requires
            old(self).wf(),
        ensures
            final(self).wf(),
            final(self).entry(name@) is None,
            forall|n: Seq<char>| n != name@ ==> final(self).entry(n) == old(self).entry(n),
    {
        let mut kept: Vec<(String, Option<PeerAddress>)> = Vec::new();
        let mut i: usize = 0;
        while i < self.entries.len()
            invariant
                self.wf(),
                i <= self.entries@.len(),
                keys_unique(kept@),
                forall|j: int| 0 <= j < kept@.len() ==> kept@[j].0@ != name@,
                forall|n: Seq<char>| n != name@ ==> lookup(kept@, n) == if exists|j: int| 0 <= j < i && #[trigger] self.entries@[j].0@ == n {
                    lookup(self.entries@, n)
                } else {
                    None
                },
                forall|j: int| 0 <= j < kept@.len() ==> exists|x: int| 0 <= x < i && #[trigger] self.entries@[x].0@ == (#[trigger] kept@[j]).0@,
            decreases self.entries@.len() - i,
        {
            if !text_eq(self.entries[i].0.as_str(), name) {
                let ghost before = kept@;
                let key = self.entries[i].0.clone();
                let ghost k = key@;
                proof {
                    assert forall|j: int| 0 <= j < before.len() implies before[j].0@ != k by {
                        let x = choose|x: int| 0 <= x < i && #[trigger] self.entries@[x].0@ == before[j].0@;
                        assert(x != i);
                    }
                }
                kept.push((key, self.entries[i].1));
                proof {
                    lemma_assoc_after_push(before, kept@, k);
                    lemma_lookup_at(self.entries@, i as int);
                    assert forall|n: Seq<char>| n != name@ implies lookup(kept@, n) == if exists|j: int| 0 <= j < i + 1 && #[trigger] self.entries@[j].0@ == n {
                        lookup(self.entries@, n)
                    } else {
                        None
                    } by {
                        if n != k {
                            if exists|j: int| 0 <= j < i + 1 && #[trigger] self.entries@[j].0@ == n {
                                let j = choose|j: int| 0 <= j < i + 1 && #[trigger] self.entries@[j].0@ == n;
                                assert(j != i);
                            }
                        } else {
                            assert(self.entries@[i as int].0@ == n);
                        }
                    }
                    assert forall|j: int| 0 <= j < kept@.len() implies exists|x: int| 0 <= x < i + 1 && #[trigger] self.entries@[x].0@ == (#[trigger] kept@[j]).0@ by {
                        if j < before.len() {
                            assert(kept@[j] == before[j]);
                            let x = choose|x: int| 0 <= x < i && #[trigger] self.entries@[x].0@ == before[j].0@;
                            assert(self.entries@[x].0@ == kept@[j].0@);
                        } else {
                            assert(self.entries@[i as int].0@ == kept@[j].0@);
                        }
                    }
                }
            } else {
                proof {
                    assert forall|n: Seq<char>| n != name@ implies lookup(kept@, n) == if exists|j: int| 0 <= j < i + 1 && #[trigger] self.entries@[j].0@ == n {
                        lookup(self.entries@, n)
                    } else {
                        None
                    } by {
                        if exists|j: int| 0 <= j < i + 1 && #[trigger] self.entries@[j].0@ == n {
                            let j = choose|j: int| 0 <= j < i + 1 && #[trigger] self.entries@[j].0@ == n;
                            assert(j != i);
                        }
                    }
                }
            }
            i = i + 1;
        }
        proof {
            assert forall|n: Seq<char>| n != name@ implies lookup(kept@, n) == lookup(self.entries@, n) by {
                if !(exists|j: int| 0 <= j < self.entries@.len() && #[trigger] self.entries@[j].0@ == n) {
                    assert(!(exists|j: int| 0 <= j < self.entries@.len() && self.entries@[j].0@ == n));
                }
            }
        }
        self.entries = kept;
    }

    /// What the server said of a user is dropped; it stays watched.
    pub fn forget_address(&mut self, name: &str)
        requires
            old(self).wf(),
        ensures
            final(self).wf(),
            final(self).entry(name@) == match old(self).entry(name@) {
                Some(_) => Some(None::<PeerAddress>),
                None => None,
            },
            forall|n: Seq<char>| n != name@ ==> final(self).entry(n) == old(self).entry(n),
    {
        match key_position(&self.entries, name) {
            Some(i) => {
                proof {
                    lemma_lookup_at(self.entries@, i as int);
                }
                self.put(name, None);
            },
            None => {},
        }
    }

    /// An address we learnt ourselves is kept, the user watched.
    pub fn cache_address(&mut self, name: &str, ip: u32, port: u16, now_ms: u64)
        requires
            old(self).wf(),
        ensures
            final(self).wf(),
            final(self).entry(name@) == Some(Some(PeerAddress { ip, port, updated_ms: now_ms })),
            forall|n: Seq<char>| n != name@ ==> final(self).entry(n) == old(self).entry(n),
    {
        self.put(name, Some(PeerAddress { ip, port, updated_ms: now_ms }));
    }

    /// The server gave a user's address.  Unless the user is ourselves, a
    /// watched user keeps it when it is online with a port (an address of
    /// 0 means offline), and loses any address otherwise; users not
    /// watched are not kept.
    pub fn peer_address_seen(&mut self, name: &str, ip: u32, port: u16, own_username: Option<&str>, now_ms: u64)
        requires
            old(self).wf(),
        ensures
            final(self).wf(),
            forall|n: Seq<char>| n != name@ ==> final(self).entry(n) == old(self).entry(n),
            (own_username matches Some(o) && o@ == name@) || old(self).entry(name@) is None ==> final(self).entry(name@)
                == old(self).entry(name@),
            !(own_username matches Some(o) && o@ == name@) && old(self).entry(name@) is Some ==> final(self).entry(name@)
                == Some(if ip != 0 && port != 0 {
                    Some(PeerAddress { ip, port, updated_ms: now_ms })
                } else {
                    None
                }),
    {
        let own = match own_username {
            Some(o) => text_eq(o, name),
            None => false,
        };
        if own {
            return;
        }
        match key_position(&self.entries, name) {
            Some(i) => {
                proof {
                    lemma_lookup_at(self.entries@, i as int);
                }
                let value = if ip != 0 && port != 0 {
                    Some(PeerAddress { ip, port, updated_ms: now_ms })
                } else {
                    None
                };
                self.put(name, value);
            },
            None => {},
        }
    }

    /// The address to connect to a user directly, if a usable one is
    /// known.
    pub fn lookup_fresh_address(&self, name: &str, own_username: Option<&str>, now_ms: u64) -> (addr: Option<(u32, u16)>)
        requires
            self.wf(),
        ensures
            addr == match self.entry(name@) {
                Some(Some(a)) => if usable(a, own_username matches Some(o) && o@ == name@, now_ms) {
                    Some((a.ip, a.port))
                } else {
                    None
                },
                _ => None,
            },
    {
        let own = match own_username {
            Some(o) => text_eq(o, name),
            None => false,
        };
        match key_position(&self.entries, name) {
            Some(i) => {
                proof {
                    lemma_lookup_at(self.entries@, i as int);
                }
                match self.entries[i].1 {
                    Some(a) => {
                        let stale = now_ms >= a.updated_ms && now_ms - a.updated_ms > USER_ADDRESS_TTL_MS;
                        if a.port != 0 && (own || !stale) {
                            Some((a.ip, a.port))
                        } else {
                            None
                        }
                    },
                    None => None,
                }
            },
            None => {
                proof {
                    assert(!(exists|j: int| 0 <= j < self.entries@.len() && self.entries@[j].0@ == name@));
                }
                None
            },
        }
    }

    /// Everything is forgotten, as after a disconnection.
    pub fn reset(&mut self)
        ensures
            final(self).wf(),
            forall|n: Seq<char>| final(self).entry(n) is None,
    {
        self.entries = Vec::new();
    }
}

} // verus!
