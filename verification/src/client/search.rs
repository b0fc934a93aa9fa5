//! Searches this client has running, and search terms as sent.
use std::collections::HashSet;

use vstd::prelude::*;

use crate::protocol::wire::chars_of;
use crate::text::{join_spaced, split_words_ws, string_from_chars, words};

verus! {

broadcast use vstd::std_specs::hash::group_hash_axioms;

/// Tokens of the searches whose results are still wanted.
pub struct Searches {
    active: HashSet<u32>,
}

impl View for Searches {
    type V = Set<u32>;

    closed spec fn view(&self) -> Set<u32> {
        self.active@
    }
}

impl Searches {
    pub fn new() -> (s: Self)
        ensures
            s@ == Set::<u32>::empty(),
    {
        Self { active: HashSet::new() }
    }

    pub fn add(&mut self, token: u32)
        ensures
            final(self)@ == old(self)@.insert(token),
    {
        self.active.insert(token);
    }

    pub fn remove(&mut self, token: u32)
        ensures
            final(self)@ == old(self)@.remove(token),
    {
        self.active.remove(&token);
    }

    pub fn contains(&self, token: u32) -> (b: bool)
        ensures
            b == self@.contains(token),
    {
        self.active.contains(&token)
    }

    pub fn clear(&mut self)
        ensures
            final(self)@ == Set::<u32>::empty(),
    {
        self.active.clear();
    }
}

/// Whom a search asks.
#[derive(Debug, Clone, PartialEq, Eq)]
pub enum SearchScope {
    /// Everybody, through the server.
    Global,
    /// The users of a room.
    Room(String),
    /// Each of our buddies.
    Buddies,
    /// One user.
    User(String),
}

/// A search's results are wanted from when it is added until it is removed.
pub proof fn law_search_tokens(s: Set<u32>, token: u32, other: u32)
    ensures
        s.insert(token).contains(token),
        !s.insert(token).remove(token).contains(token),
        other != token ==> (s.insert(token).contains(other) == s.contains(other)),
{
}

/// The words of a term, without lone dashes, joined by single spaces.
pub open spec fn sanitized(text: Seq<char>) -> Seq<char> {
    join_spaced(words(text).filter(|w: Seq<char>| w != seq!['-']))
}

pub fn sanitize_search_term(text: &str) -> (term: String)
    ensures
        term@ == sanitized(text@),
{
    let chars = chars_of(text);
    let ws = split_words_ws(chars.as_slice());
    let ghost all = ws@.map_values(|p: Vec<char>| p@);
    let mut out: Vec<char> = Vec::new();
    let mut kept: usize = 0;
    let mut i: usize = 0;
    proof {
        assert(all.take(0).filter(|w: Seq<char>| w != seq!['-']) =~= Seq::<Seq<char>>::empty());
    }
    while i < ws.len()
        invariant
            i <= ws@.len(),
            all == ws@.map_values(|p: Vec<char>| p@),
            all == words(chars@),
            kept == all.take(i as int).filter(|w: Seq<char>| w != seq!['-']).len(),
            out@ == join_spaced(all.take(i as int).filter(|w: Seq<char>| w != seq!['-'])),
        decreases ws@.len() - i,
    {
        let ghost prev = all.take(i as int).filter(|w: Seq<char>| w != seq!['-']);
        proof {
            assert(all.take(i + 1).drop_last() =~= all.take(i as int));
            reveal(Seq::filter);
        }
        let w = &ws[i];
        let is_dash = w.len() == 1 && w[0] == '-';
        proof {
            assert(is_dash == (w@ == seq!['-'])) by {
                if w@.len() == 1 && w@[0] == '-' {
                    assert(w@ =~= seq!['-']);
                }
            }
        }
        if !is_dash {
            if kept > 0 {
                out.push(' ');
            }
            let ghost head = out@;
            let mut k: usize = 0;
            while k < w.len()
                invariant
                    k <= w@.len(),
                    out@ =~= head + w@.subrange(0, k as int),
                decreases w@.len() - k,
            {
                out.push(w[k]);
                k = k + 1;
            }
            proof {
                assert(w@.subrange(0, k as int) =~= w@);
                let next = prev.push(all[i as int]);
                assert(next.drop_last() =~= prev);
                if prev.len() == 0 {
                    assert(out@ =~= join_spaced(next));
                }
            }
            kept = kept + 1;
        }
        i = i + 1;
    }
    proof {
        assert(all.take(i as int) =~= all);
    }
    string_from_chars(out.as_slice())
}


/// A text none of whose words is a lone `-` is searched for as it is,
/// word for word: words that merely start with `-` are kept.
pub proof fn law_sanitize_keeps_words_other_than_lone_dashes(text: Seq<char>)
    requires
        forall|i: int| 0 <= i < words(text).len() ==> #[trigger] words(text)[i] != seq!['-'],
    ensures
        sanitized(text) == join_spaced(words(text)),
{
    lemma_filter_keeps_all(words(text));
}

/// A text made only of lone `-` words searches for nothing.
pub proof fn law_sanitize_drops_lone_dashes(text: Seq<char>)
    requires
        forall|i: int| 0 <= i < words(text).len() ==> #[trigger] words(text)[i] == seq!['-'],
    ensures
        sanitized(text) == Seq::<char>::empty(),
{
    lemma_filter_drops_all(words(text));
}

/// A lone `-` word anywhere in a text makes no difference to the term.
pub proof fn law_sanitize_ignores_an_added_dash(t1: Seq<char>, t2: Seq<char>, k: int)
    requires
        0 <= k <= words(t1).len(),
        words(t2) == words(t1).take(k) + seq![seq!['-']] + words(t1).skip(k),
    ensures
        sanitized(t2) == sanitized(t1),
{
    let w = words(t1);
    let pred = |x: Seq<char>| x != seq!['-'];
    Seq::filter_distributes_over_add(w.take(k) + seq![seq!['-']], w.skip(k), pred);
    Seq::filter_distributes_over_add(w.take(k), seq![seq!['-']], pred);
    Seq::filter_distributes_over_add(w.take(k), w.skip(k), pred);
    lemma_filter_drops_all(seq![seq!['-']]);
    assert(w.take(k) + w.skip(k) =~= w);
    assert(w.take(k).filter(pred) + seq![seq!['-']].filter(pred) =~= w.take(k).filter(pred));
}

proof fn lemma_filter_keeps_all(ws: Seq<Seq<char>>)
    requires
        forall|i: int| 0 <= i < ws.len() ==> #[trigger] ws[i] != seq!['-'],
    ensures
        ws.filter(|w: Seq<char>| w != seq!['-']) == ws,
    decreases ws.len(),
{
    reveal(Seq::filter);
    if ws.len() > 0 {
        let d = ws.drop_last();
        assert forall|i: int| 0 <= i < d.len() implies #[trigger] d[i] != seq!['-'] by {
            assert(d[i] == ws[i]);
        }
        lemma_filter_keeps_all(d);
        assert(ws.last() == ws[ws.len() - 1]);
        assert(d.push(ws.last()) =~= ws);
    } else {
        assert(ws.filter(|w: Seq<char>| w != seq!['-']) =~= ws);
    }
}

proof fn lemma_filter_drops_all(ws: Seq<Seq<char>>)
    requires
        forall|i: int| 0 <= i < ws.len() ==> #[trigger] ws[i] == seq!['-'],
    ensures
        ws.filter(|w: Seq<char>| w != seq!['-']) == Seq::<Seq<char>>::empty(),
    decreases ws.len(),
{
    reveal(Seq::filter);
    if ws.len() > 0 {
        let d = ws.drop_last();
        assert forall|i: int| 0 <= i < d.len() implies #[trigger] d[i] == seq!['-'] by {
            assert(d[i] == ws[i]);
        }
        lemma_filter_drops_all(d);
        assert(ws.last() == ws[ws.len() - 1]);
    } else {
        assert(ws.filter(|w: Seq<char>| w != seq!['-']) =~= Seq::<Seq<char>>::empty());
    }
}

} // verus!
