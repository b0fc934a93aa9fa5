//! The transfers of one direction, found by key, by id, by the token of
//! their current attempt, or by their file connection.
//!
//! Four tables are kept: the transfers by key, and the keys by id, by
//! (user, token) and by connection.  Each operation changes them as a map
//! would; `lemma_insert_consistent` and the `consistent` clauses show that
//! the tables stay in step, and `law_insert_frame` what an insert leaves alone.
use vstd::prelude::*;

use super::queue::{key_view, TransferKey};
use crate::text::text_eq;
use crate::types::{ConnId, TransferId};

verus! {

broadcast use vstd::seq_lib::group_seq_properties;

// ---------------------------------------------------------------------
// Lists with unique keys, seen as maps
// ---------------------------------------------------------------------

/// No two elements have the same key.
pub open spec fn unique_keys<A, K>(s: Seq<A>, key: spec_fn(A) -> K) -> bool {
    forall|i: int, j: int|
        0 <= i < s.len() && 0 <= j < s.len() && key(#[trigger] s[i]) == key(#[trigger] s[j])
            ==> i == j
}

/// The list as a map from each element's key to its value.
pub open spec fn as_map<A, K, V>(s: Seq<A>, key: spec_fn(A) -> K, val: spec_fn(A) -> V) -> Map<
    K,
    V,
> {
    Map::new(
        |k: K| exists|i: int| 0 <= i < s.len() && key(s[i]) == k,
        |k: K| val(s[choose|i: int| 0 <= i < s.len() && key(s[i]) == k]),
    )
}

pub proof fn lemma_as_map_at<A, K, V>(s: Seq<A>, key: spec_fn(A) -> K, val: spec_fn(A) -> V, i: int)
    requires
        unique_keys(s, key),
        0 <= i < s.len(),
    ensures
        as_map(s, key, val).contains_key(key(s[i])),
        as_map(s, key, val)[key(s[i])] == val(s[i]),
{
    let k = key(s[i]);
    assert(exists|j: int| 0 <= j < s.len() && key(s[j]) == k);
    let j = choose|j: int| 0 <= j < s.len() && key(s[j]) == k;
    assert(j == i);
}

pub proof fn lemma_as_map_push<A, K, V>(s: Seq<A>, key: spec_fn(A) -> K, val: spec_fn(A) -> V, a: A)
    requires
        unique_keys(s, key),
        !as_map(s, key, val).contains_key(key(a)),
    ensures
        unique_keys(s.push(a), key),
        as_map(s.push(a), key, val) == as_map(s, key, val).insert(key(a), val(a)),
{
    let t = s.push(a);
    assert forall|i: int, j: int|
        0 <= i < t.len() && 0 <= j < t.len() && key(#[trigger] t[i]) == key(#[trigger] t[j])
            implies i == j by {
        if i < s.len() && j == s.len() {
            assert(as_map(s, key, val).contains_key(key(s[i])));
        }
        if j < s.len() && i == s.len() {
            assert(as_map(s, key, val).contains_key(key(s[j])));
        }
    }
    let m = as_map(t, key, val);
    let n = as_map(s, key, val).insert(key(a), val(a));
    assert forall|k: K| m.contains_key(k) == n.contains_key(k) by {
        if m.contains_key(k) {
            let i = choose|i: int| 0 <= i < t.len() && key(t[i]) == k;
            if i < s.len() {
                assert(key(s[i]) == k);
            }
        }
        if as_map(s, key, val).contains_key(k) {
            let i = choose|i: int| 0 <= i < s.len() && key(s[i]) == k;
            assert(key(t[i]) == k);
        }
        if k == key(a) {
            assert(key(t[s.len() as int]) == k);
        }
    }
    assert forall|k: K| #[trigger] m.contains_key(k) implies m[k] == n[k] by {
        let i = choose|i: int| 0 <= i < t.len() && key(t[i]) == k;
        lemma_as_map_at(t, key, val, i);
        if i < s.len() {
            lemma_as_map_at(s, key, val, i);
        }
    }
    assert(m =~= n);
}

pub proof fn lemma_as_map_update<A, K, V>(
    s: Seq<A>,
    key: spec_fn(A) -> K,
    val: spec_fn(A) -> V,
    i: int,
    a: A,
)
    requires
        unique_keys(s, key),
        0 <= i < s.len(),
        key(a) == key(s[i]),
    ensures
        unique_keys(s.update(i, a), key),
        as_map(s.update(i, a), key, val) == as_map(s, key, val).insert(key(a), val(a)),
{
    let t = s.update(i, a);
    assert forall|x: int, y: int|
        0 <= x < t.len() && 0 <= y < t.len() && key(#[trigger] t[x]) == key(#[trigger] t[y])
            implies x == y by {
        assert(key(t[x]) == key(s[x]));
        assert(key(t[y]) == key(s[y]));
    }
    let m = as_map(t, key, val);
    let n = as_map(s, key, val).insert(key(a), val(a));
    assert forall|k: K| m.contains_key(k) == n.contains_key(k) by {
        if m.contains_key(k) {
            let x = choose|x: int| 0 <= x < t.len() && key(t[x]) == k;
            assert(key(s[x]) == k);
        }
        if as_map(s, key, val).contains_key(k) {
            let x = choose|x: int| 0 <= x < s.len() && key(s[x]) == k;
            assert(key(t[x]) == k);
        }
        if k == key(a) {
            assert(key(t[i]) == k);
        }
    }
    assert forall|k: K| #[trigger] m.contains_key(k) implies m[k] == n[k] by {
        let x = choose|x: int| 0 <= x < t.len() && key(t[x]) == k;
        lemma_as_map_at(t, key, val, x);
        if x != i {
            lemma_as_map_at(s, key, val, x);
        }
    }
    assert(m =~= n);
}

/// `lemma_as_map_update` for every replacement with the same key.
pub proof fn lemma_as_map_update_any<A, K, V>(
    s: Seq<A>,
    key: spec_fn(A) -> K,
    val: spec_fn(A) -> V,
    i: int,
)
    requires
        unique_keys(s, key),
        0 <= i < s.len(),
    ensures
        forall|a: A|
            key(a) == key(s[i]) ==> unique_keys(#[trigger] s.update(i, a), key) && as_map(
                s.update(i, a),
                key,
                val,
            ) == as_map(s, key, val).insert(key(a), val(a)),
{
    assert forall|a: A| key(a) == key(s[i]) implies unique_keys(#[trigger] s.update(i, a), key)
        && as_map(s.update(i, a), key, val) == as_map(s, key, val).insert(key(a), val(a)) by {
        lemma_as_map_update(s, key, val, i, a);
    }
}

pub proof fn lemma_as_map_remove<A, K, V>(s: Seq<A>, key: spec_fn(A) -> K, val: spec_fn(A) -> V, i: int)
    requires
        unique_keys(s, key),
        0 <= i < s.len(),
    ensures
        unique_keys(s.remove(i), key),
        as_map(s.remove(i), key, val) == as_map(s, key, val).remove(key(s[i])),
{
    let t = s.remove(i);
    assert forall|x: int| 0 <= x < t.len() implies #[trigger] t[x] == s[if x < i {
        x
    } else {
        x + 1
    }] by {}
    assert forall|x: int, y: int|
        0 <= x < t.len() && 0 <= y < t.len() && key(#[trigger] t[x]) == key(#[trigger] t[y])
            implies x == y by {
        let ox = if x < i { x } else { x + 1 };
        let oy = if y < i { y } else { y + 1 };
        assert(t[x] == s[ox]);
        assert(t[y] == s[oy]);
    }
    let m = as_map(t, key, val);
    let n = as_map(s, key, val).remove(key(s[i]));
    assert forall|k: K| m.contains_key(k) == n.contains_key(k) by {
        if m.contains_key(k) {
            let x = choose|x: int| 0 <= x < t.len() && key(t[x]) == k;
            let ox = if x < i { x } else { x + 1 };
            assert(t[x] == s[ox]);
            assert(key(s[ox]) == k);
        }
        if n.contains_key(k) {
            let ox = choose|x: int| 0 <= x < s.len() && key(s[x]) == k;
            assert(ox != i);
            let x = if ox < i { ox } else { ox - 1 };
            assert(t[x] == s[ox]);
        }
    }
    assert forall|k: K| #[trigger] m.contains_key(k) implies m[k] == n[k] by {
        let x = choose|x: int| 0 <= x < t.len() && key(t[x]) == k;
        let ox = if x < i { x } else { x + 1 };
        assert(t[x] == s[ox]);
        lemma_as_map_at(t, key, val, x);
        lemma_as_map_at(s, key, val, ox);
    }
    assert(m =~= n);
}

// ---------------------------------------------------------------------
// The registry
// ---------------------------------------------------------------------

/// The tables are in step: each transfer is found by its id, by its token
/// and by its connection, and every id, token and connection leads to a
/// transfer that has it.
pub open spec fn tables_consistent<T>(
    e: Map<KeyView, EntryView<T>>,
    ids: Map<TransferId, KeyView>,
    tokens: Map<(Seq<char>, u32), KeyView>,
    conns: Map<ConnId, KeyView>,
) -> bool {
    &&& forall|k: KeyView| #[trigger]
        e.contains_key(k) ==> {
            &&& ids.contains_key(e[k].0) && ids[e[k].0] == k
            &&& (e[k].1 matches Some(t) ==> tokens.contains_key((k.0, t)) && tokens[(k.0, t)] == k)
            &&& (e[k].2 matches Some(c) ==> conns.contains_key(c) && conns[c] == k)
        }
    &&& forall|id: TransferId| #[trigger]
        ids.contains_key(id) ==> e.contains_key(ids[id]) && e[ids[id]].0 == id
    &&& forall|ut: (Seq<char>, u32)| #[trigger]
        tokens.contains_key(ut) ==> e.contains_key(tokens[ut]) && tokens[ut].0 == ut.0
            && e[tokens[ut]].1 == Some(ut.1)
    &&& forall|c: ConnId| #[trigger]
        conns.contains_key(c) ==> e.contains_key(conns[c]) && e[conns[c]].2 == Some(c)
}

/// The tables after `insert` of `transfer` under `k` with `id`, as its
/// contract gives them: the entry replaced, its old id, token and
/// connection forgotten, and the new id filed.
pub open spec fn tables_after_insert<T>(
    e: Map<KeyView, EntryView<T>>,
    ids: Map<TransferId, KeyView>,
    tokens: Map<(Seq<char>, u32), KeyView>,
    conns: Map<ConnId, KeyView>,
    k: KeyView,
    id: TransferId,
    transfer: T,
) -> (Map<KeyView, EntryView<T>>, Map<TransferId, KeyView>, Map<(Seq<char>, u32), KeyView>, Map<ConnId, KeyView>) {
    (
        e.insert(k, (id, None, None, transfer)),
        (match e.get(k) {
            Some(o) => ids.remove(o.0),
            None => ids,
        }).insert(id, k),
        match e.get(k) {
            Some(o) => match o.1 {
                Some(t) => tokens.remove((k.0, t)),
                None => tokens,
            },
            None => tokens,
        },
        match e.get(k) {
            Some(o) => match o.2 {
                Some(c) => conns.remove(c),
                None => conns,
            },
            None => conns,
        },
    )
}

/// What an insert leaves alone, when the tables are in step and the id is
/// not another transfer's: the transfer under `k` is the new one, found by
/// its id and by neither token nor connection; its old id is forgotten when
/// it differs; every other key keeps its transfer, its id, its token and its
/// connection.
pub proof fn law_insert_frame<T>(
    e: Map<KeyView, EntryView<T>>,
    ids: Map<TransferId, KeyView>,
    tokens: Map<(Seq<char>, u32), KeyView>,
    conns: Map<ConnId, KeyView>,
    k: KeyView,
    id: TransferId,
    transfer: T,
)
    requires
        tables_consistent(e, ids, tokens, conns),
        ids.contains_key(id) ==> ids[id] == k,
    ensures
        ({
            let (e2, ids2, tokens2, conns2) = tables_after_insert(e, ids, tokens, conns, k, id, transfer);
            &&& e2[k] == (id, None::<u32>, None::<ConnId>, transfer)
            &&& ids2.contains_key(id) && ids2[id] == k
            &&& forall|ut: (Seq<char>, u32)| tokens2.contains_key(ut) ==> #[trigger] tokens2[ut] != k
            &&& forall|c: ConnId| conns2.contains_key(c) ==> #[trigger] conns2[c] != k
            &&& (e.contains_key(k) && e[k].0 != id ==> !ids2.contains_key(e[k].0))
            &&& forall|k2: KeyView| k2 != k ==> #[trigger] e2.get(k2) == e.get(k2)
            &&& forall|i: TransferId| (ids.contains_key(i) && ids[i] != k) ==> #[trigger] ids2.contains_key(i) && ids2[i] == ids[i]
            &&& forall|ut: (Seq<char>, u32)| (tokens.contains_key(ut) && tokens[ut] != k) ==> #[trigger] tokens2.contains_key(ut) && tokens2[ut] == tokens[ut]
            &&& forall|c: ConnId| (conns.contains_key(c) && conns[c] != k) ==> #[trigger] conns2.contains_key(c) && conns2[c] == conns[c]
        }),
{
    let (e2, ids2, tokens2, conns2) = tables_after_insert(e, ids, tokens, conns, k, id, transfer);
    assert forall|ut: (Seq<char>, u32)| tokens2.contains_key(ut) implies #[trigger] tokens2[ut] != k by {
        assert(tokens.contains_key(ut));
        if tokens[ut] == k {
            assert(e[k].1 == Some(ut.1));
        }
    }
    assert forall|c: ConnId| conns2.contains_key(c) implies #[trigger] conns2[c] != k by {
        assert(conns.contains_key(c));
        if conns[c] == k {
            assert(e[k].2 == Some(c));
        }
    }
    assert forall|i: TransferId| (ids.contains_key(i) && ids[i] != k) implies #[trigger] ids2.contains_key(i) && ids2[i] == ids[i] by {
        if e.contains_key(k) {
            assert(ids[e[k].0] == k);
        }
    }
    assert forall|ut: (Seq<char>, u32)| (tokens.contains_key(ut) && tokens[ut] != k) implies #[trigger] tokens2.contains_key(ut) && tokens2[ut] == tokens[ut] by {
        if e.contains_key(k) && e[k].1 is Some {
            assert(tokens[(k.0, e[k].1->Some_0)] == k);
        }
    }
    assert forall|c: ConnId| (conns.contains_key(c) && conns[c] != k) implies #[trigger] conns2.contains_key(c) && conns2[c] == conns[c] by {
        if e.contains_key(k) && e[k].2 is Some {
            assert(conns[e[k].2->Some_0] == k);
        }
    }
}

/// Adding or replacing a transfer keeps the tables in step when its id is
/// not another transfer's.
pub proof fn lemma_insert_consistent<T>(
    e: Map<KeyView, EntryView<T>>,
    ids: Map<TransferId, KeyView>,
    tokens: Map<(Seq<char>, u32), KeyView>,
    conns: Map<ConnId, KeyView>,
    k: KeyView,
    id: TransferId,
    transfer: T,
)
    requires
        tables_consistent(e, ids, tokens, conns),
        ids.contains_key(id) ==> ids[id] == k,
    ensures
        tables_consistent(
            e.insert(k, (id, None, None, transfer)),
            (match e.get(k) {
                Some(x) => ids.remove(x.0),
                None => ids,
            }).insert(id, k),
            match e.get(k) {
                Some(x) => match x.1 {
                    Some(t) => tokens.remove((k.0, t)),
                    None => tokens,
                },
                None => tokens,
            },
            match e.get(k) {
                Some(x) => match x.2 {
                    Some(c) => conns.remove(c),
                    None => conns,
                },
                None => conns,
            },
        ),
{
    let e1 = e.insert(k, (id, None, None, transfer));
    let ids1 = (match e.get(k) {
        Some(x) => ids.remove(x.0),
        None => ids,
    }).insert(id, k);
    let tokens1 = match e.get(k) {
        Some(x) => match x.1 {
            Some(t) => tokens.remove((k.0, t)),
            None => tokens,
        },
        None => tokens,
    };
    let conns1 = match e.get(k) {
        Some(x) => match x.2 {
            Some(c) => conns.remove(c),
            None => conns,
        },
        None => conns,
    };
    assert forall|k2: KeyView| #[trigger] e1.contains_key(k2) implies {
        &&& ids1.contains_key(e1[k2].0) && ids1[e1[k2].0] == k2
        &&& (e1[k2].1 matches Some(t) ==> tokens1.contains_key((k2.0, t)) && tokens1[(k2.0, t)] == k2)
        &&& (e1[k2].2 matches Some(c) ==> conns1.contains_key(c) && conns1[c] == k2)
    } by {
        if k2 != k {
            assert(e.contains_key(k2));
            if e1[k2].0 == id {
                assert(ids[e[k2].0] == k2);
            }
        }
    }
    assert forall|i2: TransferId| #[trigger] ids1.contains_key(i2) implies e1.contains_key(ids1[i2])
        && e1[ids1[i2]].0 == i2 by {
        if i2 != id {
            assert(ids.contains_key(i2));
            if ids[i2] == k {
                assert(e[k].0 == i2);
            }
        }
    }
    assert forall|ut: (Seq<char>, u32)| #[trigger] tokens1.contains_key(ut) implies e1.contains_key(
        tokens1[ut],
    ) && tokens1[ut].0 == ut.0 && e1[tokens1[ut]].1 == Some(ut.1) by {
        assert(tokens.contains_key(ut));
        if tokens[ut] == k {
            assert(e[k].1 == Some(ut.1));
        }
    }
    assert forall|c: ConnId| #[trigger] conns1.contains_key(c) implies e1.contains_key(conns1[c])
        && e1[conns1[c]].2 == Some(c) by {
        assert(conns.contains_key(c));
        if conns[c] == k {
            assert(e[k].2 == Some(c));
        }
    }
}

/// Giving a transfer a token keeps the tables in step when no other
/// transfer of the same user holds that token.
pub proof fn lemma_attach_token_consistent<T>(
    e: Map<KeyView, EntryView<T>>,
    ids: Map<TransferId, KeyView>,
    tokens: Map<(Seq<char>, u32), KeyView>,
    conns: Map<ConnId, KeyView>,
    k: KeyView,
    token: u32,
)
    requires
        tables_consistent(e, ids, tokens, conns),
        e.contains_key(k),
        tokens.contains_key((k.0, token)) ==> tokens[(k.0, token)] == k,
    ensures
        tables_consistent(
            e.insert(k, (e[k].0, Some(token), e[k].2, e[k].3)),
            ids,
            (match e[k].1 {
                Some(p) => tokens.remove((k.0, p)),
                None => tokens,
            }).insert((k.0, token), k),
            conns,
        ),
{
    let e1 = e.insert(k, (e[k].0, Some(token), e[k].2, e[k].3));
    let tokens1 = (match e[k].1 {
        Some(p) => tokens.remove((k.0, p)),
        None => tokens,
    }).insert((k.0, token), k);
    assert forall|k2: KeyView| #[trigger] e1.contains_key(k2) implies {
        &&& ids.contains_key(e1[k2].0) && ids[e1[k2].0] == k2
        &&& (e1[k2].1 matches Some(t) ==> tokens1.contains_key((k2.0, t)) && tokens1[(k2.0, t)] == k2)
        &&& (e1[k2].2 matches Some(c) ==> conns.contains_key(c) && conns[c] == k2)
    } by {
        if k2 != k {
            assert(e.contains_key(k2));
            if let Some(t) = e1[k2].1 {
                assert(tokens[(k2.0, t)] == k2);
            }
        }
    }
    assert forall|i2: TransferId| #[trigger] ids.contains_key(i2) implies e1.contains_key(ids[i2])
        && e1[ids[i2]].0 == i2 by {}
    assert forall|ut: (Seq<char>, u32)| #[trigger] tokens1.contains_key(ut) implies e1.contains_key(
        tokens1[ut],
    ) && tokens1[ut].0 == ut.0 && e1[tokens1[ut]].1 == Some(ut.1) by {
        if ut != (k.0, token) {
            assert(tokens.contains_key(ut));
            if tokens[ut] == k {
                assert(e[k].1 == Some(ut.1));
            }
        }
    }
    assert forall|c: ConnId| #[trigger] conns.contains_key(c) implies e1.contains_key(conns[c])
        && e1[conns[c]].2 == Some(c) by {}
}

/// Giving a transfer a connection keeps the tables in step when no other
/// transfer is on that connection.
pub proof fn lemma_attach_conn_consistent<T>(
    e: Map<KeyView, EntryView<T>>,
    ids: Map<TransferId, KeyView>,
    tokens: Map<(Seq<char>, u32), KeyView>,
    conns: Map<ConnId, KeyView>,
    k: KeyView,
    conn_id: ConnId,
)
    requires
        tables_consistent(e, ids, tokens, conns),
        e.contains_key(k),
        conns.contains_key(conn_id) ==> conns[conn_id] == k,
    ensures
        tables_consistent(
            e.insert(k, (e[k].0, e[k].1, Some(conn_id), e[k].3)),
            ids,
            tokens,
            (match e[k].2 {
                Some(p) => conns.remove(p),
                None => conns,
            }).insert(conn_id, k),
        ),
{
    let e1 = e.insert(k, (e[k].0, e[k].1, Some(conn_id), e[k].3));
    let conns1 = (match e[k].2 {
        Some(p) => conns.remove(p),
        None => conns,
    }).insert(conn_id, k);
    assert forall|k2: KeyView| #[trigger] e1.contains_key(k2) implies {
        &&& ids.contains_key(e1[k2].0) && ids[e1[k2].0] == k2
        &&& (e1[k2].1 matches Some(t) ==> tokens.contains_key((k2.0, t)) && tokens[(k2.0, t)] == k2)
        &&& (e1[k2].2 matches Some(c) ==> conns1.contains_key(c) && conns1[c] == k2)
    } by {
        if k2 != k {
            assert(e.contains_key(k2));
            if let Some(c) = e1[k2].2 {
                assert(conns[c] == k2);
            }
        }
    }
    assert forall|i2: TransferId| #[trigger] ids.contains_key(i2) implies e1.contains_key(ids[i2])
        && e1[ids[i2]].0 == i2 by {}
    assert forall|ut: (Seq<char>, u32)| #[trigger] tokens.contains_key(ut) implies e1.contains_key(
        tokens[ut],
    ) && tokens[ut].0 == ut.0 && e1[tokens[ut]].1 == Some(ut.1) by {}
    assert forall|c: ConnId| #[trigger] conns1.contains_key(c) implies e1.contains_key(conns1[c])
        && e1[conns1[c]].2 == Some(c) by {
        if c != conn_id {
            assert(conns.contains_key(c));
            if conns[c] == k {
                assert(e[k].2 == Some(c));
            }
        }
    }
}

/// Taking a transfer's token and connection away keeps the tables in step.
pub proof fn lemma_detach_consistent<T>(
    e: Map<KeyView, EntryView<T>>,
    ids: Map<TransferId, KeyView>,
    tokens: Map<(Seq<char>, u32), KeyView>,
    conns: Map<ConnId, KeyView>,
    k: KeyView,
    drop_token: bool,
    drop_conn: bool,
)
    requires
        tables_consistent(e, ids, tokens, conns),
        e.contains_key(k),
    ensures
        tables_consistent(
            e.insert(
                k,
                (
                    e[k].0,
                    if drop_token { None } else { e[k].1 },
                    if drop_conn { None } else { e[k].2 },
                    e[k].3,
                ),
            ),
            ids,
            match e[k].1 {
                Some(t) => if drop_token {
                    tokens.remove((k.0, t))
                } else {
                    tokens
                },
                None => tokens,
            },
            match e[k].2 {
                Some(c) => if drop_conn {
                    conns.remove(c)
                } else {
                    conns
                },
                None => conns,
            },
        ),
{
    let e1 = e.insert(
        k,
        (
            e[k].0,
            if drop_token { None } else { e[k].1 },
            if drop_conn { None } else { e[k].2 },
            e[k].3,
        ),
    );
    let tokens1 = match e[k].1 {
        Some(t) => if drop_token {
            tokens.remove((k.0, t))
        } else {
            tokens
        },
        None => tokens,
    };
    let conns1 = match e[k].2 {
        Some(c) => if drop_conn {
            conns.remove(c)
        } else {
            conns
        },
        None => conns,
    };
    assert forall|k2: KeyView| #[trigger] e1.contains_key(k2) implies {
        &&& ids.contains_key(e1[k2].0) && ids[e1[k2].0] == k2
        &&& (e1[k2].1 matches Some(t) ==> tokens1.contains_key((k2.0, t)) && tokens1[(k2.0, t)] == k2)
        &&& (e1[k2].2 matches Some(c) ==> conns1.contains_key(c) && conns1[c] == k2)
    } by {
        assert(e.contains_key(k2));
        if let Some(t) = e1[k2].1 {
            assert(tokens[(k2.0, t)] == k2);
        }
        if let Some(c) = e1[k2].2 {
            assert(conns[c] == k2);
        }
    }
    assert forall|i2: TransferId| #[trigger] ids.contains_key(i2) implies e1.contains_key(ids[i2])
        && e1[ids[i2]].0 == i2 by {}
    assert forall|ut: (Seq<char>, u32)| #[trigger] tokens1.contains_key(ut) implies e1.contains_key(
        tokens1[ut],
    ) && tokens1[ut].0 == ut.0 && e1[tokens1[ut]].1 == Some(ut.1) by {
        assert(tokens.contains_key(ut));
    }
    assert forall|c: ConnId| #[trigger] conns1.contains_key(c) implies e1.contains_key(conns1[c])
        && e1[conns1[c]].2 == Some(c) by {
        assert(conns.contains_key(c));
    }
}

/// Changing a transfer in place keeps the tables in step.
pub proof fn lemma_change_consistent<T>(
    e: Map<KeyView, EntryView<T>>,
    ids: Map<TransferId, KeyView>,
    tokens: Map<(Seq<char>, u32), KeyView>,
    conns: Map<ConnId, KeyView>,
    k: KeyView,
    transfer: T,
)
    requires
        tables_consistent(e, ids, tokens, conns),
        e.contains_key(k),
    ensures
        tables_consistent(e.insert(k, (e[k].0, e[k].1, e[k].2, transfer)), ids, tokens, conns),
{
    let e1 = e.insert(k, (e[k].0, e[k].1, e[k].2, transfer));
    assert forall|k2: KeyView| #[trigger] e1.contains_key(k2) implies {
        &&& ids.contains_key(e1[k2].0) && ids[e1[k2].0] == k2
        &&& (e1[k2].1 matches Some(t) ==> tokens.contains_key((k2.0, t)) && tokens[(k2.0, t)] == k2)
        &&& (e1[k2].2 matches Some(c) ==> conns.contains_key(c) && conns[c] == k2)
    } by {
        assert(e.contains_key(k2));
    }
    assert forall|i2: TransferId| #[trigger] ids.contains_key(i2) implies e1.contains_key(ids[i2])
        && e1[ids[i2]].0 == i2 by {}
    assert forall|ut: (Seq<char>, u32)| #[trigger] tokens.contains_key(ut) implies e1.contains_key(
        tokens[ut],
    ) && tokens[ut].0 == ut.0 && e1[tokens[ut]].1 == Some(ut.1) by {}
    assert forall|c: ConnId| #[trigger] conns.contains_key(c) implies e1.contains_key(conns[c])
        && e1[conns[c]].2 == Some(c) by {}
}

/// Removing a transfer with nothing attached keeps the tables in step.
pub proof fn lemma_remove_consistent<T>(
    e: Map<KeyView, EntryView<T>>,
    ids: Map<TransferId, KeyView>,
    tokens: Map<(Seq<char>, u32), KeyView>,
    conns: Map<ConnId, KeyView>,
    id: TransferId,
)
    requires
        tables_consistent(e, ids, tokens, conns),
        ids.contains_key(id),
        e[ids[id]].1 is None,
        e[ids[id]].2 is None,
    ensures
        tables_consistent(e.remove(ids[id]), ids.remove(id), tokens, conns),
{
    let k = ids[id];
    let e1 = e.remove(k);
    let ids1 = ids.remove(id);
    assert forall|k2: KeyView| #[trigger] e1.contains_key(k2) implies {
        &&& ids1.contains_key(e1[k2].0) && ids1[e1[k2].0] == k2
        &&& (e1[k2].1 matches Some(t) ==> tokens.contains_key((k2.0, t)) && tokens[(k2.0, t)] == k2)
        &&& (e1[k2].2 matches Some(c) ==> conns.contains_key(c) && conns[c] == k2)
    } by {
        assert(e.contains_key(k2));
        assert(e[k2].0 != id);
    }
    assert forall|i2: TransferId| #[trigger] ids1.contains_key(i2) implies e1.contains_key(ids1[i2])
        && e1[ids1[i2]].0 == i2 by {
        assert(ids.contains_key(i2));
        assert(ids[i2] != k);
    }
    assert forall|ut: (Seq<char>, u32)| #[trigger] tokens.contains_key(ut) implies e1.contains_key(
        tokens[ut],
    ) && tokens[ut].0 == ut.0 && e1[tokens[ut]].1 == Some(ut.1) by {
        assert(tokens[ut] != k);
    }
    assert forall|c: ConnId| #[trigger] conns.contains_key(c) implies e1.contains_key(conns[c])
        && e1[conns[c]].2 == Some(c) by {
        assert(conns[c] != k);
    }
}

// ---------------------------------------------------------------------
// Tables
// ---------------------------------------------------------------------

/// What a transfer was attached to before it was detached.
pub struct Detached {
    pub token: Option<u32>,
    pub conn_id: Option<ConnId>,
}

struct Entry<T> {
    id: TransferId,
    token: Option<u32>,
    conn_id: Option<ConnId>,
    transfer: T,
}

/// A key as characters.
pub type KeyView = (Seq<char>, Seq<char>);

/// A transfer with its id, the token of its attempt and its connection.
pub type EntryView<T> = (TransferId, Option<u32>, Option<ConnId>, T);

pub struct Registry<T> {
    entries: Vec<(TransferKey, Entry<T>)>,
    ids: Vec<(TransferId, TransferKey)>,
    tokens: Vec<((String, u32), TransferKey)>,
    conns: Vec<(ConnId, TransferKey)>,
}

spec fn entry_key<T>() -> spec_fn((TransferKey, Entry<T>)) -> KeyView {
    |e: (TransferKey, Entry<T>)| key_view(e.0)
}

spec fn entry_val<T>() -> spec_fn((TransferKey, Entry<T>)) -> EntryView<T> {
    |e: (TransferKey, Entry<T>)| (e.1.id, e.1.token, e.1.conn_id, e.1.transfer)
}

spec fn id_key() -> spec_fn((TransferId, TransferKey)) -> TransferId {
    |e: (TransferId, TransferKey)| e.0
}

spec fn id_val() -> spec_fn((TransferId, TransferKey)) -> KeyView {
    |e: (TransferId, TransferKey)| key_view(e.1)
}

spec fn token_key() -> spec_fn(((String, u32), TransferKey)) -> (Seq<char>, u32) {
    |e: ((String, u32), TransferKey)| (e.0.0@, e.0.1)
}

spec fn token_val() -> spec_fn(((String, u32), TransferKey)) -> KeyView {
    |e: ((String, u32), TransferKey)| key_view(e.1)
}

spec fn conn_key() -> spec_fn((ConnId, TransferKey)) -> ConnId {
    |e: (ConnId, TransferKey)| e.0
}

spec fn conn_val() -> spec_fn((ConnId, TransferKey)) -> KeyView {
    |e: (ConnId, TransferKey)| key_view(e.1)
}

impl<T> Registry<T> {
    /// The transfers by key.
    pub closed spec fn entries(&self) -> Map<KeyView, EntryView<T>> {
        as_map(self.entries@, entry_key(), entry_val())
    }

    /// The keys by transfer id.
    pub closed spec fn ids(&self) -> Map<TransferId, KeyView> {
        as_map(self.ids@, id_key(), id_val())
    }

    /// The keys by user and token.
    pub closed spec fn tokens(&self) -> Map<(Seq<char>, u32), KeyView> {
        as_map(self.tokens@, token_key(), token_val())
    }

    /// The keys by connection.
    pub closed spec fn conns(&self) -> Map<ConnId, KeyView> {
        as_map(self.conns@, conn_key(), conn_val())
    }

    /// Each table holds each key once.
    pub closed spec fn wf(&self) -> bool {
        &&& unique_keys(self.entries@, entry_key())
        &&& unique_keys(self.ids@, id_key())
        &&& unique_keys(self.tokens@, token_key())
        &&& unique_keys(self.conns@, conn_key())
    }

    /// The tables are in step (see `tables_consistent`).
    pub open spec fn consistent(&self) -> bool {
        tables_consistent(self.entries(), self.ids(), self.tokens(), self.conns())
    }

    pub fn new() -> (r: Self)
        ensures
            r.wf(),
            r.consistent(),
            r.entries() == Map::<KeyView, EntryView<T>>::empty(),
            r.ids() == Map::<TransferId, KeyView>::empty(),
            r.tokens() == Map::<(Seq<char>, u32), KeyView>::empty(),
            r.conns() == Map::<ConnId, KeyView>::empty(),
    {
        let r = Self { entries: Vec::new(), ids: Vec::new(), tokens: Vec::new(), conns: Vec::new() };
        proof {
            assert(r.entries() =~= Map::<KeyView, EntryView<T>>::empty());
            assert(r.ids() =~= Map::<TransferId, KeyView>::empty());
            assert(r.tokens() =~= Map::<(Seq<char>, u32), KeyView>::empty());
            assert(r.conns() =~= Map::<ConnId, KeyView>::empty());
        }
        r
    }

    fn entry_index(&self, key: &TransferKey) -> (i: Option<usize>)
        requires
            self.wf(),
        ensures
            match i {
                Some(i) => i < self.entries@.len() && key_view(self.entries@[i as int].0)
                    == key_view(*key),
                None => !self.entries().contains_key(key_view(*key)),
            },
    {
        let mut i: usize = 0;
        while i < self.entries.len()
            invariant
                i <= self.entries@.len(),
                forall|j: int| 0 <= j < i ==> key_view(self.entries@[j].0) != key_view(*key),
            decreases self.entries@.len() - i,
        {
            if text_eq(self.entries[i].0.0.as_str(), key.0.as_str()) && text_eq(
                self.entries[i].0.1.as_str(),
                key.1.as_str(),
            ) {
                return Some(i);
            }
            i = i + 1;
        }
        proof {
            if self.entries().contains_key(key_view(*key)) {
                let j = choose|j: int|
                    0 <= j < self.entries@.len() && entry_key::<T>()(self.entries@[j])
                        == key_view(*key);
                assert(key_view(self.entries@[j].0) == key_view(*key));
            }
        }
        None
    }

    fn id_index(&self, id: TransferId) -> (i: Option<usize>)
        requires
            self.wf(),
        ensures
            match i {
                Some(i) => i < self.ids@.len() && self.ids@[i as int].0 == id,
                None => !self.ids().contains_key(id),
            },
    {
        let mut i: usize = 0;
        while i < self.ids.len()
            invariant
                i <= self.ids@.len(),
                forall|j: int| 0 <= j < i ==> self.ids@[j].0 != id,
            decreases self.ids@.len() - i,
        {
            if self.ids[i].0.0 == id.0 {
                return Some(i);
            }
            i = i + 1;
        }
        proof {
            if self.ids().contains_key(id) {
                let j = choose|j: int| 0 <= j < self.ids@.len() && id_key()(self.ids@[j]) == id;
                assert(self.ids@[j].0 == id);
            }
        }
        None
    }

    fn token_index(&self, username: &str, token: u32) -> (i: Option<usize>)
        requires
            self.wf(),
        ensures
            match i {
                Some(i) => i < self.tokens@.len() && token_key()(self.tokens@[i as int]) == (
                    username@,
                    token,
                ),
                None => !self.tokens().contains_key((username@, token)),
            },
    {
        let mut i: usize = 0;
        while i < self.tokens.len()
            invariant
                i <= self.tokens@.len(),
                forall|j: int| 0 <= j < i ==> token_key()(self.tokens@[j]) != (username@, token),
            decreases self.tokens@.len() - i,
        {
            if self.tokens[i].0.1 == token && text_eq(self.tokens[i].0.0.as_str(), username) {
                return Some(i);
            }
            i = i + 1;
        }
        None
    }

    fn conn_index(&self, conn_id: ConnId) -> (i: Option<usize>)
        requires
            self.wf(),
        ensures
            match i {
                Some(i) => i < self.conns@.len() && self.conns@[i as int].0 == conn_id,
                None => !self.conns().contains_key(conn_id),
            },
    {
        let mut i: usize = 0;
        while i < self.conns.len()
            invariant
                i <= self.conns@.len(),
                forall|j: int| 0 <= j < i ==> self.conns@[j].0 != conn_id,
            decreases self.conns@.len() - i,
        {
            if self.conns[i].0.0 == conn_id.0 {
                return Some(i);
            }
            i = i + 1;
        }
        proof {
            if self.conns().contains_key(conn_id) {
                let j = choose|j: int|
                    0 <= j < self.conns@.len() && conn_key()(self.conns@[j]) == conn_id;
                assert(self.conns@[j].0 == conn_id);
            }
        }
        None
    }

    // -----------------------------------------------------------------
    // Table updates
    // -----------------------------------------------------------------

    fn ids_remove(&mut self, id: TransferId)
        requires
            old(self).wf(),
        ensures
            final(self).wf(),
            final(self).ids() == old(self).ids().remove(id),
            final(self).entries == old(self).entries,
            final(self).tokens == old(self).tokens,
            final(self).conns == old(self).conns,
    {
        match self.id_index(id) {
            Some(i) => {
                proof {
                    lemma_as_map_remove(self.ids@, id_key(), id_val(), i as int);
                }
                self.ids.remove(i);
            },
            None => {
                proof {
                    assert(self.ids() =~= self.ids().remove(id));
                }
            },
        }
    }

    fn ids_insert(&mut self, id: TransferId, key: TransferKey)
        requires
            old(self).wf(),
        ensures
            final(self).wf(),
            final(self).ids() == old(self).ids().insert(id, key_view(key)),
            final(self).entries == old(self).entries,
            final(self).tokens == old(self).tokens,
            final(self).conns == old(self).conns,
    {
        let ghost kv = key_view(key);
        match self.id_index(id) {
            Some(i) => {
                proof {
                    lemma_as_map_update(self.ids@, id_key(), id_val(), i as int, (id, key));
                }
                self.ids.set(i, (id, key));
            },
            None => {
                proof {
                    lemma_as_map_push(self.ids@, id_key(), id_val(), (id, key));
                }
                self.ids.push((id, key));
            },
        }
    }

    fn tokens_remove(&mut self, username: &str, token: u32)
        requires
            old(self).wf(),
        ensures
            final(self).wf(),
            final(self).tokens() == old(self).tokens().remove((username@, token)),
            final(self).entries == old(self).entries,
            final(self).ids == old(self).ids,
            final(self).conns == old(self).conns,
    {
        match self.token_index(username, token) {
            Some(i) => {
                proof {
                    lemma_as_map_remove(self.tokens@, token_key(), token_val(), i as int);
                }
                self.tokens.remove(i);
            },
            None => {
                proof {
                    assert(self.tokens() =~= self.tokens().remove((username@, token)));
                }
            },
        }
    }

    fn tokens_insert(&mut self, username: String, token: u32, key: TransferKey)
        requires
            old(self).wf(),
        ensures
            final(self).wf(),
            final(self).tokens() == old(self).tokens().insert((username@, token), key_view(key)),
            final(self).entries == old(self).entries,
            final(self).ids == old(self).ids,
            final(self).conns == old(self).conns,
    {
        match self.token_index(username.as_str(), token) {
            Some(i) => {
                proof {
                    lemma_as_map_update(
                        self.tokens@,
                        token_key(),
                        token_val(),
                        i as int,
                        ((username, token), key),
                    );
                }
                self.tokens.set(i, ((username, token), key));
            },
            None => {
                proof {
                    lemma_as_map_push(self.tokens@, token_key(), token_val(), ((username, token), key));
                }
                self.tokens.push(((username, token), key));
            },
        }
    }

    fn conns_remove(&mut self, conn_id: ConnId)
        requires
            old(self).wf(),
        ensures
            final(self).wf(),
            final(self).conns() == old(self).conns().remove(conn_id),
            final(self).entries == old(self).entries,
            final(self).ids == old(self).ids,
            final(self).tokens == old(self).tokens,
    {
        match self.conn_index(conn_id) {
            Some(i) => {
                proof {
                    lemma_as_map_remove(self.conns@, conn_key(), conn_val(), i as int);
                }
                self.conns.remove(i);
            },
            None => {
                proof {
                    assert(self.conns() =~= self.conns().remove(conn_id));
                }
            },
        }
    }

    fn conns_insert(&mut self, conn_id: ConnId, key: TransferKey)
        requires
            old(self).wf(),
        ensures
            final(self).wf(),
            final(self).conns() == old(self).conns().insert(conn_id, key_view(key)),
            final(self).entries == old(self).entries,
            final(self).ids == old(self).ids,
            final(self).tokens == old(self).tokens,
    {
        match self.conn_index(conn_id) {
            Some(i) => {
                proof {
                    lemma_as_map_update(self.conns@, conn_key(), conn_val(), i as int, (conn_id, key));
                }
                self.conns.set(i, (conn_id, key));
            },
            None => {
                proof {
                    lemma_as_map_push(self.conns@, conn_key(), conn_val(), (conn_id, key));
                }
                self.conns.push((conn_id, key));
            },
        }
    }

    // -----------------------------------------------------------------
    // Operations
    // -----------------------------------------------------------------

    /// Adds or replaces the transfer under `key`: a replaced transfer's
    /// id, token and connection are forgotten; the new one has none but
    /// its id.
    pub fn insert(&mut self, id: TransferId, key: TransferKey, transfer: T)
        requires
            old(self).wf(),
        ensures
            final(self).wf(),
            final(self).entries() == old(self).entries().insert(
                key_view(key),
                (id, None, None, transfer),
            ),
            final(self).ids() == (match old(self).entries().get(key_view(key)) {
                Some(e) => old(self).ids().remove(e.0),
                None => old(self).ids(),
            }).insert(id, key_view(key)),
            final(self).tokens() == match old(self).entries().get(key_view(key)) {
                Some(e) => match e.1 {
                    Some(t) => old(self).tokens().remove((key.0@, t)),
                    None => old(self).tokens(),
                },
                None => old(self).tokens(),
            },
            final(self).conns() == match old(self).entries().get(key_view(key)) {
                Some(e) => match e.2 {
                    Some(c) => old(self).conns().remove(c),
                    None => old(self).conns(),
                },
                None => old(self).conns(),
            },
            old(self).consistent() && (old(self).ids().contains_key(id) ==> old(self).ids()[id]
                == key_view(key)) ==> final(self).consistent(),
            (final(self).entries(), final(self).ids(), final(self).tokens(), final(self).conns())
                == tables_after_insert(old(self).entries(), old(self).ids(), old(self).tokens(), old(self).conns(), key_view(key), id, transfer),
    {
        let ghost kv = key_view(key);
        let ghost tr = transfer;
        proof {
            if old(self).consistent() && (old(self).ids().contains_key(id) ==> old(self).ids()[id]
                == kv) {
                lemma_insert_consistent(
                    old(self).entries(),
                    old(self).ids(),
                    old(self).tokens(),
                    old(self).conns(),
                    kv,
                    id,
                    tr,
                );
            }
        }
        let found = self.entry_index(&key);
        if let Some(i) = found {
            proof {
                lemma_as_map_at(self.entries@, entry_key(), entry_val(), i as int);
            }
            let previous_token = self.entries[i].1.token;
            let previous_conn = self.entries[i].1.conn_id;
            let previous_id = self.entries[i].1.id;
            if let Some(token) = previous_token {
                self.tokens_remove(key.0.as_str(), token);
            }
            if let Some(conn_id) = previous_conn {
                self.conns_remove(conn_id);
            }
            self.ids_remove(previous_id);
        }
        let key_copy = (key.0.clone(), key.1.clone());
        self.ids_insert(id, key_copy);
        let entry = Entry { id, token: None, conn_id: None, transfer };
        match found {
            Some(i) => {
                proof {
                    lemma_as_map_update(self.entries@, entry_key(), entry_val(), i as int, (key, entry));
                }
                self.entries.set(i, (key, entry));
            },
            None => {
                proof {
                    lemma_as_map_push(self.entries@, entry_key(), entry_val(), (key, entry));
                }
                self.entries.push((key, entry));
            },
        }
    }

    pub fn get(&self, key: &TransferKey) -> (r: Option<&T>)
        requires
            self.wf(),
        ensures
            match self.entries().get(key_view(*key)) {
                Some(e) => r == Some(&e.3),
                None => r is None,
            },
    {
        match self.entry_index(key) {
            Some(i) => {
                proof {
                    lemma_as_map_at(self.entries@, entry_key(), entry_val(), i as int);
                }
                Some(&self.entries[i].1.transfer)
            },
            None => None,
        }
    }

    /// The transfer under `key`, to be changed in place.
    pub fn get_mut(&mut self, key: &TransferKey) -> (r: Option<&mut T>)
        requires
            old(self).wf(),
        ensures
            final(self).wf(),
            match old(self).entries().get(key_view(*key)) {
                Some(e) => r matches Some(t) && *t == e.3 && final(self).entries() == old(self).entries().insert(key_view(*key), (e.0, e.1, e.2, *final(t))),
                None => r is None && final(self).entries() == old(self).entries(),
            },
            final(self).ids() == old(self).ids(),
            final(self).tokens() == old(self).tokens(),
            final(self).conns() == old(self).conns(),
            old(self).consistent() ==> final(self).consistent(),
    {
        match self.entry_index(key) {
            Some(i) => {
                proof {
                    lemma_as_map_at(self.entries@, entry_key(), entry_val(), i as int);
                    lemma_as_map_update_any(self.entries@, entry_key(), entry_val(), i as int);
                    if old(self).consistent() {
                        assert forall|t: T| tables_consistent(
                            #[trigger] old(self).entries().insert(
                                key_view(*key),
                                (
                                    old(self).entries()[key_view(*key)].0,
                                    old(self).entries()[key_view(*key)].1,
                                    old(self).entries()[key_view(*key)].2,
                                    t,
                                ),
                            ),
                            old(self).ids(),
                            old(self).tokens(),
                            old(self).conns(),
                        ) by {
                            lemma_change_consistent(
                                old(self).entries(),
                                old(self).ids(),
                                old(self).tokens(),
                                old(self).conns(),
                                key_view(*key),
                                t,
                            );
                        }
                    }
                }
                let entry = &mut self.entries[i];
                Some(&mut entry.1.transfer)
            },
            None => None,
        }
    }

    /// The key of the transfer with this id.
    pub fn key_of(&self, id: TransferId) -> (r: Option<&TransferKey>)
        requires
            self.wf(),
        ensures
            match self.ids().get(id) {
                Some(k) => r matches Some(x) && key_view(*x) == k,
                None => r is None,
            },
    {
        match self.id_index(id) {
            Some(i) => {
                proof {
                    lemma_as_map_at(self.ids@, id_key(), id_val(), i as int);
                }
                Some(&self.ids[i].1)
            },
            None => None,
        }
    }

    /// The key of the transfer a user's token belongs to.
    pub fn key_by_token(&self, username: &str, token: u32) -> (r: Option<&TransferKey>)
        requires
            self.wf(),
        ensures
            match self.tokens().get((username@, token)) {
                Some(k) => r matches Some(x) && key_view(*x) == k,
                None => r is None,
            },
    {
        match self.token_index(username, token) {
            Some(i) => {
                proof {
                    lemma_as_map_at(self.tokens@, token_key(), token_val(), i as int);
                }
                Some(&self.tokens[i].1)
            },
            None => None,
        }
    }

    /// The key of the transfer on a connection.
    pub fn key_by_conn(&self, conn_id: ConnId) -> (r: Option<&TransferKey>)
        requires
            self.wf(),
        ensures
            match self.conns().get(conn_id) {
                Some(k) => r matches Some(x) && key_view(*x) == k,
                None => r is None,
            },
    {
        match self.conn_index(conn_id) {
            Some(i) => {
                proof {
                    lemma_as_map_at(self.conns@, conn_key(), conn_val(), i as int);
                }
                Some(&self.conns[i].1)
            },
            None => None,
        }
    }

    pub fn owns_token(&self, username: &str, token: u32) -> (b: bool)
        requires
            self.wf(),
        ensures
            b == self.tokens().contains_key((username@, token)),
    {
        match self.token_index(username, token) {
            Some(i) => {
                proof {
                    lemma_as_map_at(self.tokens@, token_key(), token_val(), i as int);
                }
                true
            },
            None => false,
        }
    }

    /// Number of tokens held by transfers.
    pub fn token_count(&self) -> (n: usize)
        requires
            self.wf(),
        ensures
            n == self.tokens().dom().len(),
    {
        proof {
            let s = self.tokens@;
            let keys = s.map_values(token_key());
            assert(keys.no_duplicates()) by {
                assert forall|i: int, j: int| 0 <= i < keys.len() && 0 <= j < keys.len() && i != j
                    implies keys[i] != keys[j] by {
                    assert(keys[i] == token_key()(s[i]));
                    assert(keys[j] == token_key()(s[j]));
                }
            }
            keys.unique_seq_to_set();
            assert forall|k: (Seq<char>, u32)| self.tokens().dom().contains(k) == keys.to_set().contains(k) by {
                if self.tokens().dom().contains(k) {
                    let i = choose|i: int| 0 <= i < s.len() && token_key()(s[i]) == k;
                    assert(keys[i] == k);
                }
                if keys.to_set().contains(k) {
                    let i = choose|i: int| 0 <= i < keys.len() && keys[i] == k;
                    assert(token_key()(s[i]) == k);
                }
            }
            assert(self.tokens().dom() =~= keys.to_set());
        }
        self.tokens.len()
    }

    /// The connection of the transfer under `key`, if it has one.
    pub fn conn_of(&self, key: &TransferKey) -> (r: Option<ConnId>)
        requires
            self.wf(),
        ensures
            r == match self.entries().get(key_view(*key)) {
                Some(e) => e.2,
                None => None,
            },
    {
        match self.entry_index(key) {
            Some(i) => {
                proof {
                    lemma_as_map_at(self.entries@, entry_key(), entry_val(), i as int);
                }
                self.entries[i].1.conn_id
            },
            None => None,
        }
    }

    /// Gives a transfer the token of a new attempt; a previous token is
    /// forgotten.
    pub fn attach_token(&mut self, key: &TransferKey, token: u32)
        requires
            old(self).wf(),
            old(self).entries().contains_key(key_view(*key)),
        ensures
            final(self).wf(),
            final(self).entries() == old(self).entries().insert(
                key_view(*key),
                (
                    old(self).entries()[key_view(*key)].0,
                    Some(token),
                    old(self).entries()[key_view(*key)].2,
                    old(self).entries()[key_view(*key)].3,
                ),
            ),
            final(self).tokens() == (match old(self).entries()[key_view(*key)].1 {
                Some(p) => old(self).tokens().remove((key.0@, p)),
                None => old(self).tokens(),
            }).insert((key.0@, token), key_view(*key)),
            final(self).ids() == old(self).ids(),
            final(self).conns() == old(self).conns(),
            old(self).consistent() && (old(self).tokens().contains_key((key.0@, token)) ==> old(self).tokens()[(key.0@, token)] == key_view(*key)) ==> final(self).consistent(),
    {
        proof {
            if old(self).consistent() && (old(self).tokens().contains_key((key.0@, token)) ==> old(self).tokens()[(key.0@, token)] == key_view(*key)) {
                lemma_attach_token_consistent(
                    old(self).entries(),
                    old(self).ids(),
                    old(self).tokens(),
                    old(self).conns(),
                    key_view(*key),
                    token,
                );
            }
        }
        let i = self.entry_index(key).unwrap();
        proof {
            lemma_as_map_at(self.entries@, entry_key(), entry_val(), i as int);
        }
        let previous = self.entries[i].1.token;
        if let Some(p) = previous {
            self.tokens_remove(key.0.as_str(), p);
        }
        let ghost before = self.entries@;
        self.entries[i].1.token = Some(token);
        proof {
            lemma_as_map_update(before, entry_key(), entry_val(), i as int, self.entries@[i as int]);
            assert(self.entries@ == before.update(i as int, self.entries@[i as int]));
        }
        self.tokens_insert(key.0.clone(), token, (key.0.clone(), key.1.clone()));
    }

    /// Gives a transfer its file connection; a previous one is forgotten.
    pub fn attach_conn(&mut self, key: &TransferKey, conn_id: ConnId)
        requires
            old(self).wf(),
            old(self).entries().contains_key(key_view(*key)),
        ensures
            final(self).wf(),
            final(self).entries() == old(self).entries().insert(
                key_view(*key),
                (
                    old(self).entries()[key_view(*key)].0,
                    old(self).entries()[key_view(*key)].1,
                    Some(conn_id),
                    old(self).entries()[key_view(*key)].3,
                ),
            ),
            final(self).conns() == (match old(self).entries()[key_view(*key)].2 {
                Some(p) => old(self).conns().remove(p),
                None => old(self).conns(),
            }).insert(conn_id, key_view(*key)),
            final(self).ids() == old(self).ids(),
            final(self).tokens() == old(self).tokens(),
            old(self).consistent() && (old(self).conns().contains_key(conn_id) ==> old(self).conns()[conn_id] == key_view(*key)) ==> final(self).consistent(),
    {
        proof {
            if old(self).consistent() && (old(self).conns().contains_key(conn_id) ==> old(self).conns()[conn_id] == key_view(*key)) {
                lemma_attach_conn_consistent(
                    old(self).entries(),
                    old(self).ids(),
                    old(self).tokens(),
                    old(self).conns(),
                    key_view(*key),
                    conn_id,
                );
            }
        }
        let i = self.entry_index(key).unwrap();
        proof {
            lemma_as_map_at(self.entries@, entry_key(), entry_val(), i as int);
        }
        let previous = self.entries[i].1.conn_id;
        if let Some(p) = previous {
            self.conns_remove(p);
        }
        let ghost before = self.entries@;
        self.entries[i].1.conn_id = Some(conn_id);
        proof {
            lemma_as_map_update(before, entry_key(), entry_val(), i as int, self.entries@[i as int]);
            assert(self.entries@ == before.update(i as int, self.entries@[i as int]));
        }
        self.conns_insert(conn_id, (key.0.clone(), key.1.clone()));
    }

    /// Takes the token away from a transfer, returning it.
    pub fn detach_token(&mut self, key: &TransferKey) -> (r: Option<u32>)
        requires
            old(self).wf(),
        ensures
            final(self).wf(),
            r == match old(self).entries().get(key_view(*key)) {
                Some(e) => e.1,
                None => None,
            },
            match r {
                Some(t) => final(self).entries() == old(self).entries().insert(
                    key_view(*key),
                    (
                        old(self).entries()[key_view(*key)].0,
                        None,
                        old(self).entries()[key_view(*key)].2,
                        old(self).entries()[key_view(*key)].3,
                    ),
                ) && final(self).tokens() == old(self).tokens().remove((key.0@, t)),
                None => final(self).entries() == old(self).entries() && final(self).tokens()
                    == old(self).tokens(),
            },
            final(self).ids() == old(self).ids(),
            final(self).conns() == old(self).conns(),
            old(self).consistent() ==> final(self).consistent(),
    {
        proof {
            if old(self).consistent() && old(self).entries().contains_key(key_view(*key)) {
                lemma_detach_consistent(
                    old(self).entries(),
                    old(self).ids(),
                    old(self).tokens(),
                    old(self).conns(),
                    key_view(*key),
                    true,
                    false,
                );
            }
        }
        let i = match self.entry_index(key) {
            Some(i) => i,
            None => return None,
        };
        proof {
            lemma_as_map_at(self.entries@, entry_key(), entry_val(), i as int);
        }
        let token = match self.entries[i].1.token {
            Some(t) => t,
            None => return None,
        };
        let ghost before = self.entries@;
        self.entries[i].1.token = None;
        proof {
            lemma_as_map_update(before, entry_key(), entry_val(), i as int, self.entries@[i as int]);
            assert(self.entries@ == before.update(i as int, self.entries@[i as int]));
        }
        self.tokens_remove(key.0.as_str(), token);
        Some(token)
    }

    /// Takes the connection away from a transfer, returning it.
    pub fn detach_conn(&mut self, key: &TransferKey) -> (r: Option<ConnId>)
        requires
            old(self).wf(),
        ensures
            final(self).wf(),
            r == match old(self).entries().get(key_view(*key)) {
                Some(e) => e.2,
                None => None,
            },
            match r {
                Some(c) => final(self).entries() == old(self).entries().insert(
                    key_view(*key),
                    (
                        old(self).entries()[key_view(*key)].0,
                        old(self).entries()[key_view(*key)].1,
                        None,
                        old(self).entries()[key_view(*key)].3,
                    ),
                ) && final(self).conns() == old(self).conns().remove(c),
                None => final(self).entries() == old(self).entries() && final(self).conns()
                    == old(self).conns(),
            },
            final(self).ids() == old(self).ids(),
            final(self).tokens() == old(self).tokens(),
            old(self).consistent() ==> final(self).consistent(),
    {
        proof {
            if old(self).consistent() && old(self).entries().contains_key(key_view(*key)) {
                lemma_detach_consistent(
                    old(self).entries(),
                    old(self).ids(),
                    old(self).tokens(),
                    old(self).conns(),
                    key_view(*key),
                    false,
                    true,
                );
            }
        }
        let i = match self.entry_index(key) {
            Some(i) => i,
            None => return None,
        };
        proof {
            lemma_as_map_at(self.entries@, entry_key(), entry_val(), i as int);
        }
        let conn_id = match self.entries[i].1.conn_id {
            Some(c) => c,
            None => return None,
        };
        let ghost before = self.entries@;
        self.entries[i].1.conn_id = None;
        proof {
            lemma_as_map_update(before, entry_key(), entry_val(), i as int, self.entries@[i as int]);
            assert(self.entries@ == before.update(i as int, self.entries@[i as int]));
        }
        self.conns_remove(conn_id);
        Some(conn_id)
    }

    /// Takes the token and the connection away from a transfer.
    pub fn detach(&mut self, key: &TransferKey) -> (d: Detached)
        requires
            old(self).wf(),
        ensures
            final(self).wf(),
            d.token == match old(self).entries().get(key_view(*key)) {
                Some(e) => e.1,
                None => None,
            },
            d.conn_id == match old(self).entries().get(key_view(*key)) {
                Some(e) => e.2,
                None => None,
            },
            final(self).entries() == match old(self).entries().get(key_view(*key)) {
                Some(e) => old(self).entries().insert(key_view(*key), (e.0, None, None, e.3)),
                None => old(self).entries(),
            },
            final(self).tokens() == match d.token {
                Some(t) => old(self).tokens().remove((key.0@, t)),
                None => old(self).tokens(),
            },
            final(self).conns() == match d.conn_id {
                Some(c) => old(self).conns().remove(c),
                None => old(self).conns(),
            },
            final(self).ids() == old(self).ids(),
            old(self).consistent() ==> final(self).consistent(),
    {
        proof {
            if old(self).consistent() && old(self).entries().contains_key(key_view(*key)) {
                lemma_detach_consistent(
                    old(self).entries(),
                    old(self).ids(),
                    old(self).tokens(),
                    old(self).conns(),
                    key_view(*key),
                    true,
                    true,
                );
            }
        }
        let token = self.detach_token(key);
        let conn_id = self.detach_conn(key);
        proof {
            let kv = key_view(*key);
            if old(self).entries().contains_key(kv) {
                let e = old(self).entries()[kv];
                assert(final(self).entries() =~= old(self).entries().insert(kv, (e.0, None, None, e.3)));
            }
        }
        Detached { token, conn_id }
    }

    /// Removes the transfer with this id, returning its key and what it
    /// was attached to.
    pub fn remove(&mut self, id: TransferId) -> (r: Option<(TransferKey, Detached)>)
        requires
            old(self).wf(),
        ensures
            final(self).wf(),
            match old(self).ids().get(id) {
                None => {
                    &&& r is None
                    &&& final(self).entries() == old(self).entries()
                    &&& final(self).ids() == old(self).ids()
                    &&& final(self).tokens() == old(self).tokens()
                    &&& final(self).conns() == old(self).conns()
                },
                Some(k) => r matches Some(x) && key_view(x.0) == k && x.1.token == (match old(self).entries().get(k) {
                    Some(e) => e.1,
                    None => None,
                }) && x.1.conn_id == (match old(self).entries().get(k) {
                    Some(e) => e.2,
                    None => None,
                }) && final(self).entries() == old(self).entries().remove(k) && final(self).ids()
                    == old(self).ids().remove(id) && final(self).tokens() == (match x.1.token {
                    Some(t) => old(self).tokens().remove((k.0, t)),
                    None => old(self).tokens(),
                }) && final(self).conns() == (match x.1.conn_id {
                    Some(c) => old(self).conns().remove(c),
                    None => old(self).conns(),
                }),
            },
            old(self).consistent() ==> final(self).consistent(),
    {
        proof {
            if old(self).consistent() && old(self).ids().contains_key(id) {
                let e = old(self).entries();
                let k = old(self).ids()[id];
                lemma_detach_consistent(
                    e,
                    old(self).ids(),
                    old(self).tokens(),
                    old(self).conns(),
                    k,
                    true,
                    true,
                );
                let e1 = e.insert(k, (e[k].0, None, None, e[k].3));
                let t1 = match e[k].1 {
                    Some(t) => old(self).tokens().remove((k.0, t)),
                    None => old(self).tokens(),
                };
                let c1 = match e[k].2 {
                    Some(c) => old(self).conns().remove(c),
                    None => old(self).conns(),
                };
                lemma_remove_consistent(e1, old(self).ids(), t1, c1, id);
                assert(e1.remove(k) =~= e.remove(k));
            }
        }
        let i = match self.id_index(id) {
            Some(i) => i,
            None => return None,
        };
        proof {
            lemma_as_map_at(self.ids@, id_key(), id_val(), i as int);
            lemma_as_map_remove(self.ids@, id_key(), id_val(), i as int);
        }
        let (_, key) = self.ids.remove(i);
        let detached = self.detach(&key);
        match self.entry_index(&key) {
            Some(j) => {
                proof {
                    lemma_as_map_remove(self.entries@, entry_key(), entry_val(), j as int);
                    let kv = key_view(key);
                    assert(old(self).entries().remove(kv) =~= self.entries().remove(kv));
                }
                self.entries.remove(j);
            },
            None => {
                proof {
                    assert(self.entries() =~= self.entries().remove(key_view(key)));
                    assert(old(self).entries() =~= self.entries());
                }
            },
        }
        Some((key, detached))
    }

    /// Number of transfers.
    pub fn len(&self) -> (n: usize)
        requires
            self.wf(),
        ensures
            n == self.entries().dom().len(),
    {
        proof {
            self.lemma_entries_listed();
        }
        self.entries.len()
    }

    /// The key of every transfer, each once.
    pub fn keys(&self) -> (v: Vec<TransferKey>)
        requires
            self.wf(),
        ensures
            v@.len() == self.entries().dom().len(),
            forall|i: int|
                0 <= i < v@.len() ==> self.entries().contains_key(key_view(#[trigger] v@[i])),
            forall|i: int, j: int|
                0 <= i < v@.len() && 0 <= j < v@.len() && key_view(#[trigger] v@[i]) == key_view(
                    #[trigger] v@[j],
                ) ==> i == j,
            forall|k: KeyView| #[trigger]
                self.entries().contains_key(k) ==> exists|i: int|
                    0 <= i < v@.len() && key_view(#[trigger] v@[i]) == k,
    {
        proof {
            self.lemma_entries_listed();
        }
        let mut v: Vec<TransferKey> = Vec::new();
        let mut i: usize = 0;
        while i < self.entries.len()
            invariant
                self.wf(),
                i <= self.entries@.len(),
                v@.len() == i,
                forall|j: int| 0 <= j < i ==> key_view(#[trigger] v@[j]) == self.key_at(j),
            decreases self.entries@.len() - i,
        {
            let k = (self.entries[i].0.0.clone(), self.entries[i].0.1.clone());
            v.push(k);
            i = i + 1;
        }
        proof {
            assert forall|k: KeyView| #[trigger] self.entries().contains_key(k) implies exists|j: int|
                0 <= j < v@.len() && key_view(#[trigger] v@[j]) == k by {
                let j = choose|j: int| 0 <= j < self.entries@.len() && #[trigger] self.key_at(j) == k;
                assert(key_view(v@[j]) == k);
            }
        }
        v
    }

    /// The key of the transfer listed at `i`.
    pub closed spec fn key_at(&self, i: int) -> KeyView {
        key_view(self.entries@[i].0)
    }

    /// Each transfer is listed once, and only transfers are.
    proof fn lemma_entries_listed(&self)
        requires
            self.wf(),
        ensures
            self.entries().dom().len() == self.entries@.len(),
            forall|i: int|
                0 <= i < self.entries@.len() ==> #[trigger] self.entries().contains_key(
                    self.key_at(i),
                ) && self.entries()[self.key_at(i)] == entry_val::<T>()(self.entries@[i]),
            forall|i: int, j: int|
                0 <= i < self.entries@.len() && 0 <= j < self.entries@.len() && #[trigger] self.key_at(
                    i,
                ) == #[trigger] self.key_at(j) ==> i == j,
            forall|k: KeyView| #[trigger]
                self.entries().contains_key(k) ==> exists|i: int|
                    0 <= i < self.entries@.len() && #[trigger] self.key_at(i) == k,
    {
        let s = self.entries@;
        let keys = s.map_values(entry_key::<T>());
        assert(keys.no_duplicates()) by {
            assert forall|a: int, b: int| 0 <= a < keys.len() && 0 <= b < keys.len() && a != b
                implies keys[a] != keys[b] by {
                assert(keys[a] == entry_key::<T>()(s[a]));
                assert(keys[b] == entry_key::<T>()(s[b]));
            }
        }
        keys.unique_seq_to_set();
        assert forall|k: KeyView| self.entries().dom().contains(k) == keys.to_set().contains(k) by {
            if self.entries().dom().contains(k) {
                let j = choose|j: int| 0 <= j < s.len() && entry_key::<T>()(s[j]) == k;
                assert(keys[j] == k);
            }
            if keys.to_set().contains(k) {
                let j = choose|j: int| 0 <= j < keys.len() && keys[j] == k;
                assert(entry_key::<T>()(s[j]) == k);
            }
        }
        assert(self.entries().dom() =~= keys.to_set());
        assert forall|i: int| 0 <= i < s.len() implies #[trigger] self.entries().contains_key(
            self.key_at(i),
        ) && self.entries()[self.key_at(i)] == entry_val::<T>()(s[i]) by {
            lemma_as_map_at(s, entry_key::<T>(), entry_val::<T>(), i);
            assert(entry_key::<T>()(s[i]) == self.key_at(i));
        }
        assert forall|a: int, b: int|
            0 <= a < s.len() && 0 <= b < s.len() && #[trigger] self.key_at(a) == #[trigger] self.key_at(
                b,
            ) implies a == b by {
            assert(entry_key::<T>()(s[a]) == self.key_at(a));
            assert(entry_key::<T>()(s[b]) == self.key_at(b));
        }
        assert forall|k: KeyView| #[trigger] self.entries().contains_key(k) implies exists|i: int|
            0 <= i < s.len() && #[trigger] self.key_at(i) == k by {
            let j = choose|j: int| 0 <= j < s.len() && entry_key::<T>()(s[j]) == k;
            assert(self.key_at(j) == k);
        }
    }

    /// Every transfer, in no particular order: the one at `i` is the
    /// transfer under `key_at(i)`, and each key is listed once.
    pub fn values(&self) -> (v: Vec<&T>)
        requires
            self.wf(),
        ensures
            v@.len() == self.entries().dom().len(),
            forall|i: int|
                0 <= i < v@.len() ==> self.entries().contains_key(self.key_at(i)) && *v@[i]
                    == self.entries()[self.key_at(i)].3,
            forall|i: int, j: int|
                0 <= i < v@.len() && 0 <= j < v@.len() && #[trigger] self.key_at(i)
                    == #[trigger] self.key_at(j) ==> i == j,
            forall|k: KeyView| #[trigger]
                self.entries().contains_key(k) ==> exists|i: int|
                    0 <= i < v@.len() && #[trigger] self.key_at(i) == k,
    {
        let mut v: Vec<&T> = Vec::new();
        let mut i: usize = 0;
        while i < self.entries.len()
            invariant
                self.wf(),
                i <= self.entries@.len(),
                v@.len() == i,
                forall|j: int| 0 <= j < i ==> *v@[j] == self.entries@[j].1.transfer,
            decreases self.entries@.len() - i,
        {
            v.push(&self.entries[i].1.transfer);
            i = i + 1;
        }
        proof {
            self.lemma_entries_listed();
            assert forall|j: int| 0 <= j < v@.len() implies self.entries().contains_key(
                self.key_at(j),
            ) && *v@[j] == self.entries()[self.key_at(j)].3 by {
                assert(self.entries()[self.key_at(j)] == entry_val::<T>()(self.entries@[j]));
            }
        }
        v
    }
}

} // verus!
