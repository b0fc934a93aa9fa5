//! Responses that carry lists: room users, recommendations, room lists,
//! parent candidates, similar users, tickers and related searches.
use vstd::prelude::*;

use super::super::fields::Field;
use super::super::wire::{
    sp_i32, sp_string, sp_text_list, sp_texts_from, sp_u32, strings_view, Decoded,
    MessageReader, ProtocolError,
};
use super::records::{read_user_stats, sp_stats};
use super::{
    counted_field, counts_view, fails_as, parents_view, rated_field, recs_view, server_result,
    similar_view, stats_field, step, tickers_view, user_field, user_fields, Failure, ParentCandidate,
    ServerResponse, Step,
};
use crate::text::text_eq;
use crate::types::{Recommendations, SimilarUser, UserData, UserStats};

verus! {

broadcast use vstd::seq::group_seq_axioms;

// ---------------------------------------------------------------------
// Users of a room
// ---------------------------------------------------------------------

/// The columns that follow the names in a user list, in order.
#[derive(Clone, Copy)]
pub enum Column {
    Status,
    Stats,
    Slots,
    Country,
}

/// Where a column's value stands in a user record.
pub open spec fn column_index(c: Column) -> int {
    match c {
        Column::Status => 1,
        Column::Stats => 2,
        Column::Slots => 3,
        Column::Country => 4,
    }
}

/// One value of a column.
pub open spec fn sp_column_value(c: Column, data: Seq<u8>, pos: int) -> Decoded<Field> {
    match c {
        Column::Stats => sp_stats(data, pos),
        Column::Country => match sp_string(data, pos) {
            Ok((s, q)) => Ok((Field::Text(s), q)),
            Err(e) => Err(e),
        },
        _ => match sp_u32(data, pos) {
            Ok((n, q)) => Ok((Field::U32(n), q)),
            Err(e) => Err(e),
        },
    }
}

/// The record with its value at `k` replaced.
pub open spec fn set_field(r: Field, k: int, v: Field) -> Field {
    match r {
        Field::Record(fs) => Field::Record(fs.update(k, v)),
        _ => r,
    }
}

/// Reads the values `i..len` of a column: each value is read, then given
/// to the user at its index, which must exist.
pub open spec fn sp_column_from(
    data: Seq<u8>,
    pos: int,
    i: nat,
    len: nat,
    users: Seq<Field>,
    c: Column,
) -> Step<Seq<Field>>
    decreases len - i,
{
    if i >= len {
        Ok((users, pos))
    } else {
        match step(sp_column_value(c, data, pos)) {
            Err(f) => Err(f),
            Ok((v, q)) => if i >= users.len() {
                Err(Failure::UserIndex(i as u64))
            } else {
                sp_column_from(
                    data,
                    q,
                    i + 1,
                    len,
                    users.update(i as int, set_field(users[i as int], column_index(c), v)),
                    c,
                )
            },
        }
    }
}

/// A column: its length, then its values.
pub open spec fn sp_column(data: Seq<u8>, pos: int, users: Seq<Field>, c: Column) -> Step<
    Seq<Field>,
> {
    match step(sp_u32(data, pos)) {
        Err(f) => Err(f),
        Ok((len, q)) => sp_column_from(data, q, 0, len as nat, users, c),
    }
}

/// A listed user before the columns are read.
pub open spec fn new_user_field(name: Seq<char>) -> Field {
    Field::Record(
        seq![
            Field::Text(name),
            Field::U32(0),
            Field::Record(
                seq![Field::U32(0), Field::U32(0), Field::U32(0), Field::U32(0), Field::U32(0)],
            ),
            Field::U32(0),
            Field::Absent,
        ],
    )
}

/// A user list: the names, then the columns of status, statistics, full
/// slots and country.
pub open spec fn sp_users(data: Seq<u8>, pos: int) -> Step<Seq<Field>> {
    match step(sp_text_list(data, pos)) {
        Err(f) => Err(f),
        Ok((names, p1)) => match sp_column(
            data,
            p1,
            names.map_values(|n: Seq<char>| new_user_field(n)),
            Column::Status,
        ) {
            Err(f) => Err(f),
            Ok((u2, p2)) => match sp_column(data, p2, u2, Column::Stats) {
                Err(f) => Err(f),
                Ok((u3, p3)) => match sp_column(data, p3, u3, Column::Slots) {
                    Err(f) => Err(f),
                    Ok((u4, p4)) => sp_column(data, p4, u4, Column::Country),
                },
            },
        },
    }
}

fn read_user_names(r: &mut MessageReader) -> (res: Result<Vec<UserData>, ProtocolError>)
    requires
        old(r).wf(),
    ensures
        final(r).wf(),
        final(r).data() == old(r).data(),
        match sp_text_list(old(r).data(), old(r).pos()) {
            Ok((names, q)) => (res matches Ok(users) && user_fields(users@) == names.map_values(
                |n: Seq<char>| new_user_field(n),
            )) && final(r).pos() == q,
            Err((e, _)) => res == Err::<Vec<UserData>, ProtocolError>(e),
        },
{
    proof {
        reveal(super::super::wire::sp_u32);
    }
    let num = r.read_u32()?;
    let ghost start = r.pos();
    let mut users: Vec<UserData> = Vec::new();
    let mut i: u32 = 0;
    proof {
        assert(users@.map_values(|u: UserData| u.username@) =~= Seq::<Seq<char>>::empty());
    }
    while i < num
        invariant
            r.wf(),
            r.data() == old(r).data(),
            i <= num,
            users@.len() == i,
            sp_text_list(old(r).data(), old(r).pos()) == sp_texts_from(
                r.data(),
                r.pos(),
                (num - i) as nat,
                users@.map_values(|u: UserData| u.username@),
            ),
            forall|j: int|
                0 <= j < users@.len() ==> #[trigger] user_field(users@[j]) == new_user_field(
                    users@[j].username@,
                ),
        decreases num - i,
    {
        let ghost before = users@;
        let username = r.read_string()?;
        let user = UserData {
            username,
            status: 0,
            stats: UserStats { avgspeed: 0, uploadnum: 0, unknown: 0, files: 0, dirs: 0 },
            slotsfull: 0,
            country: None,
        };
        proof {
            assert(user_field(user) =~= new_user_field(user.username@));
        }
        users.push(user);
        proof {
            assert(users@.map_values(|u: UserData| u.username@) =~= before.map_values(
                |u: UserData| u.username@,
            ).push(user.username@));
            assert forall|j: int| 0 <= j < users@.len() implies #[trigger] user_field(users@[j])
                == new_user_field(users@[j].username@) by {
                if j < before.len() {
                    assert(users@[j] == before[j]);
                }
            }
        }
        i = i + 1;
    }
    proof {
        let names = users@.map_values(|u: UserData| u.username@);
        assert(user_fields(users@) =~= names.map_values(|n: Seq<char>| new_user_field(n)));
    }
    Ok(users)
}

/// Reads a column into the users.
fn read_column(r: &mut MessageReader, users: &mut Vec<UserData>, c: Column) -> (res: Result<
    (),
    ProtocolError,
>)
    requires
        old(r).wf(),
    ensures
        final(r).wf(),
        final(r).data() == old(r).data(),
        match sp_column(old(r).data(), old(r).pos(), user_fields(old(users)@), c) {
            Ok((fs, q)) => res is Ok && user_fields(final(users)@) == fs && final(r).pos() == q,
            Err(f) => res matches Err(e) && fails_as(e, f),
        },
{
    proof {
        reveal_strlit("user_index");
    }
    let len = r.read_u32()?;
    let mut i: u32 = 0;
    while i < len
        invariant
            r.wf(),
            r.data() == old(r).data(),
            i <= len,
            sp_column(old(r).data(), old(r).pos(), user_fields(old(users)@), c) == sp_column_from(
                r.data(),
                r.pos(),
                i as nat,
                len as nat,
                user_fields(users@),
                c,
            ),
        decreases len - i,
    {
        let ghost before = users@;
        let idx = i as usize;
        match c {
            Column::Status => {
                let v = r.read_u32()?;
                if idx >= users.len() {
                    return Err(ProtocolError::InvalidValue { field: "user_index", value: i as u64 });
                }
                users[idx].status = v;
            },
            Column::Stats => {
                let v = read_user_stats(r)?;
                if idx >= users.len() {
                    return Err(ProtocolError::InvalidValue { field: "user_index", value: i as u64 });
                }
                users[idx].stats = v;
            },
            Column::Slots => {
                let v = r.read_u32()?;
                if idx >= users.len() {
                    return Err(ProtocolError::InvalidValue { field: "user_index", value: i as u64 });
                }
                users[idx].slotsfull = v;
            },
            Column::Country => {
                let v = r.read_string()?;
                if idx >= users.len() {
                    return Err(ProtocolError::InvalidValue { field: "user_index", value: i as u64 });
                }
                users[idx].country = Some(v);
            },
        }
        proof {
            let old_fs = user_fields(before);
            let k = column_index(c);
            let a = user_field(before[idx as int]);
            let b = user_field(users@[idx as int]);
            let v = match c {
                Column::Status => Field::U32(users@[idx as int].status),
                Column::Stats => stats_field(users@[idx as int].stats),
                Column::Slots => Field::U32(users@[idx as int].slotsfull),
                Column::Country => Field::Text(users@[idx as int].country->Some_0@),
            };
            assert(b->Record_0 =~= a->Record_0.update(k, v));
            assert(b == set_field(a, k, v));
            assert(old_fs[idx as int] == a);
            assert(user_fields(users@) =~= old_fs.update(idx as int, b));
        }
        i = i + 1;
    }
    Ok(())
}

pub fn read_users(r: &mut MessageReader) -> (res: Result<Vec<UserData>, ProtocolError>)
    requires
        old(r).wf(),
    ensures
        final(r).wf(),
        final(r).data() == old(r).data(),
        match sp_users(old(r).data(), old(r).pos()) {
            Ok((fs, q)) => (res matches Ok(users) && user_fields(users@) == fs) && final(r).pos()
                == q,
            Err(f) => res matches Err(e) && fails_as(e, f),
        },
{
    let mut users = read_user_names(r)?;
    read_column(r, &mut users, Column::Status)?;
    read_column(r, &mut users, Column::Stats)?;
    read_column(r, &mut users, Column::Slots)?;
    read_column(r, &mut users, Column::Country)?;
    Ok(users)
}

/// The user list of the whole server.
pub open spec fn sp_user_list(data: Seq<u8>) -> Step<Seq<Field>> {
    match sp_users(data, 0) {
        Err(f) => Err(f),
        Ok((users, p)) => Ok((seq![Field::List(users)], p)),
    }
}

pub fn parse_user_list(payload: &[u8]) -> (res: Result<ServerResponse, ProtocolError>)
    ensures
        server_result(res, 67, sp_user_list(payload@)),
{
    let mut r = MessageReader::new(payload);
    let users = read_users(&mut r)?;
    Ok(ServerResponse::GlobalUserList { users })
}

/// Joining a room: its name and users; then, for a private room, the
/// owner and the operators.
pub open spec fn sp_join_room(data: Seq<u8>) -> Step<Seq<Field>> {
    match step(sp_string(data, 0)) {
        Err(f) => Err(f),
        Ok((room, p1)) => match sp_users(data, p1) {
            Err(f) => Err(f),
            Ok((users, p2)) => if p2 < data.len() {
                match step(sp_string(data, p2)) {
                    Err(f) => Err(f),
                    Ok((owner, p3)) => match step(sp_text_list(data, p3)) {
                        Err(f) => Err(f),
                        Ok((operators, p4)) => Ok(
                            (
                                seq![
                                    Field::Text(room),
                                    Field::List(users),
                                    Field::Text(owner),
                                    Field::TextList(operators),
                                ],
                                p4,
                            ),
                        ),
                    },
                }
            } else {
                Ok(
                    (
                        seq![
                            Field::Text(room),
                            Field::List(users),
                            Field::Absent,
                            Field::TextList(Seq::empty()),
                        ],
                        p2,
                    ),
                )
            },
        },
    }
}

pub fn parse_join_room(payload: &[u8]) -> (res: Result<ServerResponse, ProtocolError>)
    ensures
        server_result(res, 14, sp_join_room(payload@)),
{
    let mut r = MessageReader::new(payload);
    let room = r.read_string()?;
    let users = read_users(&mut r)?;
    let mut owner: Option<String> = None;
    let mut operators: Vec<String> = Vec::new();
    proof {
        assert(strings_view(operators@) =~= Seq::<Seq<char>>::empty());
    }
    if r.has_remaining() {
        owner = Some(r.read_string()?);
        operators = r.read_string_list()?;
    }
    Ok(ServerResponse::JoinRoom { room, users, owner, operators })
}

// ---------------------------------------------------------------------
// Recommendations
// ---------------------------------------------------------------------

/// The list with the item added at its end, unless it is there already.
pub open spec fn add_unique(list: Seq<(Seq<char>, i32)>, item: (Seq<char>, i32)) -> Seq<
    (Seq<char>, i32),
> {
    if list.contains(item) {
        list
    } else {
        list.push(item)
    }
}

/// Reads `n` rated items: those rated zero or more go to the
/// recommendations, the others to the unrecommendations.
pub open spec fn sp_rated_items(
    data: Seq<u8>,
    pos: int,
    n: nat,
    recs: Seq<(Seq<char>, i32)>,
    unrecs: Seq<(Seq<char>, i32)>,
) -> Decoded<(Seq<(Seq<char>, i32)>, Seq<(Seq<char>, i32)>)>
    decreases n,
{
    if n == 0 {
        Ok(((recs, unrecs), pos))
    } else {
        match sp_string(data, pos) {
            Err(e) => Err(e),
            Ok((key, p1)) => match sp_i32(data, p1) {
                Err(e) => Err(e),
                Ok((rating, p2)) => if rating >= 0 {
                    sp_rated_items(data, p2, (n - 1) as nat, add_unique(recs, (key, rating)), unrecs)
                } else {
                    sp_rated_items(data, p2, (n - 1) as nat, recs, add_unique(unrecs, (key, rating)))
                },
            },
        }
    }
}

/// A group of rated items: its count, then the items.
pub open spec fn sp_rated_group(
    data: Seq<u8>,
    pos: int,
    recs: Seq<(Seq<char>, i32)>,
    unrecs: Seq<(Seq<char>, i32)>,
) -> Decoded<(Seq<(Seq<char>, i32)>, Seq<(Seq<char>, i32)>)> {
    match sp_u32(data, pos) {
        Err(e) => Err(e),
        Ok((n, q)) => sp_rated_items(data, q, n as nat, recs, unrecs),
    }
}

/// Recommendations: one group, and a second one when more bytes follow.
pub open spec fn sp_recommendations(data: Seq<u8>, pos: int) -> Decoded<
    (Seq<(Seq<char>, i32)>, Seq<(Seq<char>, i32)>),
> {
    match sp_rated_group(data, pos, Seq::empty(), Seq::empty()) {
        Err(e) => Err(e),
        Ok((g, p1)) => if p1 < data.len() {
            sp_rated_group(data, p1, g.0, g.1)
        } else {
            Ok((g, p1))
        },
    }
}

pub open spec fn sp_recommendations_message(data: Seq<u8>) -> Step<Seq<Field>> {
    match step(sp_recommendations(data, 0)) {
        Err(f) => Err(f),
        Ok((g, p)) => Ok((seq![rated_field(g.0), rated_field(g.1)], p)),
    }
}

pub open spec fn sp_item_recommendations(data: Seq<u8>) -> Step<Seq<Field>> {
    match step(sp_string(data, 0)) {
        Err(f) => Err(f),
        Ok((thing, p1)) => match step(sp_recommendations(data, p1)) {
            Err(f) => Err(f),
            Ok((g, p)) => Ok((seq![Field::Text(thing), rated_field(g.0), rated_field(g.1)], p)),
        },
    }
}

/// Whether the list holds the item.
fn contains_rated(list: &Vec<(String, i32)>, key: &str, rating: i32) -> (found: bool)
    ensures
        found == recs_view(list@).contains((key@, rating)),
{
    let mut i: usize = 0;
    while i < list.len()
        invariant
            i <= list@.len(),
            forall|j: int| 0 <= j < i ==> recs_view(list@)[j] != (key@, rating),
        decreases list@.len() - i,
    {
        if list[i].1 == rating && text_eq(list[i].0.as_str(), key) {
            proof {
                assert(recs_view(list@)[i as int] == (key@, rating));
            }
            return true;
        }
        i = i + 1;
    }
    false
}

fn add_rated(list: &mut Vec<(String, i32)>, key: String, rating: i32)
    ensures
        recs_view(final(list)@) == add_unique(recs_view(old(list)@), (key@, rating)),
{
    if !contains_rated(list, key.as_str(), rating) {
        let ghost before = recs_view(list@);
        let ghost k = key@;
        list.push((key, rating));
        proof {
            assert(recs_view(list@) =~= before.push((k, rating)));
        }
    }
}

fn read_recommendation_group(
    r: &mut MessageReader,
    recommendations: &mut Recommendations,
    unrecommendations: &mut Recommendations,
) -> (res: Result<(), ProtocolError>)
    requires
        old(r).wf(),
    ensures
        final(r).wf(),
        final(r).data() == old(r).data(),
        match sp_rated_group(
            old(r).data(),
            old(r).pos(),
            recs_view(old(recommendations)@),
            recs_view(old(unrecommendations)@),
        ) {
            Ok((g, q)) => res is Ok && recs_view(final(recommendations)@) == g.0 && recs_view(
                final(unrecommendations)@,
            ) == g.1 && final(r).pos() == q,
            Err((e, _)) => res == Err::<(), ProtocolError>(e),
        },
{
    proof {
        reveal(super::super::wire::sp_u32);
    }
    let num = r.read_u32()?;
    let mut i: u32 = 0;
    while i < num
        invariant
            r.wf(),
            r.data() == old(r).data(),
            i <= num,
            sp_rated_group(
                old(r).data(),
                old(r).pos(),
                recs_view(old(recommendations)@),
                recs_view(old(unrecommendations)@),
            ) == sp_rated_items(
                r.data(),
                r.pos(),
                (num - i) as nat,
                recs_view(recommendations@),
                recs_view(unrecommendations@),
            ),
        decreases num - i,
    {
        let key = r.read_string()?;
        let rating = r.read_i32()?;
        if rating >= 0 {
            add_rated(recommendations, key, rating);
        } else {
            add_rated(unrecommendations, key, rating);
        }
        i = i + 1;
    }
    Ok(())
}

fn read_recommendations(r: &mut MessageReader) -> (res: Result<
    (Recommendations, Recommendations),
    ProtocolError,
>)
    requires
        old(r).wf(),
    ensures
        final(r).wf(),
        final(r).data() == old(r).data(),
        match sp_recommendations(old(r).data(), old(r).pos()) {
            Ok((g, q)) => (res matches Ok(x) && recs_view(x.0@) == g.0 && recs_view(x.1@) == g.1)
                && final(r).pos() == q,
            Err((e, _)) => res == Err::<(Recommendations, Recommendations), ProtocolError>(e),
        },
{
    let mut recommendations: Recommendations = Vec::new();
    let mut unrecommendations: Recommendations = Vec::new();
    proof {
        assert(recs_view(recommendations@) =~= Seq::<(Seq<char>, i32)>::empty());
        assert(recs_view(unrecommendations@) =~= Seq::<(Seq<char>, i32)>::empty());
    }
    read_recommendation_group(r, &mut recommendations, &mut unrecommendations)?;
    if r.has_remaining() {
        read_recommendation_group(r, &mut recommendations, &mut unrecommendations)?;
    }
    Ok((recommendations, unrecommendations))
}

pub fn parse_recommendations(code: u32, payload: &[u8]) -> (res: Result<
    ServerResponse,
    ProtocolError,
>)
    requires
        code == 54 || code == 56,
    ensures
        server_result(res, code, sp_recommendations_message(payload@)),
{
    let mut r = MessageReader::new(payload);
    let (recommendations, unrecommendations) = read_recommendations(&mut r)?;
    if code == 54 {
        Ok(ServerResponse::Recommendations { recommendations, unrecommendations })
    } else {
        Ok(ServerResponse::GlobalRecommendations { recommendations, unrecommendations })
    }
}

pub fn parse_item_recommendations(payload: &[u8]) -> (res: Result<ServerResponse, ProtocolError>)
    ensures
        server_result(res, 111, sp_item_recommendations(payload@)),
{
    let mut r = MessageReader::new(payload);
    let thing = r.read_string()?;
    let (recommendations, unrecommendations) = read_recommendations(&mut r)?;
    Ok(ServerResponse::ItemRecommendations { thing, recommendations, unrecommendations })
}

// ---------------------------------------------------------------------
// Room lists
// ---------------------------------------------------------------------

/// Reads the counts `i..len`: each count is read, then given to the room
/// at its index, which must exist.
pub open spec fn sp_counts_from(
    data: Seq<u8>,
    pos: int,
    i: nat,
    len: nat,
    rooms: Seq<(Seq<char>, u32)>,
) -> Step<Seq<(Seq<char>, u32)>>
    decreases len - i,
{
    if i >= len {
        Ok((rooms, pos))
    } else {
        match step(sp_u32(data, pos)) {
            Err(f) => Err(f),
            Ok((count, q)) => if i >= rooms.len() {
                Err(Failure::RoomIndex(i as u64))
            } else {
                sp_counts_from(
                    data,
                    q,
                    i + 1,
                    len,
                    rooms.update(i as int, (rooms[i as int].0, count)),
                )
            },
        }
    }
}

/// Rooms with user counts: the names, then the counts.
pub open spec fn sp_rooms(data: Seq<u8>, pos: int) -> Step<Seq<(Seq<char>, u32)>> {
    match step(sp_text_list(data, pos)) {
        Err(f) => Err(f),
        Ok((names, p1)) => match step(sp_u32(data, p1)) {
            Err(f) => Err(f),
            Ok((len, p2)) => sp_counts_from(
                data,
                p2,
                0,
                len as nat,
                names.map_values(|n: Seq<char>| (n, 0u32)),
            ),
        },
    }
}

/// The room list: public rooms, rooms owned, rooms joined, each with
/// counts, then the rooms where this user is an operator.
pub open spec fn sp_room_list(data: Seq<u8>) -> Step<Seq<Field>> {
    match sp_rooms(data, 0) {
        Err(f) => Err(f),
        Ok((rooms, p1)) => match sp_rooms(data, p1) {
            Err(f) => Err(f),
            Ok((owned, p2)) => match sp_rooms(data, p2) {
                Err(f) => Err(f),
                Ok((member, p3)) => match step(sp_text_list(data, p3)) {
                    Err(f) => Err(f),
                    Ok((operator, p4)) => Ok(
                        (
                            seq![
                                counted_field(rooms),
                                counted_field(owned),
                                counted_field(member),
                                Field::TextList(operator),
                            ],
                            p4,
                        ),
                    ),
                },
            },
        },
    }
}

fn read_rooms_with_counts(r: &mut MessageReader) -> (res: Result<
    Vec<(String, u32)>,
    ProtocolError,
>)
    requires
        old(r).wf(),
    ensures
        final(r).wf(),
        final(r).data() == old(r).data(),
        match sp_rooms(old(r).data(), old(r).pos()) {
            Ok((rooms, q)) => (res matches Ok(x) && counts_view(x@) == rooms) && final(r).pos()
                == q,
            Err(f) => res matches Err(e) && fails_as(e, f),
        },
{
    proof {
        reveal(super::super::wire::sp_u32);
        reveal_strlit("room_index");
    }
    let num = r.read_u32()?;
    let mut rooms: Vec<(String, u32)> = Vec::new();
    let mut i: u32 = 0;
    proof {
        assert(rooms@.map_values(|p: (String, u32)| p.0@) =~= Seq::<Seq<char>>::empty());
    }
    while i < num
        invariant
            r.wf(),
            r.data() == old(r).data(),
            i <= num,
            sp_text_list(old(r).data(), old(r).pos()) == sp_texts_from(
                r.data(),
                r.pos(),
                (num - i) as nat,
                rooms@.map_values(|p: (String, u32)| p.0@),
            ),
            forall|j: int| 0 <= j < rooms@.len() ==> (#[trigger] rooms@[j]).1 == 0,
        decreases num - i,
    {
        let ghost before = rooms@;
        let name = r.read_string()?;
        rooms.push((name, 0));
        proof {
            assert(rooms@.map_values(|p: (String, u32)| p.0@) =~= before.map_values(
                |p: (String, u32)| p.0@,
            ).push(rooms@.last().0@));
            assert forall|j: int| 0 <= j < rooms@.len() implies (#[trigger] rooms@[j]).1 == 0 by {
                if j < before.len() {
                    assert(rooms@[j] == before[j]);
                }
            }
        }
        i = i + 1;
    }
    proof {
        let names = rooms@.map_values(|p: (String, u32)| p.0@);
        assert(counts_view(rooms@) =~= names.map_values(|n: Seq<char>| (n, 0u32)));
    }
    let num_counts = r.read_u32()?;
    let mut k: u32 = 0;
    while k < num_counts
        invariant
            r.wf(),
            r.data() == old(r).data(),
            k <= num_counts,
            sp_rooms(old(r).data(), old(r).pos()) == sp_counts_from(
                r.data(),
                r.pos(),
                k as nat,
                num_counts as nat,
                counts_view(rooms@),
            ),
        decreases num_counts - k,
    {
        let ghost before = rooms@;
        let count = r.read_u32()?;
        let idx = k as usize;
        if idx >= rooms.len() {
            return Err(ProtocolError::InvalidValue { field: "room_index", value: k as u64 });
        }
        rooms[idx].1 = count;
        proof {
            assert(counts_view(rooms@) =~= counts_view(before).update(
                idx as int,
                (counts_view(before)[idx as int].0, count),
            ));
        }
        k = k + 1;
    }
    Ok(rooms)
}

pub fn parse_room_list(payload: &[u8]) -> (res: Result<ServerResponse, ProtocolError>)
    ensures
        server_result(res, 64, sp_room_list(payload@)),
{
    let mut r = MessageReader::new(payload);
    let rooms = read_rooms_with_counts(&mut r)?;
    let rooms_owner = read_rooms_with_counts(&mut r)?;
    let rooms_member = read_rooms_with_counts(&mut r)?;
    let rooms_operator = r.read_string_list()?;
    Ok(ServerResponse::RoomList { rooms, rooms_owner, rooms_member, rooms_operator })
}

// ---------------------------------------------------------------------
// Parents, similar users, tickers and related searches
// ---------------------------------------------------------------------

/// Reads `n` parent candidates: name, address and port.
pub open spec fn sp_parents_from(data: Seq<u8>, pos: int, n: nat, acc: Seq<Field>) -> Decoded<
    Seq<Field>,
>
    decreases n,
{
    if n == 0 {
        Ok((acc, pos))
    } else {
        match sp_string(data, pos) {
            Err(e) => Err(e),
            Ok((name, p1)) => match sp_u32(data, p1) {
                Err(e) => Err(e),
                Ok((ip, p2)) => match sp_u32(data, p2) {
                    Err(e) => Err(e),
                    Ok((port, p3)) => sp_parents_from(
                        data,
                        p3,
                        (n - 1) as nat,
                        acc.push(Field::Record(seq![Field::Text(name), Field::U32(ip), Field::U32(port)])),
                    ),
                },
            },
        }
    }
}

pub open spec fn sp_parents_message(data: Seq<u8>) -> Step<Seq<Field>> {
    match step(sp_u32(data, 0)) {
        Err(f) => Err(f),
        Ok((n, p1)) => match step(sp_parents_from(data, p1, n as nat, Seq::empty())) {
            Err(f) => Err(f),
            Ok((parents, p2)) => Ok((seq![Field::List(parents)], p2)),
        },
    }
}

pub fn parse_parents(payload: &[u8]) -> (res: Result<ServerResponse, ProtocolError>)
    ensures
        server_result(res, 102, sp_parents_message(payload@)),
{
    let mut r = MessageReader::new(payload);
    let num = r.read_u32()?;
    let ghost start = r.pos();
    let mut parents: Vec<ParentCandidate> = Vec::new();
    let mut i: u32 = 0;
    proof {
        assert(parents_view(parents@) =~= Seq::<Field>::empty());
    }
    while i < num
        invariant
            r.wf(),
            r.data() == payload@,
            i <= num,
            sp_u32(payload@, 0) == Decoded::<u32>::Ok((num, start)),
            sp_parents_from(payload@, start, num as nat, Seq::empty()) == sp_parents_from(
                r.data(),
                r.pos(),
                (num - i) as nat,
                parents_view(parents@),
            ),
        decreases num - i,
    {
        let ghost before = parents_view(parents@);
        let username = r.read_string()?;
        let ip_address = r.read_ip()?;
        let port = r.read_u32()?;
        let parent = ParentCandidate { username, ip_address, port };
        parents.push(parent);
        proof {
            assert(parents_view(parents@) =~= before.push(
                Field::Record(seq![Field::Text(parent.username@), Field::U32(ip_address), Field::U32(port)]),
            ));
        }
        i = i + 1;
    }
    Ok(ServerResponse::PossibleParents { parents })
}

/// Reads `n` names with counts.
pub open spec fn sp_counted_from(
    data: Seq<u8>,
    pos: int,
    n: nat,
    acc: Seq<(Seq<char>, u32)>,
) -> Decoded<Seq<(Seq<char>, u32)>>
    decreases n,
{
    if n == 0 {
        Ok((acc, pos))
    } else {
        match sp_string(data, pos) {
            Err(e) => Err(e),
            Ok((name, p1)) => match sp_u32(data, p1) {
                Err(e) => Err(e),
                Ok((count, p2)) => sp_counted_from(data, p2, (n - 1) as nat, acc.push((name, count))),
            },
        }
    }
}

/// A count, then that many names with counts.
pub open spec fn sp_counted(data: Seq<u8>, pos: int) -> Decoded<Seq<(Seq<char>, u32)>> {
    match sp_u32(data, pos) {
        Err(e) => Err(e),
        Ok((n, q)) => sp_counted_from(data, q, n as nat, Seq::empty()),
    }
}

/// Inserts `x` into a list sorted by falling rating, after every element
/// whose rating is not lower.
pub open spec fn insert_by_rating(sorted: Seq<(Seq<char>, u32)>, x: (Seq<char>, u32)) -> Seq<
    (Seq<char>, u32),
>
    decreases sorted.len(),
{
    if sorted.len() == 0 {
        seq![x]
    } else if sorted.last().1 >= x.1 {
        sorted.push(x)
    } else {
        insert_by_rating(sorted.drop_last(), x).push(sorted.last())
    }
}

/// The list sorted by falling rating, equal ratings keeping their order.
pub open spec fn sort_by_rating(s: Seq<(Seq<char>, u32)>) -> Seq<(Seq<char>, u32)>
    decreases s.len(),
{
    if s.len() == 0 {
        s
    } else {
        insert_by_rating(sort_by_rating(s.drop_last()), s.last())
    }
}

/// Similar users, highest rating first.
pub open spec fn sp_similar_message(data: Seq<u8>) -> Step<Seq<Field>> {
    match step(sp_counted(data, 0)) {
        Err(f) => Err(f),
        Ok((users, p)) => Ok((seq![counted_field(sort_by_rating(users))], p)),
    }
}

/// Reads a count, then that many names with counts.
fn read_counted(r: &mut MessageReader) -> (res: Result<Vec<(String, u32)>, ProtocolError>)
    requires
        old(r).wf(),
    ensures
        final(r).wf(),
        final(r).data() == old(r).data(),
        match sp_counted(old(r).data(), old(r).pos()) {
            Ok((v, q)) => (res matches Ok(x) && counts_view(x@) == v) && final(r).pos() == q,
            Err((e, _)) => res == Err::<Vec<(String, u32)>, ProtocolError>(e),
        },
{
    proof {
        reveal(super::super::wire::sp_u32);
    }
    let num = r.read_u32()?;
    let mut items: Vec<(String, u32)> = Vec::new();
    let mut i: u32 = 0;
    proof {
        assert(counts_view(items@) =~= Seq::<(Seq<char>, u32)>::empty());
    }
    while i < num
        invariant
            r.wf(),
            r.data() == old(r).data(),
            i <= num,
            sp_counted(old(r).data(), old(r).pos()) == sp_counted_from(
                r.data(),
                r.pos(),
                (num - i) as nat,
                counts_view(items@),
            ),
        decreases num - i,
    {
        let ghost before = counts_view(items@);
        let name = r.read_string()?;
        let count = r.read_u32()?;
        let ghost n = name@;
        items.push((name, count));
        proof {
            assert(counts_view(items@) =~= before.push((n, count)));
        }
        i = i + 1;
    }
    Ok(items)
}

/// Where `x` goes in a list sorted by falling rating: after the last
/// element whose rating is not lower.
proof fn lemma_insert_by_rating_at(sorted: Seq<(Seq<char>, u32)>, x: (Seq<char>, u32), j: int)
    requires
        0 <= j <= sorted.len(),
        j == 0 || sorted[j - 1].1 >= x.1,
        forall|k: int| j <= k < sorted.len() ==> (#[trigger] sorted[k]).1 < x.1,
    ensures
        insert_by_rating(sorted, x) == sorted.take(j).push(x) + sorted.skip(j),
    decreases sorted.len(),
{
    if sorted.len() == 0 {
        assert(sorted.take(j).push(x) + sorted.skip(j) =~= seq![x]);
    } else if j == sorted.len() {
        assert(sorted.take(j).push(x) + sorted.skip(j) =~= sorted.push(x));
    } else {
        let init = sorted.drop_last();
        assert(sorted.last().1 < x.1);
        assert forall|k: int| j <= k < init.len() implies (#[trigger] init[k]).1 < x.1 by {
            assert(init[k] == sorted[k]);
        }
        lemma_insert_by_rating_at(init, x, j);
        assert(init.take(j).push(x) + init.skip(j) == insert_by_rating(init, x));
        assert((init.take(j).push(x) + init.skip(j)).push(sorted.last()) =~= sorted.take(j).push(x)
            + sorted.skip(j));
    }
}

/// Taking the first element off a list whose view is a suffix of `all`.
proof fn lemma_take_first<A, B>(before: Seq<A>, after: Seq<A>, all: Seq<B>, f: spec_fn(A) -> B, t: int)
    requires
        before.map_values(f) == all.skip(t),
        before.len() > 0,
        after == before.subrange(1, before.len() as int),
        0 <= t <= all.len(),
    ensures
        t < all.len(),
        all[t] == f(before[0]),
        after.map_values(f) == all.skip(t + 1),
{
    assert(before.map_values(f).len() == before.len());
    assert(all.skip(t)[0] == all[t]);
    assert forall|k: int| 0 <= k < after.len() implies #[trigger] after.map_values(f)[k] == all.skip(
        t + 1,
    )[k] by {
        assert(after[k] == before[k + 1]);
        assert(before.map_values(f)[k + 1] == all.skip(t)[k + 1]);
        assert(all.skip(t)[k + 1] == all[t + k + 1]);
        assert(all.skip(t + 1)[k] == all[t + 1 + k]);
    }
    assert(after.map_values(f) =~= all.skip(t + 1));
}

/// Sorts similar users by falling rating, keeping the order of equals.
fn sort_similar_users(users: Vec<SimilarUser>) -> (sorted: Vec<SimilarUser>)
    ensures
        similar_view(sorted@) == sort_by_rating(similar_view(users@)),
{
    let ghost all = similar_view(users@);
    let mut rest = users;
    let mut sorted: Vec<SimilarUser> = Vec::new();
    let mut taken: usize = 0;
    let count = rest.len();
    proof {
        assert(all.len() == count);
        assert(all.take(0) =~= Seq::<(Seq<char>, u32)>::empty());
        assert(similar_view(sorted@) =~= Seq::<(Seq<char>, u32)>::empty());
        assert(similar_view(rest@) =~= all.skip(0));
    }
    while rest.len() > 0
        invariant
            taken <= all.len(),
            all.len() <= usize::MAX,
            similar_view(rest@) == all.skip(taken as int),
            similar_view(sorted@) == sort_by_rating(all.take(taken as int)),
        decreases rest@.len(),
    {
        let ghost before = similar_view(sorted@);
        let ghost rest_before = rest@;
        let user = rest.remove(0);
        let ghost x = (user.username@, user.rating);
        proof {
            assert(rest@ =~= rest_before.subrange(1, rest_before.len() as int));
            lemma_take_first(
                rest_before,
                rest@,
                all,
                |u: SimilarUser| (u.username@, u.rating),
                taken as int,
            );
        }
        let mut j: usize = sorted.len();
        while j > 0 && sorted[j - 1].rating < user.rating
            invariant
                j <= sorted@.len(),
                similar_view(sorted@) == before,
                x.1 == user.rating,
                forall|k: int| j <= k < before.len() ==> (#[trigger] before[k]).1 < x.1,
            decreases j,
        {
            assert(before[j - 1] == (sorted@[j - 1].username@, sorted@[j - 1].rating));
            j = j - 1;
        }
        proof {
            if j > 0 {
                assert(before[j - 1] == (sorted@[j - 1].username@, sorted@[j - 1].rating));
            }
        }
        proof {
            lemma_insert_by_rating_at(before, x, j as int);
        }
        sorted.insert(j, user);
        proof {
            assert(similar_view(sorted@) =~= before.take(j as int).push(x) + before.skip(j as int));
            assert(all.take(taken + 1).drop_last() =~= all.take(taken as int));
            assert(all.take(taken + 1).last() == x);
        }
        taken = taken + 1;
    }
    proof {
        assert(all.take(taken as int) =~= all);
    }
    sorted
}

pub fn parse_similar_users(payload: &[u8]) -> (res: Result<ServerResponse, ProtocolError>)
    ensures
        server_result(res, 110, sp_similar_message(payload@)),
{
    let mut r = MessageReader::new(payload);
    let pairs = read_counted(&mut r)?;
    let mut users: Vec<SimilarUser> = Vec::new();
    let mut rest = pairs;
    proof {
        assert(similar_view(users@) =~= Seq::<(Seq<char>, u32)>::empty());
    }
    let ghost all = counts_view(rest@);
    let mut taken: usize = 0;
    let count = rest.len();
    proof {
        assert(all.len() == count);
    }
    while rest.len() > 0
        invariant
            taken <= all.len(),
            all.len() <= usize::MAX,
            counts_view(rest@) == all.skip(taken as int),
            similar_view(users@) == all.take(taken as int),
        decreases rest@.len(),
    {
        let ghost before = similar_view(users@);
        let ghost rest_before = rest@;
        let (username, rating) = rest.remove(0);
        proof {
            assert(rest@ =~= rest_before.subrange(1, rest_before.len() as int));
            lemma_take_first(
                rest_before,
                rest@,
                all,
                |p: (String, u32)| (p.0@, p.1),
                taken as int,
            );
        }
        let ghost u = username@;
        users.push(SimilarUser { username, rating });
        proof {
            assert(similar_view(users@) =~= before.push((u, rating)));
            assert(all.take(taken + 1) =~= all.take(taken as int).push(all[taken as int]));
        }
        taken = taken + 1;
    }
    proof {
        assert(all.take(taken as int) =~= all);
    }
    let users = sort_similar_users(users);
    Ok(ServerResponse::SimilarUsers { users })
}

/// Reads `n` tickers: user and text.
pub open spec fn sp_tickers_from(data: Seq<u8>, pos: int, n: nat, acc: Seq<Field>) -> Decoded<
    Seq<Field>,
>
    decreases n,
{
    if n == 0 {
        Ok((acc, pos))
    } else {
        match sp_string(data, pos) {
            Err(e) => Err(e),
            Ok((a, p1)) => match sp_string(data, p1) {
                Err(e) => Err(e),
                Ok((b, p2)) => sp_tickers_from(
                    data,
                    p2,
                    (n - 1) as nat,
                    acc.push(Field::Record(seq![Field::Text(a), Field::Text(b)])),
                ),
            },
        }
    }
}

/// Room tickers: the room, a count, then that many tickers.
pub open spec fn sp_tickers_message(data: Seq<u8>) -> Step<Seq<Field>> {
    match step(sp_string(data, 0)) {
        Err(f) => Err(f),
        Ok((room, p1)) => match step(sp_u32(data, p1)) {
            Err(f) => Err(f),
            Ok((n, p2)) => match step(sp_tickers_from(data, p2, n as nat, Seq::empty())) {
                Err(f) => Err(f),
                Ok((tickers, p3)) => Ok((seq![Field::Text(room), Field::List(tickers)], p3)),
            },
        },
    }
}

pub fn parse_tickers(payload: &[u8]) -> (res: Result<ServerResponse, ProtocolError>)
    ensures
        server_result(res, 113, sp_tickers_message(payload@)),
{
    let mut r = MessageReader::new(payload);
    let room = r.read_string()?;
    let ghost after_room = r.pos();
    let num = r.read_u32()?;
    let ghost start = r.pos();
    let mut tickers: Vec<(String, String)> = Vec::new();
    let mut i: u32 = 0;
    proof {
        assert(tickers_view(tickers@) =~= Seq::<Field>::empty());
    }
    while i < num
        invariant
            r.wf(),
            r.data() == payload@,
            i <= num,
            sp_string(payload@, 0) == Decoded::<Seq<char>>::Ok((room@, after_room)),
            sp_u32(payload@, after_room) == Decoded::<u32>::Ok((num, start)),
            sp_tickers_from(payload@, start, num as nat, Seq::empty()) == sp_tickers_from(
                r.data(),
                r.pos(),
                (num - i) as nat,
                tickers_view(tickers@),
            ),
        decreases num - i,
    {
        let ghost before = tickers_view(tickers@);
        let a = r.read_string()?;
        let b = r.read_string()?;
        let ghost pa = a@;
        let ghost pb = b@;
        tickers.push((a, b));
        proof {
            assert(tickers_view(tickers@) =~= before.push(
                Field::Record(seq![Field::Text(pa), Field::Text(pb)]),
            ));
        }
        i = i + 1;
    }
    Ok(ServerResponse::RoomTickers { room, tickers })
}

/// A related search: the query, then terms with counts.
pub open spec fn sp_related_search(data: Seq<u8>) -> Step<Seq<Field>> {
    match step(sp_string(data, 0)) {
        Err(f) => Err(f),
        Ok((query, p1)) => match step(sp_counted(data, p1)) {
            Err(f) => Err(f),
            Ok((terms, p2)) => Ok((seq![Field::Text(query), counted_field(terms)], p2)),
        },
    }
}

pub fn parse_related_search(payload: &[u8]) -> (res: Result<ServerResponse, ProtocolError>)
    ensures
        server_result(res, 153, sp_related_search(payload@)),
{
    let mut r = MessageReader::new(payload);
    let query = r.read_string()?;
    let terms = read_counted(&mut r)?;
    Ok(ServerResponse::RelatedSearch { query, terms })
}

} // verus!
