//! Requests this client sends to the server.
use vstd::prelude::*;
use vstd::utf8::encode_utf8;

use super::fields::{encode_fields, Field};
use super::wire::{
    chars_of, framed_text, framed_text_list, framed_texts, le_bytes, lemma_framed_texts_push, push_char,
    MessageWriter,
};
use super::{frame_u32, frame_with_u32_code};
use crate::types::{connection_type_name, ConnectionType};

verus! {

/// The MD5 digest of the bytes, as computed by the `md5` crate.
pub uninterp spec fn md5_of(data: Seq<u8>) -> Seq<u8>;

/// `md5::compute`: the 16 bytes of the MD5 digest of `data`.
#[verifier::external_body]
pub(crate) fn md5_digest(data: &[u8]) -> (digest: Vec<u8>)
    ensures
        digest@ == md5_of(data@),
        digest@.len() == 16,
{
    md5::compute(data).0.to_vec()
}

/// Lower-case hexadecimal digit of a value below 16.
pub open spec fn hex_digit(d: u8) -> char {
    if d < 10 {
        (48 + d) as char
    } else {
        (87 + d) as char
    }
}

/// Lower-case hexadecimal text of bytes, two digits per byte.
pub open spec fn hex_lower(bytes: Seq<u8>) -> Seq<char> {
    Seq::new(
        2 * bytes.len(),
        |i: int|
            if i % 2 == 0 {
                hex_digit(bytes[i / 2] / 16)
            } else {
                hex_digit(bytes[i / 2] % 16)
            },
    )
}

/// The password hash of a login: the MD5 of the user name followed by the
/// password, in lower-case hexadecimal.
pub open spec fn login_hash(username: Seq<char>, password: Seq<char>) -> Seq<char> {
    hex_lower(md5_of(encode_utf8(username) + encode_utf8(password)))
}

/// Lower-case hexadecimal text of bytes.
pub fn to_hex_lower(bytes: &[u8]) -> (text: String)
    ensures
        text@ == hex_lower(bytes@),
{
    let mut text = String::new();
    let mut i: usize = 0;
    while i < bytes.len()
        invariant
            i <= bytes@.len(),
            text@ =~= hex_lower(bytes@.subrange(0, i as int)),
        decreases bytes@.len() - i,
    {
        let b = bytes[i];
        let high = b / 16;
        let low = b % 16;
        push_char(&mut text, if high < 10 { (48 + high) as char } else { (87 + high) as char });
        push_char(&mut text, if low < 10 { (48 + low) as char } else { (87 + low) as char });
        proof {
            let prev = hex_lower(bytes@.subrange(0, i as int));
            let next = hex_lower(bytes@.subrange(0, i + 1));
            assert forall|k: int| 0 <= k < next.len() implies next[k] == text@[k] by {
                if k < 2 * i {
                    assert(next[k] == prev[k]);
                }
            }
        }
        i = i + 1;
    }
    proof {
        assert(bytes@.subrange(0, i as int) =~= bytes@);
    }
    text
}

fn login_digest(username: &str, password: &str) -> (digest: String)
    ensures
        digest@ == login_hash(username@, password@),
{
    let mut joined = vstd::slice::slice_to_vec(username.as_bytes());
    assert(joined@ == encode_utf8(username@));
    joined.extend_from_slice(password.as_bytes());
    assert(joined@ == encode_utf8(username@) + encode_utf8(password@));
    let digest = md5_digest(joined.as_slice());
    assert(digest@ == md5_of(encode_utf8(username@) + encode_utf8(password@)));
    to_hex_lower(digest.as_slice())
}

fn write_string_list(w: &mut MessageWriter, items: &Vec<String>)
    ensures
        final(w)@ == old(w)@ + framed_text_list(items@.map_values(|u: String| u@)),
{
    let ghost list = items@.map_values(|u: String| u@);
    w.write_u32(items.len() as u32);
    let ghost start = w@;
    let mut i: usize = 0;
    while i < items.len()
        invariant
            i <= items@.len(),
            list == items@.map_values(|u: String| u@),
            w@ == start + framed_texts(list.take(i as int)),
        decreases items@.len() - i,
    {
        w.write_string(items[i].as_str());
        proof {
            lemma_framed_texts_push(list.take(i as int), list[i as int]);
            assert(list.take(i + 1) =~= list.take(i as int).push(list[i as int]));
        }
        i = i + 1;
    }
    proof {
        assert(list.take(i as int) =~= list);
    }
}

#[derive(Debug, Clone, PartialEq, Eq)]
pub enum ServerRequest {
    Login { username: String, password: String, version: u32, minor_version: u32 },
    SetWaitPort { port: u32 },
    GetPeerAddress { user: String },
    WatchUser { user: String },
    UnwatchUser { user: String },
    GetUserStatus { user: String },
    SayChatroom { room: String, message: String },
    JoinRoom { room: String, private: bool },
    LeaveRoom { room: String },
    ConnectToPeer { token: u32, user: String, conn_type: ConnectionType },
    MessageUser { user: String, message: String },
    MessageAcked { message_id: u32 },
    FileSearch { token: u32, search_term: String },
    SetStatus { status: i32 },
    ServerPing,
    SharedFoldersFiles { folders: u32, files: u32 },
    GetUserStats { user: String },
    UserSearch { search_username: String, token: u32, search_term: String },
    AddThingILike { thing: String },
    RemoveThingILike { thing: String },
    Recommendations,
    GlobalRecommendations,
    UserInterests { user: String },
    RoomList,
    HaveNoParent { no_parent: bool },
    CheckPrivileges,
    AcceptChildren { enabled: bool },
    WishlistSearch { token: u32, search_term: String },
    SimilarUsers,
    ItemRecommendations { thing: String },
    ItemSimilarUsers { thing: String },
    SetRoomTicker { room: String, msg: String },
    AddThingIHate { thing: String },
    RemoveThingIHate { thing: String },
    RoomSearch { room: String, token: u32, search_term: String },
    SendUploadSpeed { speed: u32 },
    GivePrivileges { user: String, days: u32 },
    BranchLevel { value: u32 },
    BranchRoot { user: String },
    AddRoomMember { room: String, user: String },
    RemoveRoomMember { room: String, user: String },
    CancelRoomMembership { room: String },
    CancelRoomOwnership { room: String },
    EnableRoomInvitations { enabled: bool },
    ChangePassword { password: String },
    AddRoomOperator { room: String, user: String },
    RemoveRoomOperator { room: String, user: String },
    MessageUsers { users: Vec<String>, msg: String },
    JoinGlobalRoom,
    LeaveGlobalRoom,
    CantConnectToPeer { token: u32, user: String },
}

impl View for ServerRequest {
    /// The message code and the values the request carries.
    type V = (u32, Seq<Field>);

    open spec fn view(&self) -> (u32, Seq<Field>) {
        match self {
            ServerRequest::Login { username, password, version, minor_version } => (
                1,
                seq![
                    Field::Text(username@),
                    Field::Text(password@),
                    Field::U32(*version),
                    Field::Text(login_hash(username@, password@)),
                    Field::U32(*minor_version),
                ],
            ),
            ServerRequest::SetWaitPort { port } => (2, seq![Field::U32(*port)]),
            ServerRequest::GetPeerAddress { user } => (3, seq![Field::Text(user@)]),
            ServerRequest::WatchUser { user } => (5, seq![Field::Text(user@)]),
            ServerRequest::UnwatchUser { user } => (6, seq![Field::Text(user@)]),
            ServerRequest::GetUserStatus { user } => (7, seq![Field::Text(user@)]),
            ServerRequest::SayChatroom { room, message } => (13, seq![Field::Text(room@), Field::Text(message@)]),
            ServerRequest::JoinRoom { room, private } => (
                14,
                seq![Field::Text(room@), Field::U32(if *private { 1u32 } else { 0u32 })],
            ),
            ServerRequest::LeaveRoom { room } => (15, seq![Field::Text(room@)]),
            ServerRequest::ConnectToPeer { token, user, conn_type } => (
                18,
                seq![Field::U32(*token), Field::Text(user@), Field::Text(connection_type_name(*conn_type))],
            ),
            ServerRequest::MessageUser { user, message } => (22, seq![Field::Text(user@), Field::Text(message@)]),
            ServerRequest::MessageAcked { message_id } => (23, seq![Field::U32(*message_id)]),
            ServerRequest::FileSearch { token, search_term } => (26, seq![Field::U32(*token), Field::Text(search_term@)]),
            ServerRequest::SetStatus { status } => (28, seq![Field::I32(*status)]),
            ServerRequest::ServerPing => (32, seq![]),
            ServerRequest::SharedFoldersFiles { folders, files } => (35, seq![Field::U32(*folders), Field::U32(*files)]),
            ServerRequest::GetUserStats { user } => (36, seq![Field::Text(user@)]),
            ServerRequest::UserSearch { search_username, token, search_term } => (42, seq![Field::Text(search_username@), Field::U32(*token), Field::Text(search_term@)]),
            ServerRequest::AddThingILike { thing } => (51, seq![Field::Text(thing@)]),
            ServerRequest::RemoveThingILike { thing } => (52, seq![Field::Text(thing@)]),
            ServerRequest::Recommendations => (54, seq![]),
            ServerRequest::GlobalRecommendations => (56, seq![]),
            ServerRequest::UserInterests { user } => (57, seq![Field::Text(user@)]),
            ServerRequest::RoomList => (64, seq![]),
            ServerRequest::HaveNoParent { no_parent } => (71, seq![Field::Bool(*no_parent)]),
            ServerRequest::CheckPrivileges => (92, seq![]),
            ServerRequest::AcceptChildren { enabled } => (100, seq![Field::Bool(*enabled)]),
            ServerRequest::WishlistSearch { token, search_term } => (103, seq![Field::U32(*token), Field::Text(search_term@)]),
            ServerRequest::SimilarUsers => (110, seq![]),
            ServerRequest::ItemRecommendations { thing } => (111, seq![Field::Text(thing@)]),
            ServerRequest::ItemSimilarUsers { thing } => (112, seq![Field::Text(thing@)]),
            ServerRequest::SetRoomTicker { room, msg } => (116, seq![Field::Text(room@), Field::Text(msg@)]),
            ServerRequest::AddThingIHate { thing } => (117, seq![Field::Text(thing@)]),
            ServerRequest::RemoveThingIHate { thing } => (118, seq![Field::Text(thing@)]),
            ServerRequest::RoomSearch { room, token, search_term } => (120, seq![Field::Text(room@), Field::U32(*token), Field::Text(search_term@)]),
            ServerRequest::SendUploadSpeed { speed } => (121, seq![Field::U32(*speed)]),
            ServerRequest::GivePrivileges { user, days } => (123, seq![Field::Text(user@), Field::U32(*days)]),
            ServerRequest::BranchLevel { value } => (126, seq![Field::U32(*value)]),
            ServerRequest::BranchRoot { user } => (127, seq![Field::Text(user@)]),
            ServerRequest::AddRoomMember { room, user } => (134, seq![Field::Text(room@), Field::Text(user@)]),
            ServerRequest::RemoveRoomMember { room, user } => (135, seq![Field::Text(room@), Field::Text(user@)]),
            ServerRequest::CancelRoomMembership { room } => (136, seq![Field::Text(room@)]),
            ServerRequest::CancelRoomOwnership { room } => (137, seq![Field::Text(room@)]),
            ServerRequest::EnableRoomInvitations { enabled } => (141, seq![Field::Bool(*enabled)]),
            ServerRequest::ChangePassword { password } => (142, seq![Field::Text(password@)]),
            ServerRequest::AddRoomOperator { room, user } => (143, seq![Field::Text(room@), Field::Text(user@)]),
            ServerRequest::RemoveRoomOperator { room, user } => (144, seq![Field::Text(room@), Field::Text(user@)]),
            ServerRequest::MessageUsers { users, msg } => (
                149,
                seq![Field::TextList(users@.map_values(|u: String| u@)), Field::Text(msg@)],
            ),
            ServerRequest::JoinGlobalRoom => (150, seq![]),
            ServerRequest::LeaveGlobalRoom => (151, seq![]),
            ServerRequest::CantConnectToPeer { token, user } => (1001, seq![Field::U32(*token), Field::Text(user@)]),
        }
    }
}

impl ServerRequest {
    pub open spec fn spec_code(&self) -> u32 {
        self@.0
    }

    #[verifier::when_used_as_spec(spec_code)]
    pub fn code(&self) -> (c: u32)
        ensures
            c == self@.0,
    {
        match self {
            Self::Login { .. } => 1,
            Self::SetWaitPort { .. } => 2,
            Self::GetPeerAddress { .. } => 3,
            Self::WatchUser { .. } => 5,
            Self::UnwatchUser { .. } => 6,
            Self::GetUserStatus { .. } => 7,
            Self::SayChatroom { .. } => 13,
            Self::JoinRoom { .. } => 14,
            Self::LeaveRoom { .. } => 15,
            Self::ConnectToPeer { .. } => 18,
            Self::MessageUser { .. } => 22,
            Self::MessageAcked { .. } => 23,
            Self::FileSearch { .. } => 26,
            Self::SetStatus { .. } => 28,
            Self::ServerPing => 32,
            Self::SharedFoldersFiles { .. } => 35,
            Self::GetUserStats { .. } => 36,
            Self::UserSearch { .. } => 42,
            Self::AddThingILike { .. } => 51,
            Self::RemoveThingILike { .. } => 52,
            Self::Recommendations => 54,
            Self::GlobalRecommendations => 56,
            Self::UserInterests { .. } => 57,
            Self::RoomList => 64,
            Self::HaveNoParent { .. } => 71,
            Self::CheckPrivileges => 92,
            Self::AcceptChildren { .. } => 100,
            Self::WishlistSearch { .. } => 103,
            Self::SimilarUsers => 110,
            Self::ItemRecommendations { .. } => 111,
            Self::ItemSimilarUsers { .. } => 112,
            Self::SetRoomTicker { .. } => 116,
            Self::AddThingIHate { .. } => 117,
            Self::RemoveThingIHate { .. } => 118,
            Self::RoomSearch { .. } => 120,
            Self::SendUploadSpeed { .. } => 121,
            Self::GivePrivileges { .. } => 123,
            Self::BranchLevel { .. } => 126,
            Self::BranchRoot { .. } => 127,
            Self::AddRoomMember { .. } => 134,
            Self::RemoveRoomMember { .. } => 135,
            Self::CancelRoomMembership { .. } => 136,
            Self::CancelRoomOwnership { .. } => 137,
            Self::EnableRoomInvitations { .. } => 141,
            Self::ChangePassword { .. } => 142,
            Self::AddRoomOperator { .. } => 143,
            Self::RemoveRoomOperator { .. } => 144,
            Self::MessageUsers { .. } => 149,
            Self::JoinGlobalRoom => 150,
            Self::LeaveGlobalRoom => 151,
            Self::CantConnectToPeer { .. } => 1001,
        }
    }

    #[verifier::rlimit(60)]
    #[verifier::spinoff_prover]
    pub fn write_payload(&self, w: &mut MessageWriter)
        ensures
            final(w)@ == old(w)@ + encode_fields(self@.1),
    {
        match self {
            Self::Login { username, password, version, minor_version } => {
                w.write_string(username);
                w.write_string(password);
                w.write_u32(*version);
                let digest = login_digest(username.as_str(), password.as_str());
                w.write_string(digest.as_str());
                w.write_u32(*minor_version);
                proof { reveal_with_fuel(super::fields::encode_fields_from, 6); assert(w@ =~= old(w)@ + encode_fields(self@.1)); }
            },
            Self::SetWaitPort { port } => { w.write_u32(*port);  proof { reveal_with_fuel(super::fields::encode_fields_from, 6); assert(w@ =~= old(w)@ + encode_fields(self@.1)); } },
            Self::GetPeerAddress { user } => { w.write_string(user);  proof { reveal_with_fuel(super::fields::encode_fields_from, 6); assert(w@ =~= old(w)@ + encode_fields(self@.1)); } },
            Self::WatchUser { user } => { w.write_string(user);  proof { reveal_with_fuel(super::fields::encode_fields_from, 6); assert(w@ =~= old(w)@ + encode_fields(self@.1)); } },
            Self::UnwatchUser { user } => { w.write_string(user);  proof { reveal_with_fuel(super::fields::encode_fields_from, 6); assert(w@ =~= old(w)@ + encode_fields(self@.1)); } },
            Self::GetUserStatus { user } => { w.write_string(user);  proof { reveal_with_fuel(super::fields::encode_fields_from, 6); assert(w@ =~= old(w)@ + encode_fields(self@.1)); } },
            Self::SayChatroom { room, message } => { w.write_string(room); w.write_string(message);  proof { reveal_with_fuel(super::fields::encode_fields_from, 6); assert(w@ =~= old(w)@ + encode_fields(self@.1)); } },
            Self::JoinRoom { room, private } => {
                w.write_string(room);
                w.write_u32(if *private { 1u32 } else { 0u32 });
                proof { reveal_with_fuel(super::fields::encode_fields_from, 6); assert(w@ =~= old(w)@ + encode_fields(self@.1)); }
            },
            Self::LeaveRoom { room } => { w.write_string(room);  proof { reveal_with_fuel(super::fields::encode_fields_from, 6); assert(w@ =~= old(w)@ + encode_fields(self@.1)); } },
            Self::ConnectToPeer { token, user, conn_type } => {
                w.write_u32(*token);
                w.write_string(user);
                w.write_string(conn_type.as_str());
                proof { reveal_with_fuel(super::fields::encode_fields_from, 6); assert(w@ =~= old(w)@ + encode_fields(self@.1)); }
            },
            Self::MessageUser { user, message } => { w.write_string(user); w.write_string(message);  proof { reveal_with_fuel(super::fields::encode_fields_from, 6); assert(w@ =~= old(w)@ + encode_fields(self@.1)); } },
            Self::MessageAcked { message_id } => { w.write_u32(*message_id);  proof { reveal_with_fuel(super::fields::encode_fields_from, 6); assert(w@ =~= old(w)@ + encode_fields(self@.1)); } },
            Self::FileSearch { token, search_term } => { w.write_u32(*token); w.write_string(search_term);  proof { reveal_with_fuel(super::fields::encode_fields_from, 6); assert(w@ =~= old(w)@ + encode_fields(self@.1)); } },
            Self::SetStatus { status } => { w.write_i32(*status);  proof { reveal_with_fuel(super::fields::encode_fields_from, 6); assert(w@ =~= old(w)@ + encode_fields(self@.1)); } },
            Self::ServerPing => { proof { reveal_with_fuel(super::fields::encode_fields_from, 6); assert(w@ =~= old(w)@ + encode_fields(self@.1)); } },
            Self::SharedFoldersFiles { folders, files } => { w.write_u32(*folders); w.write_u32(*files);  proof { reveal_with_fuel(super::fields::encode_fields_from, 6); assert(w@ =~= old(w)@ + encode_fields(self@.1)); } },
            Self::GetUserStats { user } => { w.write_string(user);  proof { reveal_with_fuel(super::fields::encode_fields_from, 6); assert(w@ =~= old(w)@ + encode_fields(self@.1)); } },
            Self::UserSearch { search_username, token, search_term } => { w.write_string(search_username); w.write_u32(*token); w.write_string(search_term);  proof { reveal_with_fuel(super::fields::encode_fields_from, 6); assert(w@ =~= old(w)@ + encode_fields(self@.1)); } },
            Self::AddThingILike { thing } => { w.write_string(thing);  proof { reveal_with_fuel(super::fields::encode_fields_from, 6); assert(w@ =~= old(w)@ + encode_fields(self@.1)); } },
            Self::RemoveThingILike { thing } => { w.write_string(thing);  proof { reveal_with_fuel(super::fields::encode_fields_from, 6); assert(w@ =~= old(w)@ + encode_fields(self@.1)); } },
            Self::Recommendations => { proof { reveal_with_fuel(super::fields::encode_fields_from, 6); assert(w@ =~= old(w)@ + encode_fields(self@.1)); } },
            Self::GlobalRecommendations => { proof { reveal_with_fuel(super::fields::encode_fields_from, 6); assert(w@ =~= old(w)@ + encode_fields(self@.1)); } },
            Self::UserInterests { user } => { w.write_string(user);  proof { reveal_with_fuel(super::fields::encode_fields_from, 6); assert(w@ =~= old(w)@ + encode_fields(self@.1)); } },
            Self::RoomList => { proof { reveal_with_fuel(super::fields::encode_fields_from, 6); assert(w@ =~= old(w)@ + encode_fields(self@.1)); } },
            Self::HaveNoParent { no_parent } => { w.write_bool(*no_parent);  proof { reveal_with_fuel(super::fields::encode_fields_from, 6); assert(w@ =~= old(w)@ + encode_fields(self@.1)); } },
            Self::CheckPrivileges => { proof { reveal_with_fuel(super::fields::encode_fields_from, 6); assert(w@ =~= old(w)@ + encode_fields(self@.1)); } },
            Self::AcceptChildren { enabled } => { w.write_bool(*enabled);  proof { reveal_with_fuel(super::fields::encode_fields_from, 6); assert(w@ =~= old(w)@ + encode_fields(self@.1)); } },
            Self::WishlistSearch { token, search_term } => { w.write_u32(*token); w.write_string(search_term);  proof { reveal_with_fuel(super::fields::encode_fields_from, 6); assert(w@ =~= old(w)@ + encode_fields(self@.1)); } },
            Self::SimilarUsers => { proof { reveal_with_fuel(super::fields::encode_fields_from, 6); assert(w@ =~= old(w)@ + encode_fields(self@.1)); } },
            Self::ItemRecommendations { thing } => { w.write_string(thing);  proof { reveal_with_fuel(super::fields::encode_fields_from, 6); assert(w@ =~= old(w)@ + encode_fields(self@.1)); } },
            Self::ItemSimilarUsers { thing } => { w.write_string(thing);  proof { reveal_with_fuel(super::fields::encode_fields_from, 6); assert(w@ =~= old(w)@ + encode_fields(self@.1)); } },
            Self::SetRoomTicker { room, msg } => { w.write_string(room); w.write_string(msg);  proof { reveal_with_fuel(super::fields::encode_fields_from, 6); assert(w@ =~= old(w)@ + encode_fields(self@.1)); } },
            Self::AddThingIHate { thing } => { w.write_string(thing);  proof { reveal_with_fuel(super::fields::encode_fields_from, 6); assert(w@ =~= old(w)@ + encode_fields(self@.1)); } },
            Self::RemoveThingIHate { thing } => { w.write_string(thing);  proof { reveal_with_fuel(super::fields::encode_fields_from, 6); assert(w@ =~= old(w)@ + encode_fields(self@.1)); } },
            Self::RoomSearch { room, token, search_term } => { w.write_string(room); w.write_u32(*token); w.write_string(search_term);  proof { reveal_with_fuel(super::fields::encode_fields_from, 6); assert(w@ =~= old(w)@ + encode_fields(self@.1)); } },
            Self::SendUploadSpeed { speed } => { w.write_u32(*speed);  proof { reveal_with_fuel(super::fields::encode_fields_from, 6); assert(w@ =~= old(w)@ + encode_fields(self@.1)); } },
            Self::GivePrivileges { user, days } => { w.write_string(user); w.write_u32(*days);  proof { reveal_with_fuel(super::fields::encode_fields_from, 6); assert(w@ =~= old(w)@ + encode_fields(self@.1)); } },
            Self::BranchLevel { value } => { w.write_u32(*value);  proof { reveal_with_fuel(super::fields::encode_fields_from, 6); assert(w@ =~= old(w)@ + encode_fields(self@.1)); } },
            Self::BranchRoot { user } => { w.write_string(user);  proof { reveal_with_fuel(super::fields::encode_fields_from, 6); assert(w@ =~= old(w)@ + encode_fields(self@.1)); } },
            Self::AddRoomMember { room, user } => { w.write_string(room); w.write_string(user);  proof { reveal_with_fuel(super::fields::encode_fields_from, 6); assert(w@ =~= old(w)@ + encode_fields(self@.1)); } },
            Self::RemoveRoomMember { room, user } => { w.write_string(room); w.write_string(user);  proof { reveal_with_fuel(super::fields::encode_fields_from, 6); assert(w@ =~= old(w)@ + encode_fields(self@.1)); } },
            Self::CancelRoomMembership { room } => { w.write_string(room);  proof { reveal_with_fuel(super::fields::encode_fields_from, 6); assert(w@ =~= old(w)@ + encode_fields(self@.1)); } },
            Self::CancelRoomOwnership { room } => { w.write_string(room);  proof { reveal_with_fuel(super::fields::encode_fields_from, 6); assert(w@ =~= old(w)@ + encode_fields(self@.1)); } },
            Self::EnableRoomInvitations { enabled } => { w.write_bool(*enabled);  proof { reveal_with_fuel(super::fields::encode_fields_from, 6); assert(w@ =~= old(w)@ + encode_fields(self@.1)); } },
            Self::ChangePassword { password } => { w.write_string(password);  proof { reveal_with_fuel(super::fields::encode_fields_from, 6); assert(w@ =~= old(w)@ + encode_fields(self@.1)); } },
            Self::AddRoomOperator { room, user } => { w.write_string(room); w.write_string(user);  proof { reveal_with_fuel(super::fields::encode_fields_from, 6); assert(w@ =~= old(w)@ + encode_fields(self@.1)); } },
            Self::RemoveRoomOperator { room, user } => { w.write_string(room); w.write_string(user);  proof { reveal_with_fuel(super::fields::encode_fields_from, 6); assert(w@ =~= old(w)@ + encode_fields(self@.1)); } },
            Self::MessageUsers { users, msg } => {
                write_string_list(w, users);
                w.write_string(msg);
                proof { reveal_with_fuel(super::fields::encode_fields_from, 6); assert(w@ =~= old(w)@ + encode_fields(self@.1)); }
            },
            Self::JoinGlobalRoom => { proof { reveal_with_fuel(super::fields::encode_fields_from, 6); assert(w@ =~= old(w)@ + encode_fields(self@.1)); } },
            Self::LeaveGlobalRoom => { proof { reveal_with_fuel(super::fields::encode_fields_from, 6); assert(w@ =~= old(w)@ + encode_fields(self@.1)); } },
            Self::CantConnectToPeer { token, user } => { w.write_u32(*token); w.write_string(user);  proof { reveal_with_fuel(super::fields::encode_fields_from, 6); assert(w@ =~= old(w)@ + encode_fields(self@.1)); } },
        }
    }

    pub fn to_bytes(&self) -> (bytes: Vec<u8>)
        requires
            encode_fields(self@.1).len() <= u32::MAX - 4,
        ensures
            bytes@ == frame_u32(self@.0, encode_fields(self@.1)),
    {
        let mut w = MessageWriter::new();
        self.write_payload(&mut w);
        let payload = w.into_bytes();
        frame_with_u32_code(self.code(), payload.as_slice())
    }
}


/// The bytes of a text followed by another are the bytes of the one
/// followed by the bytes of the other.
pub proof fn lemma_encode_utf8_concat(a: Seq<char>, b: Seq<char>)
    ensures
        encode_utf8(a + b) == encode_utf8(a) + encode_utf8(b),
    decreases a.len(),
{
    if a.len() == 0 {
        assert(a + b =~= b);
        assert(encode_utf8(a) + encode_utf8(b) =~= encode_utf8(b));
    } else {
        lemma_encode_utf8_concat(a.drop_first(), b);
        assert((a + b).drop_first() =~= a.drop_first() + b);
        assert((a + b)[0] == a[0]);
        assert(encode_utf8(a + b) =~= encode_utf8(a) + encode_utf8(b));
    }
}

/// The login hash is the lower-case hexadecimal MD5 of the text made of
/// the user name followed by the password.
pub proof fn law_login_hash_of_name_then_password(username: Seq<char>, password: Seq<char>)
    ensures
        login_hash(username, password) == hex_lower(md5_of(encode_utf8(username + password))),
{
    lemma_encode_utf8_concat(username, password);
}

/// Two logins whose user name followed by password make the same text get
/// the same hash: the hash sees only that text.
pub proof fn law_login_hash_sees_the_joined_text(u1: Seq<char>, p1: Seq<char>, u2: Seq<char>, p2: Seq<char>)
    requires
        u1 + p1 == u2 + p2,
    ensures
        login_hash(u1, p1) == login_hash(u2, p2),
{
    law_login_hash_of_name_then_password(u1, p1);
    law_login_hash_of_name_then_password(u2, p2);
}

/// The bytes of a login: the user name, the password, the version, the
/// hash of the user name followed by the password, and the minor version.
pub proof fn law_login_bytes(username: String, password: String, version: u32, minor_version: u32)
    ensures
        ({
            let r = ServerRequest::Login { username, password, version, minor_version };
            frame_u32(r@.0, encode_fields(r@.1)) == frame_u32(
                1,
                framed_text(username@) + framed_text(password@) + le_bytes(version as nat, 4) + framed_text(
                    hex_lower(md5_of(encode_utf8(username@ + password@))),
                ) + le_bytes(minor_version as nat, 4),
            )
        }),
{
    reveal_with_fuel(super::fields::encode_fields_from, 6);
    law_login_hash_of_name_then_password(username@, password@);
    let r = ServerRequest::Login { username, password, version, minor_version };
    assert(encode_fields(r@.1) =~= framed_text(username@) + framed_text(password@) + le_bytes(version as nat, 4)
        + framed_text(hex_lower(md5_of(encode_utf8(username@ + password@)))) + le_bytes(minor_version as nat, 4));
}

/// The counts reported to the server: the number of folders first, then
/// the number of files.
pub proof fn law_shared_counts_bytes(folders: u32, files: u32)
    ensures
        ({
            let r = ServerRequest::SharedFoldersFiles { folders, files };
            frame_u32(r@.0, encode_fields(r@.1)) == frame_u32(35, le_bytes(folders as nat, 4) + le_bytes(files as nat, 4))
        }),
{
    reveal_with_fuel(super::fields::encode_fields_from, 3);
    let r = ServerRequest::SharedFoldersFiles { folders, files };
    assert(encode_fields(r@.1) =~= le_bytes(folders as nat, 4) + le_bytes(files as nat, 4));
}

/// A wishlist search: the token, then the search term as a length and its
/// bytes.
pub proof fn law_wishlist_search_bytes(token: u32, search_term: String)
    ensures
        ({
            let r = ServerRequest::WishlistSearch { token, search_term };
            frame_u32(r@.0, encode_fields(r@.1)) == frame_u32(
                103,
                le_bytes(token as nat, 4) + le_bytes((encode_utf8(search_term@).len() as u32) as nat, 4)
                    + encode_utf8(search_term@),
            )
        }),
{
    reveal_with_fuel(super::fields::encode_fields_from, 3);
    let r = ServerRequest::WishlistSearch { token, search_term };
    assert(encode_fields(r@.1) =~= le_bytes(token as nat, 4) + le_bytes(
        (encode_utf8(search_term@).len() as u32) as nat,
        4,
    ) + encode_utf8(search_term@));
}

/// A wishlist search carries what a file search carries, in the same
/// order; only the message code differs.
pub proof fn law_wishlist_search_is_laid_out_as_file_search(token: u32, search_term: String)
    ensures
        encode_fields(ServerRequest::WishlistSearch { token, search_term }@.1) == encode_fields(
            ServerRequest::FileSearch { token, search_term }@.1,
        ),
{
    reveal_with_fuel(super::fields::encode_fields_from, 3);
    assert(encode_fields(ServerRequest::WishlistSearch { token, search_term }@.1) =~= le_bytes(token as nat, 4)
        + framed_text(search_term@));
    assert(encode_fields(ServerRequest::FileSearch { token, search_term }@.1) =~= le_bytes(token as nat, 4)
        + framed_text(search_term@));
}

} // verus!
