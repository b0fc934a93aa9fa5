//! Messages the server sends to this client.
//!
//! Most responses are a fixed sequence of fields, read by the layout of
//! their code; the others are read by functions of their own in
//! `records` and `lists`.
use vstd::prelude::*;

use super::fields::{sp_fields, Field, Kind};
use super::wire::{strings_view, Decoded, MessageReader, ProtocolError};
use crate::types::{Recommendations, SimilarUser, UserData, UserStats};

pub mod lists;
pub mod records;
pub mod shapes;

use lists::{
    sp_item_recommendations, sp_join_room, sp_parents_message, sp_recommendations_message,
    sp_related_search, sp_room_list, sp_similar_message, sp_tickers_message, sp_user_list,
};
use records::{
    sp_embedded, sp_login, sp_peer_address, sp_user_joined, sp_user_stats_message, sp_watch_user,
};

verus! {

/// The answer to a login.
#[derive(Debug, Clone, PartialEq, Eq)]
pub enum LoginOutcome {
    Success { banner: String, ip_address: u32, is_supporter: bool },
    Failure { reason: String, detail: Option<String> },
}

/// A client offered as parent in the distributed network.
#[derive(Debug, Clone, PartialEq, Eq)]
pub struct ParentCandidate {
    pub username: String,
    pub ip_address: u32,
    pub port: u32,
}

#[derive(Debug, Clone, PartialEq)]
pub enum ServerResponse {
    Login(LoginOutcome),
    GetPeerAddress { user: String, ip_address: u32, port: u32, obfuscation_type: u32, obfuscated_port: u16 },
    WatchUser { user: String, user_exists: bool, status: Option<u32>, stats: Option<UserStats>, country: Option<String> },
    GetUserStatus { user: String, status: u32, privileged: bool },
    IgnoreUser { user: String },
    UnignoreUser { user: String },
    SayChatroom { room: String, user: String, message: String },
    JoinRoom { room: String, users: Vec<UserData>, owner: Option<String>, operators: Vec<String> },
    LeaveRoom { room: String },
    UserJoinedRoom { room: String, userdata: UserData },
    UserLeftRoom { room: String, username: String },
    ConnectToPeer { user: String, conn_type: String, ip_address: u32, port: u32, token: u32, privileged: bool, obfuscation_type: u32, obfuscated_port: u32 },
    MessageUser { message_id: u32, timestamp: u32, user: String, message: String, is_new_message: bool },
    FileSearch { search_username: String, token: u32, search_term: String },
    ServerPing,
    SendConnectToken { user: String, token: u32 },
    GetUserStats { user: String, stats: UserStats },
    UploadSlotsFull { user: String, slotsfull: u32 },
    Relogged,
    SimilarRecommendations { recommendation: String, similar_recommendations: Vec<String> },
    Recommendations { recommendations: Recommendations, unrecommendations: Recommendations },
    MyRecommendations { my_recommendations: Vec<String> },
    GlobalRecommendations { recommendations: Recommendations, unrecommendations: Recommendations },
    UserInterests { user: String, likes: Vec<String>, hates: Vec<String> },
    PlaceInLineRequest { user: String, token: u32 },
    PlaceInLineResponse { user: String, token: u32, place: u32 },
    RoomAdded { room: String },
    RoomRemoved { room: String },
    RoomList { rooms: Vec<(String, u32)>, rooms_owner: Vec<(String, u32)>, rooms_member: Vec<(String, u32)>, rooms_operator: Vec<String> },
    ExactFileSearch { user: String, token: u32, file: String, folder: String, size: u64, checksum: u32 },
    AdminMessage { msg: String },
    GlobalUserList { users: Vec<UserData> },
    TunneledMessage { user: String, code: u32, token: u32, ip_address: u32, port: u32, msg: String },
    PrivilegedUsers { users: Vec<String> },
    ParentMinSpeed { speed: u32 },
    ParentSpeedRatio { ratio: u32 },
    ParentInactivityTimeout { seconds: u32 },
    SearchInactivityTimeout { seconds: u32 },
    MinParentsInCache { num: u32 },
    DistribPingInterval { seconds: u32 },
    AddToPrivileged { user: String },
    CheckPrivileges { seconds: u32 },
    EmbeddedMessage { distrib_code: u8, distrib_message: Vec<u8> },
    PossibleParents { parents: Vec<ParentCandidate> },
    WishlistInterval { seconds: u32 },
    SimilarUsers { users: Vec<SimilarUser> },
    ItemRecommendations { thing: String, recommendations: Recommendations, unrecommendations: Recommendations },
    ItemSimilarUsers { thing: String, usernames: Vec<String> },
    RoomTickers { room: String, tickers: Vec<(String, String)> },
    RoomTickerAdded { room: String, user: String, msg: String },
    RoomTickerRemoved { room: String, user: String },
    UserPrivileged { user: String, privileged: bool },
    NotifyPrivileges { token: u32, user: String },
    AckNotifyPrivileges { token: u32 },
    ResetDistributed,
    RoomMembers { room: String, members: Vec<String> },
    AddRoomMember { room: String, user: String },
    RemoveRoomMember { room: String, user: String },
    RoomSomething { room: String },
    RoomMembershipGranted { room: String },
    RoomMembershipRevoked { room: String },
    EnableRoomInvitations { enabled: bool },
    ChangePassword { password: String },
    AddRoomOperator { room: String, user: String },
    RemoveRoomOperator { room: String, user: String },
    RoomOperatorshipGranted { room: String },
    RoomOperatorshipRevoked { room: String },
    RoomOperators { room: String, operators: Vec<String> },
    GlobalRoomMessage { room: String, user: String, message: String },
    RelatedSearch { query: String, terms: Vec<(String, u32)> },
    ExcludedSearchPhrases { phrases: Vec<String> },
    CantConnectToPeer { token: u32 },
    CantCreateRoom { room: String },
}

// ---------------------------------------------------------------------
// The values a response carries
// ---------------------------------------------------------------------

pub open spec fn opt_num(o: Option<u32>) -> Field {
    match o {
        Some(n) => Field::U32(n),
        None => Field::Absent,
    }
}

pub open spec fn opt_text(o: Option<String>) -> Field {
    match o {
        Some(s) => Field::Text(s@),
        None => Field::Absent,
    }
}

/// Statistics: average speed, uploads, an unknown number, files, folders.
pub open spec fn stats_field(s: UserStats) -> Field {
    Field::Record(
        seq![
            Field::U32(s.avgspeed),
            Field::U32(s.uploadnum),
            Field::U32(s.unknown),
            Field::U32(s.files),
            Field::U32(s.dirs),
        ],
    )
}

pub open spec fn opt_stats(o: Option<UserStats>) -> Field {
    match o {
        Some(s) => stats_field(s),
        None => Field::Absent,
    }
}

/// A user: name, status, statistics, full slots, country when known.
pub open spec fn user_field(u: UserData) -> Field {
    Field::Record(
        seq![
            Field::Text(u.username@),
            Field::U32(u.status),
            stats_field(u.stats),
            Field::U32(u.slotsfull),
            opt_text(u.country),
        ],
    )
}

pub open spec fn user_fields(v: Seq<UserData>) -> Seq<Field> {
    v.map_values(|u: UserData| user_field(u))
}

pub open spec fn users_field(v: Seq<UserData>) -> Field {
    Field::List(user_fields(v))
}

pub open spec fn texts_field(v: Seq<String>) -> Field {
    Field::TextList(strings_view(v))
}

/// Names with signed ratings.
pub open spec fn rated_field(v: Seq<(Seq<char>, i32)>) -> Field {
    Field::List(
        v.map_values(
            |p: (Seq<char>, i32)| Field::Record(seq![Field::Text(p.0), Field::I32(p.1)]),
        ),
    )
}

/// Names with counts.
pub open spec fn counted_field(v: Seq<(Seq<char>, u32)>) -> Field {
    Field::List(
        v.map_values(
            |p: (Seq<char>, u32)| Field::Record(seq![Field::Text(p.0), Field::U32(p.1)]),
        ),
    )
}

pub open spec fn recs_view(v: Seq<(String, i32)>) -> Seq<(Seq<char>, i32)> {
    v.map_values(|p: (String, i32)| (p.0@, p.1))
}

pub open spec fn recs_field(v: Seq<(String, i32)>) -> Field {
    rated_field(recs_view(v))
}

pub open spec fn counts_view(v: Seq<(String, u32)>) -> Seq<(Seq<char>, u32)> {
    v.map_values(|p: (String, u32)| (p.0@, p.1))
}

pub open spec fn counts_field(v: Seq<(String, u32)>) -> Field {
    counted_field(counts_view(v))
}

pub open spec fn tickers_view(v: Seq<(String, String)>) -> Seq<Field> {
    v.map_values(
        |p: (String, String)| Field::Record(seq![Field::Text(p.0@), Field::Text(p.1@)]),
    )
}

pub open spec fn tickers_field(v: Seq<(String, String)>) -> Field {
    Field::List(tickers_view(v))
}

pub open spec fn parent_field(p: ParentCandidate) -> Field {
    Field::Record(seq![Field::Text(p.username@), Field::U32(p.ip_address), Field::U32(p.port)])
}

pub open spec fn parents_view(v: Seq<ParentCandidate>) -> Seq<Field> {
    v.map_values(|p: ParentCandidate| parent_field(p))
}

pub open spec fn parents_field(v: Seq<ParentCandidate>) -> Field {
    Field::List(parents_view(v))
}

pub open spec fn similar_view(v: Seq<SimilarUser>) -> Seq<(Seq<char>, u32)> {
    v.map_values(|u: SimilarUser| (u.username@, u.rating))
}

pub open spec fn similar_field(v: Seq<SimilarUser>) -> Field {
    counted_field(similar_view(v))
}

/// A successful login: the flag, the banner, the address the server sees
/// and whether the user is a supporter; a failed one: the flag, the reason
/// and a detail when one was sent.
pub open spec fn login_fields(o: LoginOutcome) -> Seq<Field> {
    match o {
        LoginOutcome::Success { banner, ip_address, is_supporter } => seq![
            Field::Bool(true),
            Field::Text(banner@),
            Field::U32(ip_address),
            Field::Bool(is_supporter),
        ],
        LoginOutcome::Failure { reason, detail } => seq![
            Field::Bool(false),
            Field::Text(reason@),
            opt_text(detail),
        ],
    }
}

impl View for ServerResponse {
    /// The message code and the values the response carries.
    type V = (u32, Seq<Field>);

    open spec fn view(&self) -> (u32, Seq<Field>) {
        match self {
            ServerResponse::Login(outcome) => (1, login_fields(*outcome)),
            ServerResponse::GetPeerAddress { user, ip_address, port, obfuscation_type, obfuscated_port } => (3, seq![Field::Text(user@), Field::U32(*ip_address), Field::U32(*port), Field::U32(*obfuscation_type), Field::U16(*obfuscated_port)]),
            ServerResponse::WatchUser { user, user_exists, status, stats, country } => (5, seq![Field::Text(user@), Field::Bool(*user_exists), opt_num(*status), opt_stats(*stats), opt_text(*country)]),
            ServerResponse::GetUserStatus { user, status, privileged } => (7, seq![Field::Text(user@), Field::U32(*status), Field::Bool(*privileged)]),
            ServerResponse::IgnoreUser { user } => (11, seq![Field::Text(user@)]),
            ServerResponse::UnignoreUser { user } => (12, seq![Field::Text(user@)]),
            ServerResponse::SayChatroom { room, user, message } => (13, seq![Field::Text(room@), Field::Text(user@), Field::Text(message@)]),
            ServerResponse::JoinRoom { room, users, owner, operators } => (14, seq![Field::Text(room@), users_field(users@), opt_text(*owner), texts_field(operators@)]),
            ServerResponse::LeaveRoom { room } => (15, seq![Field::Text(room@)]),
            ServerResponse::UserJoinedRoom { room, userdata } => (16, seq![Field::Text(room@), user_field(*userdata)]),
            ServerResponse::UserLeftRoom { room, username } => (17, seq![Field::Text(room@), Field::Text(username@)]),
            ServerResponse::ConnectToPeer { user, conn_type, ip_address, port, token, privileged, obfuscation_type, obfuscated_port } => (18, seq![Field::Text(user@), Field::Text(conn_type@), Field::U32(*ip_address), Field::U32(*port), Field::U32(*token), Field::Bool(*privileged), Field::U32(*obfuscation_type), Field::U32(*obfuscated_port)]),
            ServerResponse::MessageUser { message_id, timestamp, user, message, is_new_message } => (22, seq![Field::U32(*message_id), Field::U32(*timestamp), Field::Text(user@), Field::Text(message@), Field::Bool(*is_new_message)]),
            ServerResponse::FileSearch { search_username, token, search_term } => (26, seq![Field::Text(search_username@), Field::U32(*token), Field::Text(search_term@)]),
            ServerResponse::ServerPing => (32, seq![]),
            ServerResponse::SendConnectToken { user, token } => (33, seq![Field::Text(user@), Field::U32(*token)]),
            ServerResponse::GetUserStats { user, stats } => (36, seq![Field::Text(user@), stats_field(*stats)]),
            ServerResponse::UploadSlotsFull { user, slotsfull } => (40, seq![Field::Text(user@), Field::U32(*slotsfull)]),
            ServerResponse::Relogged => (41, seq![]),
            ServerResponse::SimilarRecommendations { recommendation, similar_recommendations } => (50, seq![Field::Text(recommendation@), texts_field(similar_recommendations@)]),
            ServerResponse::Recommendations { recommendations, unrecommendations } => (54, seq![recs_field(recommendations@), recs_field(unrecommendations@)]),
            ServerResponse::MyRecommendations { my_recommendations } => (55, seq![texts_field(my_recommendations@)]),
            ServerResponse::GlobalRecommendations { recommendations, unrecommendations } => (56, seq![recs_field(recommendations@), recs_field(unrecommendations@)]),
            ServerResponse::UserInterests { user, likes, hates } => (57, seq![Field::Text(user@), texts_field(likes@), texts_field(hates@)]),
            ServerResponse::PlaceInLineRequest { user, token } => (59, seq![Field::Text(user@), Field::U32(*token)]),
            ServerResponse::PlaceInLineResponse { user, token, place } => (60, seq![Field::Text(user@), Field::U32(*token), Field::U32(*place)]),
            ServerResponse::RoomAdded { room } => (62, seq![Field::Text(room@)]),
            ServerResponse::RoomRemoved { room } => (63, seq![Field::Text(room@)]),
            ServerResponse::RoomList { rooms, rooms_owner, rooms_member, rooms_operator } => (64, seq![counts_field(rooms@), counts_field(rooms_owner@), counts_field(rooms_member@), texts_field(rooms_operator@)]),
            ServerResponse::ExactFileSearch { user, token, file, folder, size, checksum } => (65, seq![Field::Text(user@), Field::U32(*token), Field::Text(file@), Field::Text(folder@), Field::U64(*size), Field::U32(*checksum)]),
            ServerResponse::AdminMessage { msg } => (66, seq![Field::Text(msg@)]),
            ServerResponse::GlobalUserList { users } => (67, seq![users_field(users@)]),
            ServerResponse::TunneledMessage { user, code, token, ip_address, port, msg } => (68, seq![Field::Text(user@), Field::U32(*code), Field::U32(*token), Field::U32(*ip_address), Field::U32(*port), Field::Text(msg@)]),
            ServerResponse::PrivilegedUsers { users } => (69, seq![texts_field(users@)]),
            ServerResponse::ParentMinSpeed { speed } => (83, seq![Field::U32(*speed)]),
            ServerResponse::ParentSpeedRatio { ratio } => (84, seq![Field::U32(*ratio)]),
            ServerResponse::ParentInactivityTimeout { seconds } => (86, seq![Field::U32(*seconds)]),
            ServerResponse::SearchInactivityTimeout { seconds } => (87, seq![Field::U32(*seconds)]),
            ServerResponse::MinParentsInCache { num } => (88, seq![Field::U32(*num)]),
            ServerResponse::DistribPingInterval { seconds } => (90, seq![Field::U32(*seconds)]),
            ServerResponse::AddToPrivileged { user } => (91, seq![Field::Text(user@)]),
            ServerResponse::CheckPrivileges { seconds } => (92, seq![Field::U32(*seconds)]),
            ServerResponse::EmbeddedMessage { distrib_code, distrib_message } => (93, seq![Field::U8(*distrib_code), Field::Raw(distrib_message@)]),
            ServerResponse::PossibleParents { parents } => (102, seq![parents_field(parents@)]),
            ServerResponse::WishlistInterval { seconds } => (104, seq![Field::U32(*seconds)]),
            ServerResponse::SimilarUsers { users } => (110, seq![similar_field(users@)]),
            ServerResponse::ItemRecommendations { thing, recommendations, unrecommendations } => (111, seq![Field::Text(thing@), recs_field(recommendations@), recs_field(unrecommendations@)]),
            ServerResponse::ItemSimilarUsers { thing, usernames } => (112, seq![Field::Text(thing@), texts_field(usernames@)]),
            ServerResponse::RoomTickers { room, tickers } => (113, seq![Field::Text(room@), tickers_field(tickers@)]),
            ServerResponse::RoomTickerAdded { room, user, msg } => (114, seq![Field::Text(room@), Field::Text(user@), Field::Text(msg@)]),
            ServerResponse::RoomTickerRemoved { room, user } => (115, seq![Field::Text(room@), Field::Text(user@)]),
            ServerResponse::UserPrivileged { user, privileged } => (122, seq![Field::Text(user@), Field::Bool(*privileged)]),
            ServerResponse::NotifyPrivileges { token, user } => (124, seq![Field::U32(*token), Field::Text(user@)]),
            ServerResponse::AckNotifyPrivileges { token } => (125, seq![Field::U32(*token)]),
            ServerResponse::ResetDistributed => (130, seq![]),
            ServerResponse::RoomMembers { room, members } => (133, seq![Field::Text(room@), texts_field(members@)]),
            ServerResponse::AddRoomMember { room, user } => (134, seq![Field::Text(room@), Field::Text(user@)]),
            ServerResponse::RemoveRoomMember { room, user } => (135, seq![Field::Text(room@), Field::Text(user@)]),
            ServerResponse::RoomSomething { room } => (138, seq![Field::Text(room@)]),
            ServerResponse::RoomMembershipGranted { room } => (139, seq![Field::Text(room@)]),
            ServerResponse::RoomMembershipRevoked { room } => (140, seq![Field::Text(room@)]),
            ServerResponse::EnableRoomInvitations { enabled } => (141, seq![Field::Bool(*enabled)]),
            ServerResponse::ChangePassword { password } => (142, seq![Field::Text(password@)]),
            ServerResponse::AddRoomOperator { room, user } => (143, seq![Field::Text(room@), Field::Text(user@)]),
            ServerResponse::RemoveRoomOperator { room, user } => (144, seq![Field::Text(room@), Field::Text(user@)]),
            ServerResponse::RoomOperatorshipGranted { room } => (145, seq![Field::Text(room@)]),
            ServerResponse::RoomOperatorshipRevoked { room } => (146, seq![Field::Text(room@)]),
            ServerResponse::RoomOperators { room, operators } => (148, seq![Field::Text(room@), texts_field(operators@)]),
            ServerResponse::GlobalRoomMessage { room, user, message } => (152, seq![Field::Text(room@), Field::Text(user@), Field::Text(message@)]),
            ServerResponse::RelatedSearch { query, terms } => (153, seq![Field::Text(query@), counts_field(terms@)]),
            ServerResponse::ExcludedSearchPhrases { phrases } => (160, seq![texts_field(phrases@)]),
            ServerResponse::CantConnectToPeer { token } => (1001, seq![Field::U32(*token)]),
            ServerResponse::CantCreateRoom { room } => (1003, seq![Field::Text(room@)]),
        }
    }
}

// ---------------------------------------------------------------------
// Reading
// ---------------------------------------------------------------------

/// Why a response does not read: a protocol error, or an entry given for
/// a user or room beyond the ones listed.
pub enum Failure {
    Protocol(ProtocolError),
    UserIndex(u64),
    RoomIndex(u64),
}

/// Outcome of reading at a position: the value and the position after it,
/// or why reading failed.
pub type Step<T> = Result<(T, int), Failure>;

pub open spec fn step<T>(d: Decoded<T>) -> Step<T> {
    match d {
        Ok(x) => Ok(x),
        Err((e, _)) => Err(Failure::Protocol(e)),
    }
}

/// The error `e` is the one the failure describes.
pub open spec fn fails_as(e: ProtocolError, f: Failure) -> bool {
    match f {
        Failure::Protocol(x) => e == x,
        Failure::UserIndex(i) => e matches ProtocolError::InvalidValue { field, value } && field@
            == "user_index"@ && value == i,
        Failure::RoomIndex(i) => e matches ProtocolError::InvalidValue { field, value } && field@
            == "room_index"@ && value == i,
    }
}

/// Field kinds of the responses that are plain field sequences.
pub open spec fn server_layout(code: u32) -> Option<Seq<Kind>> {
    match code {
        7 => Some(seq![Kind::Text, Kind::U32, Kind::Bool]),
        11 => Some(seq![Kind::Text]),
        12 => Some(seq![Kind::Text]),
        13 => Some(seq![Kind::Text, Kind::Text, Kind::Text]),
        15 => Some(seq![Kind::Text]),
        17 => Some(seq![Kind::Text, Kind::Text]),
        18 => Some(seq![Kind::Text, Kind::Text, Kind::U32, Kind::U32, Kind::U32, Kind::Bool, Kind::U32, Kind::U32]),
        22 => Some(seq![Kind::U32, Kind::U32, Kind::Text, Kind::Text, Kind::Bool]),
        26 => Some(seq![Kind::Text, Kind::U32, Kind::Text]),
        32 => Some(seq![]),
        33 => Some(seq![Kind::Text, Kind::U32]),
        40 => Some(seq![Kind::Text, Kind::U32]),
        41 => Some(seq![]),
        50 => Some(seq![Kind::Text, Kind::TextList]),
        55 => Some(seq![Kind::TextList]),
        57 => Some(seq![Kind::Text, Kind::TextList, Kind::TextList]),
        59 => Some(seq![Kind::Text, Kind::U32]),
        60 => Some(seq![Kind::Text, Kind::U32, Kind::U32]),
        62 => Some(seq![Kind::Text]),
        63 => Some(seq![Kind::Text]),
        65 => Some(seq![Kind::Text, Kind::U32, Kind::Text, Kind::Text, Kind::U64, Kind::U32]),
        66 => Some(seq![Kind::Text]),
        68 => Some(seq![Kind::Text, Kind::U32, Kind::U32, Kind::U32, Kind::U32, Kind::Text]),
        69 => Some(seq![Kind::TextList]),
        83 => Some(seq![Kind::U32]),
        84 => Some(seq![Kind::U32]),
        86 => Some(seq![Kind::U32]),
        87 => Some(seq![Kind::U32]),
        88 => Some(seq![Kind::U32]),
        90 => Some(seq![Kind::U32]),
        91 => Some(seq![Kind::Text]),
        92 => Some(seq![Kind::U32]),
        104 => Some(seq![Kind::U32]),
        112 => Some(seq![Kind::Text, Kind::TextList]),
        114 => Some(seq![Kind::Text, Kind::Text, Kind::Text]),
        115 => Some(seq![Kind::Text, Kind::Text]),
        122 => Some(seq![Kind::Text, Kind::Bool]),
        124 => Some(seq![Kind::U32, Kind::Text]),
        125 => Some(seq![Kind::U32]),
        130 => Some(seq![]),
        133 => Some(seq![Kind::Text, Kind::TextList]),
        134 => Some(seq![Kind::Text, Kind::Text]),
        135 => Some(seq![Kind::Text, Kind::Text]),
        138 => Some(seq![Kind::Text]),
        139 => Some(seq![Kind::Text]),
        140 => Some(seq![Kind::Text]),
        141 => Some(seq![Kind::Bool]),
        142 => Some(seq![Kind::Text]),
        143 => Some(seq![Kind::Text, Kind::Text]),
        144 => Some(seq![Kind::Text, Kind::Text]),
        145 => Some(seq![Kind::Text]),
        146 => Some(seq![Kind::Text]),
        148 => Some(seq![Kind::Text, Kind::TextList]),
        152 => Some(seq![Kind::Text, Kind::Text, Kind::Text]),
        160 => Some(seq![Kind::TextList]),
        1001 => Some(seq![Kind::U32]),
        1003 => Some(seq![Kind::Text]),
        _ => None,
    }
}

/// Responses read by functions of their own.
pub open spec fn server_special(code: u32) -> bool {
    code == 1 || code == 3 || code == 5 || code == 14 || code == 16 || code == 36 || code == 54
        || code == 56 || code == 64 || code == 67 || code == 93 || code == 102 || code == 110
        || code == 111 || code == 113 || code == 153
}

/// The values of a response read by a function of its own.
pub open spec fn sp_special(code: u32, data: Seq<u8>) -> Step<Seq<Field>> {
    if code == 1 {
        sp_login(data)
    } else if code == 3 {
        sp_peer_address(data)
    } else if code == 5 {
        sp_watch_user(data)
    } else if code == 14 {
        sp_join_room(data)
    } else if code == 16 {
        sp_user_joined(data)
    } else if code == 36 {
        sp_user_stats_message(data)
    } else if code == 54 || code == 56 {
        sp_recommendations_message(data)
    } else if code == 64 {
        sp_room_list(data)
    } else if code == 67 {
        sp_user_list(data)
    } else if code == 93 {
        sp_embedded(data)
    } else if code == 102 {
        sp_parents_message(data)
    } else if code == 110 {
        sp_similar_message(data)
    } else if code == 111 {
        sp_item_recommendations(data)
    } else if code == 113 {
        sp_tickers_message(data)
    } else {
        sp_related_search(data)
    }
}

/// `res` is what the reading describes.
pub open spec fn server_result(
    res: Result<ServerResponse, ProtocolError>,
    code: u32,
    st: Step<Seq<Field>>,
) -> bool {
    match st {
        Ok((fs, _)) => res matches Ok(m) && m@ == (code, fs),
        Err(f) => res matches Err(e) && fails_as(e, f),
    }
}

/// What `parse` returns for a code and payload.
pub open spec fn server_parsed(
    code: u32,
    payload: Seq<u8>,
    res: Result<ServerResponse, ProtocolError>,
) -> bool {
    match server_layout(code) {
        Some(kinds) => match sp_fields(kinds, payload, 0) {
            Ok((fs, _)) => res matches Ok(m) && m@ == (code, fs),
            Err((e, _)) => res == Err::<ServerResponse, ProtocolError>(e),
        },
        None => if server_special(code) {
            server_result(res, code, sp_special(code, payload))
        } else {
            res matches Err(ProtocolError::UnknownMessageCode { family, code: c }) && family@
                == "server"@ && c == code
        },
    }
}

impl ServerResponse {
    #[verifier::spinoff_prover]
    #[verifier::rlimit(100)]
    pub fn parse(code: u32, payload: &[u8]) -> (res: Result<Self, ProtocolError>)
        ensures
            server_parsed(code, payload@, res),
    {
        proof {
            reveal_strlit("server");
        }
        match code {
            1 => records::parse_login(payload),
            3 => records::parse_peer_address(payload),
            5 => records::parse_watch_user(payload),
            7 => {
                let (user, status, privileged) = shapes::read_tub(payload)?;
                Ok(Self::GetUserStatus { user, status, privileged })
            },
            11 => {
                let user = shapes::read_t(payload)?;
                Ok(Self::IgnoreUser { user })
            },
            12 => {
                let user = shapes::read_t(payload)?;
                Ok(Self::UnignoreUser { user })
            },
            13 => {
                let (room, user, message) = shapes::read_ttt(payload)?;
                Ok(Self::SayChatroom { room, user, message })
            },
            14 => lists::parse_join_room(payload),
            15 => {
                let room = shapes::read_t(payload)?;
                Ok(Self::LeaveRoom { room })
            },
            16 => records::parse_user_joined(payload),
            17 => {
                let (room, username) = shapes::read_tt(payload)?;
                Ok(Self::UserLeftRoom { room, username })
            },
            18 => shapes::parse_connecttopeer(payload),
            22 => shapes::parse_messageuser(payload),
            26 => {
                let (search_username, token, search_term) = shapes::read_tut(payload)?;
                Ok(Self::FileSearch { search_username, token, search_term })
            },
            32 => Ok(Self::ServerPing),
            33 => {
                let (user, token) = shapes::read_tu(payload)?;
                Ok(Self::SendConnectToken { user, token })
            },
            36 => records::parse_user_stats_message(payload),
            40 => {
                let (user, slotsfull) = shapes::read_tu(payload)?;
                Ok(Self::UploadSlotsFull { user, slotsfull })
            },
            41 => Ok(Self::Relogged),
            50 => {
                let (recommendation, similar_recommendations) = shapes::read_tl(payload)?;
                Ok(Self::SimilarRecommendations { recommendation, similar_recommendations })
            },
            54 => lists::parse_recommendations(code, payload),
            55 => {
                let my_recommendations = shapes::read_l(payload)?;
                Ok(Self::MyRecommendations { my_recommendations })
            },
            56 => lists::parse_recommendations(code, payload),
            57 => {
                let (user, likes, hates) = shapes::read_tll(payload)?;
                Ok(Self::UserInterests { user, likes, hates })
            },
            59 => {
                let (user, token) = shapes::read_tu(payload)?;
                Ok(Self::PlaceInLineRequest { user, token })
            },
            60 => {
                let (user, token, place) = shapes::read_tuu(payload)?;
                Ok(Self::PlaceInLineResponse { user, token, place })
            },
            62 => {
                let room = shapes::read_t(payload)?;
                Ok(Self::RoomAdded { room })
            },
            63 => {
                let room = shapes::read_t(payload)?;
                Ok(Self::RoomRemoved { room })
            },
            64 => lists::parse_room_list(payload),
            65 => shapes::parse_exactfilesearch(payload),
            66 => {
                let msg = shapes::read_t(payload)?;
                Ok(Self::AdminMessage { msg })
            },
            67 => lists::parse_user_list(payload),
            68 => shapes::parse_tunneledmessage(payload),
            69 => {
                let users = shapes::read_l(payload)?;
                Ok(Self::PrivilegedUsers { users })
            },
            83 => {
                let speed = shapes::read_u(payload)?;
                Ok(Self::ParentMinSpeed { speed })
            },
            84 => {
                let ratio = shapes::read_u(payload)?;
                Ok(Self::ParentSpeedRatio { ratio })
            },
            86 => {
                let seconds = shapes::read_u(payload)?;
                Ok(Self::ParentInactivityTimeout { seconds })
            },
            87 => {
                let seconds = shapes::read_u(payload)?;
                Ok(Self::SearchInactivityTimeout { seconds })
            },
            88 => {
                let num = shapes::read_u(payload)?;
                Ok(Self::MinParentsInCache { num })
            },
            90 => {
                let seconds = shapes::read_u(payload)?;
                Ok(Self::DistribPingInterval { seconds })
            },
            91 => {
                let user = shapes::read_t(payload)?;
                Ok(Self::AddToPrivileged { user })
            },
            92 => {
                let seconds = shapes::read_u(payload)?;
                Ok(Self::CheckPrivileges { seconds })
            },
            93 => records::parse_embedded(payload),
            102 => lists::parse_parents(payload),
            104 => {
                let seconds = shapes::read_u(payload)?;
                Ok(Self::WishlistInterval { seconds })
            },
            110 => lists::parse_similar_users(payload),
            111 => lists::parse_item_recommendations(payload),
            112 => {
                let (thing, usernames) = shapes::read_tl(payload)?;
                Ok(Self::ItemSimilarUsers { thing, usernames })
            },
            113 => lists::parse_tickers(payload),
            114 => {
                let (room, user, msg) = shapes::read_ttt(payload)?;
                Ok(Self::RoomTickerAdded { room, user, msg })
            },
            115 => {
                let (room, user) = shapes::read_tt(payload)?;
                Ok(Self::RoomTickerRemoved { room, user })
            },
            122 => {
                let (user, privileged) = shapes::read_tb(payload)?;
                Ok(Self::UserPrivileged { user, privileged })
            },
            124 => {
                let (token, user) = shapes::read_ut(payload)?;
                Ok(Self::NotifyPrivileges { token, user })
            },
            125 => {
                let token = shapes::read_u(payload)?;
                Ok(Self::AckNotifyPrivileges { token })
            },
            130 => Ok(Self::ResetDistributed),
            133 => {
                let (room, members) = shapes::read_tl(payload)?;
                Ok(Self::RoomMembers { room, members })
            },
            134 => {
                let (room, user) = shapes::read_tt(payload)?;
                Ok(Self::AddRoomMember { room, user })
            },
            135 => {
                let (room, user) = shapes::read_tt(payload)?;
                Ok(Self::RemoveRoomMember { room, user })
            },
            138 => {
                let room = shapes::read_t(payload)?;
                Ok(Self::RoomSomething { room })
            },
            139 => {
                let room = shapes::read_t(payload)?;
                Ok(Self::RoomMembershipGranted { room })
            },
            140 => {
                let room = shapes::read_t(payload)?;
                Ok(Self::RoomMembershipRevoked { room })
            },
            141 => {
                let enabled = shapes::read_b(payload)?;
                Ok(Self::EnableRoomInvitations { enabled })
            },
            142 => {
                let password = shapes::read_t(payload)?;
                Ok(Self::ChangePassword { password })
            },
            143 => {
                let (room, user) = shapes::read_tt(payload)?;
                Ok(Self::AddRoomOperator { room, user })
            },
            144 => {
                let (room, user) = shapes::read_tt(payload)?;
                Ok(Self::RemoveRoomOperator { room, user })
            },
            145 => {
                let room = shapes::read_t(payload)?;
                Ok(Self::RoomOperatorshipGranted { room })
            },
            146 => {
                let room = shapes::read_t(payload)?;
                Ok(Self::RoomOperatorshipRevoked { room })
            },
            148 => {
                let (room, operators) = shapes::read_tl(payload)?;
                Ok(Self::RoomOperators { room, operators })
            },
            152 => {
                let (room, user, message) = shapes::read_ttt(payload)?;
                Ok(Self::GlobalRoomMessage { room, user, message })
            },
            153 => lists::parse_related_search(payload),
            160 => {
                let phrases = shapes::read_l(payload)?;
                Ok(Self::ExcludedSearchPhrases { phrases })
            },
            1001 => {
                let token = shapes::read_u(payload)?;
                Ok(Self::CantConnectToPeer { token })
            },
            1003 => {
                let room = shapes::read_t(payload)?;
                Ok(Self::CantCreateRoom { room })
            },
            _ => Err(ProtocolError::UnknownMessageCode { family: "server", code }),
        }
    }
}

} // verus!
