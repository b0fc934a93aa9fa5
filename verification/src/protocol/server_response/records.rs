//! Responses whose fields depend on one another: a login, a watched user,
//! statistics, peer addresses and embedded distributed messages.
use vstd::prelude::*;

use super::super::fields::Field;
use super::super::wire::{
    sp_bool, sp_string, sp_u16_padded, sp_u32, sp_u8, Decoded, MessageReader, ProtocolError,
};
use super::{
    server_result, stats_field, step, user_field, LoginOutcome, ServerResponse, Step,
};
use crate::types::{UserData, UserStats};

verus! {

/// Statistics: five numbers.
pub open spec fn sp_stats(data: Seq<u8>, pos: int) -> Decoded<Field> {
    match sp_u32(data, pos) {
        Err(e) => Err(e),
        Ok((a, p1)) => match sp_u32(data, p1) {
            Err(e) => Err(e),
            Ok((b, p2)) => match sp_u32(data, p2) {
                Err(e) => Err(e),
                Ok((c, p3)) => match sp_u32(data, p3) {
                    Err(e) => Err(e),
                    Ok((d, p4)) => match sp_u32(data, p4) {
                        Err(e) => Err(e),
                        Ok((f, p5)) => Ok(
                            (
                                Field::Record(
                                    seq![
                                        Field::U32(a),
                                        Field::U32(b),
                                        Field::U32(c),
                                        Field::U32(d),
                                        Field::U32(f),
                                    ],
                                ),
                                p5,
                            ),
                        ),
                    },
                },
            },
        },
    }
}

pub fn read_user_stats(r: &mut MessageReader) -> (res: Result<UserStats, ProtocolError>)
    requires
        old(r).wf(),
    ensures
        final(r).wf(),
        final(r).data() == old(r).data(),
        match sp_stats(old(r).data(), old(r).pos()) {
            Ok((f, q)) => (res matches Ok(s) && stats_field(s) == f) && final(r).pos() == q,
            Err((e, q)) => res == Err::<UserStats, ProtocolError>(e) && final(r).pos() == q,
        },
{
    let avgspeed = r.read_u32()?;
    let uploadnum = r.read_u32()?;
    let unknown = r.read_u32()?;
    let files = r.read_u32()?;
    let dirs = r.read_u32()?;
    Ok(UserStats { avgspeed, uploadnum, unknown, files, dirs })
}

/// A login answer: a success flag, then the banner, address, a checksum
/// that is skipped and the supporter flag; or the reason and an optional
/// detail.
pub open spec fn sp_login(data: Seq<u8>) -> Step<Seq<Field>> {
    match step(sp_bool(data, 0)) {
        Err(f) => Err(f),
        Ok((success, p1)) => if !success {
            match step(sp_string(data, p1)) {
                Err(f) => Err(f),
                Ok((reason, p2)) => if p2 < data.len() {
                    match step(sp_string(data, p2)) {
                        Err(f) => Err(f),
                        Ok((detail, p3)) => Ok(
                            (seq![Field::Bool(false), Field::Text(reason), Field::Text(detail)], p3),
                        ),
                    }
                } else {
                    Ok((seq![Field::Bool(false), Field::Text(reason), Field::Absent], p2))
                },
            }
        } else {
            match step(sp_string(data, p1)) {
                Err(f) => Err(f),
                Ok((banner, p2)) => match step(sp_u32(data, p2)) {
                    Err(f) => Err(f),
                    Ok((ip, p3)) => match step(sp_string(data, p3)) {
                        Err(f) => Err(f),
                        Ok((_, p4)) => match step(sp_bool(data, p4)) {
                            Err(f) => Err(f),
                            Ok((supporter, p5)) => Ok(
                                (
                                    seq![
                                        Field::Bool(true),
                                        Field::Text(banner),
                                        Field::U32(ip),
                                        Field::Bool(supporter),
                                    ],
                                    p5,
                                ),
                            ),
                        },
                    },
                },
            }
        },
    }
}

pub fn parse_login(payload: &[u8]) -> (res: Result<ServerResponse, ProtocolError>)
    ensures
        server_result(res, 1, sp_login(payload@)),
{
    let mut r = MessageReader::new(payload);
    let success = r.read_bool()?;
    if !success {
        let reason = r.read_string()?;
        let detail = if r.has_remaining() {
            Some(r.read_string()?)
        } else {
            None
        };
        Ok(ServerResponse::Login(LoginOutcome::Failure { reason, detail }))
    } else {
        let banner = r.read_string()?;
        let ip_address = r.read_ip()?;
        let _checksum = r.read_string()?;
        let is_supporter = r.read_bool()?;
        Ok(ServerResponse::Login(LoginOutcome::Success { banner, ip_address, is_supporter }))
    }
}

/// A peer address: user, address, port, obfuscation type and port.
pub open spec fn sp_peer_address(data: Seq<u8>) -> Step<Seq<Field>> {
    match step(sp_string(data, 0)) {
        Err(f) => Err(f),
        Ok((user, p1)) => match step(sp_u32(data, p1)) {
            Err(f) => Err(f),
            Ok((ip, p2)) => match step(sp_u32(data, p2)) {
                Err(f) => Err(f),
                Ok((port, p3)) => match step(sp_u32(data, p3)) {
                    Err(f) => Err(f),
                    Ok((obfuscation, p4)) => match step(sp_u16_padded(data, p4)) {
                        Err(f) => Err(f),
                        Ok((obfuscated_port, p5)) => Ok(
                            (
                                seq![
                                    Field::Text(user),
                                    Field::U32(ip),
                                    Field::U32(port),
                                    Field::U32(obfuscation),
                                    Field::U16(obfuscated_port),
                                ],
                                p5,
                            ),
                        ),
                    },
                },
            },
        },
    }
}

pub fn parse_peer_address(payload: &[u8]) -> (res: Result<ServerResponse, ProtocolError>)
    ensures
        server_result(res, 3, sp_peer_address(payload@)),
{
    let mut r = MessageReader::new(payload);
    let user = r.read_string()?;
    let ip_address = r.read_ip()?;
    let port = r.read_u32()?;
    let obfuscation_type = r.read_u32()?;
    let obfuscated_port = r.read_u16_padded()?;
    Ok(ServerResponse::GetPeerAddress { user, ip_address, port, obfuscation_type, obfuscated_port })
}

/// A watched user: the name and whether the user exists; for one that
/// does, the status, statistics and the country when it was sent.
pub open spec fn sp_watch_user(data: Seq<u8>) -> Step<Seq<Field>> {
    match step(sp_string(data, 0)) {
        Err(f) => Err(f),
        Ok((user, p1)) => match step(sp_bool(data, p1)) {
            Err(f) => Err(f),
            Ok((exists, p2)) => if !exists {
                Ok(
                    (
                        seq![
                            Field::Text(user),
                            Field::Bool(false),
                            Field::Absent,
                            Field::Absent,
                            Field::Absent,
                        ],
                        p2,
                    ),
                )
            } else {
                match step(sp_u32(data, p2)) {
                    Err(f) => Err(f),
                    Ok((status, p3)) => match step(sp_stats(data, p3)) {
                        Err(f) => Err(f),
                        Ok((stats, p4)) => if p4 < data.len() {
                            match step(sp_string(data, p4)) {
                                Err(f) => Err(f),
                                Ok((country, p5)) => Ok(
                                    (
                                        seq![
                                            Field::Text(user),
                                            Field::Bool(true),
                                            Field::U32(status),
                                            stats,
                                            Field::Text(country),
                                        ],
                                        p5,
                                    ),
                                ),
                            }
                        } else {
                            Ok(
                                (
                                    seq![
                                        Field::Text(user),
                                        Field::Bool(true),
                                        Field::U32(status),
                                        stats,
                                        Field::Absent,
                                    ],
                                    p4,
                                ),
                            )
                        },
                    },
                }
            },
        },
    }
}

pub fn parse_watch_user(payload: &[u8]) -> (res: Result<ServerResponse, ProtocolError>)
    ensures
        server_result(res, 5, sp_watch_user(payload@)),
{
    let mut r = MessageReader::new(payload);
    let user = r.read_string()?;
    let user_exists = r.read_bool()?;
    if !user_exists {
        Ok(ServerResponse::WatchUser { user, user_exists, status: None, stats: None, country: None })
    } else {
        let status = r.read_u32()?;
        let stats = read_user_stats(&mut r)?;
        let country = if r.has_remaining() {
            Some(r.read_string()?)
        } else {
            None
        };
        Ok(
            ServerResponse::WatchUser {
                user,
                user_exists,
                status: Some(status),
                stats: Some(stats),
                country,
            },
        )
    }
}

/// A user joining a room: the room, then the user's name, status,
/// statistics, full slots and country.
pub open spec fn sp_user_joined(data: Seq<u8>) -> Step<Seq<Field>> {
    match step(sp_string(data, 0)) {
        Err(f) => Err(f),
        Ok((room, p1)) => match step(sp_string(data, p1)) {
            Err(f) => Err(f),
            Ok((name, p2)) => match step(sp_u32(data, p2)) {
                Err(f) => Err(f),
                Ok((status, p3)) => match step(sp_stats(data, p3)) {
                    Err(f) => Err(f),
                    Ok((stats, p4)) => match step(sp_u32(data, p4)) {
                        Err(f) => Err(f),
                        Ok((slots, p5)) => match step(sp_string(data, p5)) {
                            Err(f) => Err(f),
                            Ok((country, p6)) => Ok(
                                (
                                    seq![
                                        Field::Text(room),
                                        Field::Record(
                                            seq![
                                                Field::Text(name),
                                                Field::U32(status),
                                                stats,
                                                Field::U32(slots),
                                                Field::Text(country),
                                            ],
                                        ),
                                    ],
                                    p6,
                                ),
                            ),
                        },
                    },
                },
            },
        },
    }
}

pub fn parse_user_joined(payload: &[u8]) -> (res: Result<ServerResponse, ProtocolError>)
    ensures
        server_result(res, 16, sp_user_joined(payload@)),
{
    let mut r = MessageReader::new(payload);
    let room = r.read_string()?;
    let username = r.read_string()?;
    let status = r.read_u32()?;
    let stats = read_user_stats(&mut r)?;
    let slotsfull = r.read_u32()?;
    let country = r.read_string()?;
    let userdata = UserData { username, status, stats, slotsfull, country: Some(country) };
    proof {
        assert(user_field(userdata) == Field::Record(
            seq![
                Field::Text(userdata.username@),
                Field::U32(status),
                stats_field(stats),
                Field::U32(slotsfull),
                Field::Text(country@),
            ],
        ));
    }
    Ok(ServerResponse::UserJoinedRoom { room, userdata })
}

/// A user's statistics: the name, then the statistics.
pub open spec fn sp_user_stats_message(data: Seq<u8>) -> Step<Seq<Field>> {
    match step(sp_string(data, 0)) {
        Err(f) => Err(f),
        Ok((user, p1)) => match step(sp_stats(data, p1)) {
            Err(f) => Err(f),
            Ok((stats, p2)) => Ok((seq![Field::Text(user), stats], p2)),
        },
    }
}

pub fn parse_user_stats_message(payload: &[u8]) -> (res: Result<ServerResponse, ProtocolError>)
    ensures
        server_result(res, 36, sp_user_stats_message(payload@)),
{
    let mut r = MessageReader::new(payload);
    let user = r.read_string()?;
    let stats = read_user_stats(&mut r)?;
    Ok(ServerResponse::GetUserStats { user, stats })
}

/// An embedded distributed message: its one-byte code, then the rest of
/// the payload.
pub open spec fn sp_embedded(data: Seq<u8>) -> Step<Seq<Field>> {
    match step(sp_u8(data, 0)) {
        Err(f) => Err(f),
        Ok((code, p1)) => Ok(
            (
                seq![Field::U8(code), Field::Raw(data.subrange(p1, data.len() as int))],
                data.len() as int,
            ),
        ),
    }
}

pub fn parse_embedded(payload: &[u8]) -> (res: Result<ServerResponse, ProtocolError>)
    ensures
        server_result(res, 93, sp_embedded(payload@)),
{
    let mut r = MessageReader::new(payload);
    proof {
        reveal(super::super::wire::sp_u8);
    }
    let distrib_code = r.read_u8()?;
    let rest = r.rest();
    Ok(
        ServerResponse::EmbeddedMessage {
            distrib_code,
            distrib_message: vstd::slice::slice_to_vec(rest),
        },
    )
}

} // verus!
