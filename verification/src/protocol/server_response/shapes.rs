//! Readers for the responses that are plain field sequences, one per
//! sequence of field kinds.
use vstd::prelude::*;

use super::super::fields::{sp_fields, sp_fields_from, Field, Kind};
use super::super::wire::{strings_view, MessageReader, ProtocolError};
use super::ServerResponse;

verus! {

/// Reads the fields `T`.
pub fn read_t(data: &[u8]) -> (res: Result<String, ProtocolError>)
    ensures
        match sp_fields(seq![Kind::Text], data@, 0) {
            Ok((fs, _)) => res matches Ok(x) && fs == seq![Field::Text(x@)],
            Err((e, _)) => res == Err::<String, ProtocolError>(e),
        },
{
    proof {
        reveal_with_fuel(sp_fields_from, 2);
    }
    let mut r = MessageReader::new(data);
    r.read_string()
}

/// Reads the fields `U`.
pub fn read_u(data: &[u8]) -> (res: Result<u32, ProtocolError>)
    ensures
        match sp_fields(seq![Kind::U32], data@, 0) {
            Ok((fs, _)) => res matches Ok(x) && fs == seq![Field::U32(x)],
            Err((e, _)) => res == Err::<u32, ProtocolError>(e),
        },
{
    proof {
        reveal_with_fuel(sp_fields_from, 2);
    }
    let mut r = MessageReader::new(data);
    r.read_u32()
}

/// Reads the fields `B`.
pub fn read_b(data: &[u8]) -> (res: Result<bool, ProtocolError>)
    ensures
        match sp_fields(seq![Kind::Bool], data@, 0) {
            Ok((fs, _)) => res matches Ok(x) && fs == seq![Field::Bool(x)],
            Err((e, _)) => res == Err::<bool, ProtocolError>(e),
        },
{
    proof {
        reveal_with_fuel(sp_fields_from, 2);
    }
    let mut r = MessageReader::new(data);
    r.read_bool()
}

/// Reads the fields `TT`.
pub fn read_tt(data: &[u8]) -> (res: Result<(String, String), ProtocolError>)
    ensures
        match sp_fields(seq![Kind::Text, Kind::Text], data@, 0) {
            Ok((fs, _)) => res matches Ok(x) && fs == seq![Field::Text(x.0@), Field::Text(x.1@)],
            Err((e, _)) => res == Err::<(String, String), ProtocolError>(e),
        },
{
    proof {
        reveal_with_fuel(sp_fields_from, 3);
    }
    let mut r = MessageReader::new(data);
    let v0 = r.read_string()?;
    let v1 = r.read_string()?;
    Ok((v0, v1))
}

/// Reads the fields `TTT`.
pub fn read_ttt(data: &[u8]) -> (res: Result<(String, String, String), ProtocolError>)
    ensures
        match sp_fields(seq![Kind::Text, Kind::Text, Kind::Text], data@, 0) {
            Ok((fs, _)) => res matches Ok(x) && fs == seq![Field::Text(x.0@), Field::Text(x.1@), Field::Text(x.2@)],
            Err((e, _)) => res == Err::<(String, String, String), ProtocolError>(e),
        },
{
    proof {
        reveal_with_fuel(sp_fields_from, 4);
    }
    let mut r = MessageReader::new(data);
    let v0 = r.read_string()?;
    let v1 = r.read_string()?;
    let v2 = r.read_string()?;
    Ok((v0, v1, v2))
}

/// Reads the fields `TU`.
pub fn read_tu(data: &[u8]) -> (res: Result<(String, u32), ProtocolError>)
    ensures
        match sp_fields(seq![Kind::Text, Kind::U32], data@, 0) {
            Ok((fs, _)) => res matches Ok(x) && fs == seq![Field::Text(x.0@), Field::U32(x.1)],
            Err((e, _)) => res == Err::<(String, u32), ProtocolError>(e),
        },
{
    proof {
        reveal_with_fuel(sp_fields_from, 3);
    }
    let mut r = MessageReader::new(data);
    let v0 = r.read_string()?;
    let v1 = r.read_u32()?;
    Ok((v0, v1))
}

/// Reads the fields `TUU`.
pub fn read_tuu(data: &[u8]) -> (res: Result<(String, u32, u32), ProtocolError>)
    ensures
        match sp_fields(seq![Kind::Text, Kind::U32, Kind::U32], data@, 0) {
            Ok((fs, _)) => res matches Ok(x) && fs == seq![Field::Text(x.0@), Field::U32(x.1), Field::U32(x.2)],
            Err((e, _)) => res == Err::<(String, u32, u32), ProtocolError>(e),
        },
{
    proof {
        reveal_with_fuel(sp_fields_from, 4);
    }
    let mut r = MessageReader::new(data);
    let v0 = r.read_string()?;
    let v1 = r.read_u32()?;
    let v2 = r.read_u32()?;
    Ok((v0, v1, v2))
}

/// Reads the fields `TUB`.
pub fn read_tub(data: &[u8]) -> (res: Result<(String, u32, bool), ProtocolError>)
    ensures
        match sp_fields(seq![Kind::Text, Kind::U32, Kind::Bool], data@, 0) {
            Ok((fs, _)) => res matches Ok(x) && fs == seq![Field::Text(x.0@), Field::U32(x.1), Field::Bool(x.2)],
            Err((e, _)) => res == Err::<(String, u32, bool), ProtocolError>(e),
        },
{
    proof {
        reveal_with_fuel(sp_fields_from, 4);
    }
    let mut r = MessageReader::new(data);
    let v0 = r.read_string()?;
    let v1 = r.read_u32()?;
    let v2 = r.read_bool()?;
    Ok((v0, v1, v2))
}

/// Reads the fields `TB`.
pub fn read_tb(data: &[u8]) -> (res: Result<(String, bool), ProtocolError>)
    ensures
        match sp_fields(seq![Kind::Text, Kind::Bool], data@, 0) {
            Ok((fs, _)) => res matches Ok(x) && fs == seq![Field::Text(x.0@), Field::Bool(x.1)],
            Err((e, _)) => res == Err::<(String, bool), ProtocolError>(e),
        },
{
    proof {
        reveal_with_fuel(sp_fields_from, 3);
    }
    let mut r = MessageReader::new(data);
    let v0 = r.read_string()?;
    let v1 = r.read_bool()?;
    Ok((v0, v1))
}

/// Reads the fields `UT`.
pub fn read_ut(data: &[u8]) -> (res: Result<(u32, String), ProtocolError>)
    ensures
        match sp_fields(seq![Kind::U32, Kind::Text], data@, 0) {
            Ok((fs, _)) => res matches Ok(x) && fs == seq![Field::U32(x.0), Field::Text(x.1@)],
            Err((e, _)) => res == Err::<(u32, String), ProtocolError>(e),
        },
{
    proof {
        reveal_with_fuel(sp_fields_from, 3);
    }
    let mut r = MessageReader::new(data);
    let v0 = r.read_u32()?;
    let v1 = r.read_string()?;
    Ok((v0, v1))
}

/// Reads the fields `TL`.
pub fn read_tl(data: &[u8]) -> (res: Result<(String, Vec<String>), ProtocolError>)
    ensures
        match sp_fields(seq![Kind::Text, Kind::TextList], data@, 0) {
            Ok((fs, _)) => res matches Ok(x) && fs == seq![Field::Text(x.0@), Field::TextList(strings_view(x.1@))],
            Err((e, _)) => res == Err::<(String, Vec<String>), ProtocolError>(e),
        },
{
    proof {
        reveal_with_fuel(sp_fields_from, 3);
    }
    let mut r = MessageReader::new(data);
    let v0 = r.read_string()?;
    let v1 = r.read_string_list()?;
    Ok((v0, v1))
}

/// Reads the fields `L`.
pub fn read_l(data: &[u8]) -> (res: Result<Vec<String>, ProtocolError>)
    ensures
        match sp_fields(seq![Kind::TextList], data@, 0) {
            Ok((fs, _)) => res matches Ok(x) && fs == seq![Field::TextList(strings_view(x@))],
            Err((e, _)) => res == Err::<Vec<String>, ProtocolError>(e),
        },
{
    proof {
        reveal_with_fuel(sp_fields_from, 2);
    }
    let mut r = MessageReader::new(data);
    r.read_string_list()
}

/// Reads the fields `TLL`.
pub fn read_tll(data: &[u8]) -> (res: Result<(String, Vec<String>, Vec<String>), ProtocolError>)
    ensures
        match sp_fields(seq![Kind::Text, Kind::TextList, Kind::TextList], data@, 0) {
            Ok((fs, _)) => res matches Ok(x) && fs == seq![Field::Text(x.0@), Field::TextList(strings_view(x.1@)), Field::TextList(strings_view(x.2@))],
            Err((e, _)) => res == Err::<(String, Vec<String>, Vec<String>), ProtocolError>(e),
        },
{
    proof {
        reveal_with_fuel(sp_fields_from, 4);
    }
    let mut r = MessageReader::new(data);
    let v0 = r.read_string()?;
    let v1 = r.read_string_list()?;
    let v2 = r.read_string_list()?;
    Ok((v0, v1, v2))
}

/// Reads the fields `TUT`.
pub fn read_tut(data: &[u8]) -> (res: Result<(String, u32, String), ProtocolError>)
    ensures
        match sp_fields(seq![Kind::Text, Kind::U32, Kind::Text], data@, 0) {
            Ok((fs, _)) => res matches Ok(x) && fs == seq![Field::Text(x.0@), Field::U32(x.1), Field::Text(x.2@)],
            Err((e, _)) => res == Err::<(String, u32, String), ProtocolError>(e),
        },
{
    proof {
        reveal_with_fuel(sp_fields_from, 4);
    }
    let mut r = MessageReader::new(data);
    let v0 = r.read_string()?;
    let v1 = r.read_u32()?;
    let v2 = r.read_string()?;
    Ok((v0, v1, v2))
}

pub fn parse_connecttopeer(data: &[u8]) -> (res: Result<ServerResponse, ProtocolError>)
    ensures
        match sp_fields(seq![Kind::Text, Kind::Text, Kind::U32, Kind::U32, Kind::U32, Kind::Bool, Kind::U32, Kind::U32], data@, 0) {
            Ok((fs, _)) => res matches Ok(m) && m@ == (18u32, fs),
            Err((e, _)) => res == Err::<ServerResponse, ProtocolError>(e),
        },
{
    proof {
        reveal_with_fuel(sp_fields_from, 9);
    }
    let mut r = MessageReader::new(data);
    let user = r.read_string()?;
    let conn_type = r.read_string()?;
    let ip_address = r.read_ip()?;
    let port = r.read_u32()?;
    let token = r.read_u32()?;
    let privileged = r.read_bool()?;
    let obfuscation_type = r.read_u32()?;
    let obfuscated_port = r.read_u32()?;
    Ok(ServerResponse::ConnectToPeer { user, conn_type, ip_address, port, token, privileged, obfuscation_type, obfuscated_port })
}

pub fn parse_messageuser(data: &[u8]) -> (res: Result<ServerResponse, ProtocolError>)
    ensures
        match sp_fields(seq![Kind::U32, Kind::U32, Kind::Text, Kind::Text, Kind::Bool], data@, 0) {
            Ok((fs, _)) => res matches Ok(m) && m@ == (22u32, fs),
            Err((e, _)) => res == Err::<ServerResponse, ProtocolError>(e),
        },
{
    proof {
        reveal_with_fuel(sp_fields_from, 6);
    }
    let mut r = MessageReader::new(data);
    let message_id = r.read_u32()?;
    let timestamp = r.read_u32()?;
    let user = r.read_string()?;
    let message = r.read_string()?;
    let is_new_message = r.read_bool()?;
    Ok(ServerResponse::MessageUser { message_id, timestamp, user, message, is_new_message })
}

pub fn parse_exactfilesearch(data: &[u8]) -> (res: Result<ServerResponse, ProtocolError>)
    ensures
        match sp_fields(seq![Kind::Text, Kind::U32, Kind::Text, Kind::Text, Kind::U64, Kind::U32], data@, 0) {
            Ok((fs, _)) => res matches Ok(m) && m@ == (65u32, fs),
            Err((e, _)) => res == Err::<ServerResponse, ProtocolError>(e),
        },
{
    proof {
        reveal_with_fuel(sp_fields_from, 7);
    }
    let mut r = MessageReader::new(data);
    let user = r.read_string()?;
    let token = r.read_u32()?;
    let file = r.read_string()?;
    let folder = r.read_string()?;
    let size = r.read_u64()?;
    let checksum = r.read_u32()?;
    Ok(ServerResponse::ExactFileSearch { user, token, file, folder, size, checksum })
}

pub fn parse_tunneledmessage(data: &[u8]) -> (res: Result<ServerResponse, ProtocolError>)
    ensures
        match sp_fields(seq![Kind::Text, Kind::U32, Kind::U32, Kind::U32, Kind::U32, Kind::Text], data@, 0) {
            Ok((fs, _)) => res matches Ok(m) && m@ == (68u32, fs),
            Err((e, _)) => res == Err::<ServerResponse, ProtocolError>(e),
        },
{
    proof {
        reveal_with_fuel(sp_fields_from, 7);
    }
    let mut r = MessageReader::new(data);
    let user = r.read_string()?;
    let code = r.read_u32()?;
    let token = r.read_u32()?;
    let ip_address = r.read_ip()?;
    let port = r.read_u32()?;
    let msg = r.read_string()?;
    Ok(ServerResponse::TunneledMessage { user, code, token, ip_address, port, msg })
}

} // verus!
