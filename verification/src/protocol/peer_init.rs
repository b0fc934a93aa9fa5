//! First message on an incoming peer connection: who is connecting and for
//! what, or the token of a connection we asked for.
use vstd::prelude::*;
use vstd::utf8::encode_utf8;

use super::fields::{
    encode_fields, fields_readable, kinds_of, law_fields_prefix_roundtrip, law_fields_roundtrip,
    lemma_encode_fields_push, sp_fields, Field, Kind,
};
use super::wire::{MessageReader, MessageWriter, ProtocolError};
use super::{frame_u8, frame_with_u8_code};
use crate::types::{connection_type_name, ConnectionType};

verus! {

#[derive(Debug, Clone, PartialEq, Eq)]
pub enum PeerInitMessage {
    PierceFireWall { token: u32 },
    PeerInit { username: String, conn_type: ConnectionType },
}

/// The connection type named by a string, if any.
pub open spec fn connection_type_named(name: Seq<char>) -> Option<ConnectionType> {
    if name == connection_type_name(ConnectionType::Peer) {
        Some(ConnectionType::Peer)
    } else if name == connection_type_name(ConnectionType::File) {
        Some(ConnectionType::File)
    } else if name == connection_type_name(ConnectionType::Distributed) {
        Some(ConnectionType::Distributed)
    } else {
        None
    }
}

pub open spec fn text_of(f: Field) -> Seq<char> {
    match f {
        Field::Text(s) => s,
        _ => Seq::empty(),
    }
}

impl View for PeerInitMessage {
    /// The message code and the values the message carries.
    type V = (u8, Seq<Field>);

    open spec fn view(&self) -> (u8, Seq<Field>) {
        match self {
            PeerInitMessage::PierceFireWall { token } => (0, seq![Field::U32(*token)]),
            PeerInitMessage::PeerInit { username, conn_type } => (
                1,
                seq![Field::Text(username@), Field::Text(connection_type_name(*conn_type))],
            ),
        }
    }
}

/// What `parse` returns for a code and payload.
pub open spec fn peer_init_parsed(
    code: u8,
    payload: Seq<u8>,
    res: Result<PeerInitMessage, ProtocolError>,
) -> bool {
    if code == 0 {
        match sp_fields(seq![Kind::U32], payload, 0) {
            Ok((fs, _)) => res matches Ok(m) && m@ == (0u8, fs),
            Err((e, _)) => res == Err::<PeerInitMessage, ProtocolError>(e),
        }
    } else if code == 1 {
        match sp_fields(seq![Kind::Text, Kind::Text], payload, 0) {
            Ok((fs, _)) => match connection_type_named(text_of(fs[1])) {
                Some(_) => res matches Ok(m) && m@ == (1u8, fs),
                None => res matches Err(ProtocolError::InvalidConnectionType { value }) && value@
                    == text_of(fs[1]),
            },
            Err((e, _)) => res == Err::<PeerInitMessage, ProtocolError>(e),
        }
    } else {
        res matches Err(ProtocolError::UnknownMessageCode { family, code: c }) && family@
            == "peer_init"@ && c == code as u32
    }
}

/// The payload `write_payload` writes: the carried values, and for a
/// `PeerInit` a trailing zero token.
pub open spec fn peer_init_payload(m: PeerInitMessage) -> Seq<u8> {
    match m {
        PeerInitMessage::PierceFireWall { .. } => encode_fields(m@.1),
        PeerInitMessage::PeerInit { .. } => encode_fields(m@.1.push(Field::U32(0))),
    }
}

impl PeerInitMessage {
    pub open spec fn spec_code(&self) -> u8 {
        self@.0
    }

    #[verifier::when_used_as_spec(spec_code)]
    pub fn code(&self) -> (c: u8)
        ensures
            c == self@.0,
    {
        match self {
            Self::PierceFireWall { .. } => 0,
            Self::PeerInit { .. } => 1,
        }
    }

    pub fn write_payload(&self, w: &mut MessageWriter)
        ensures
            final(w)@ == old(w)@ + peer_init_payload(*self),
    {
        match self {
            Self::PierceFireWall { token } => w.write_u32(*token),
            Self::PeerInit { username, conn_type } => {
                w.write_string(username);
                w.write_string(conn_type.as_str());
                w.write_u32(0);
            },
        }
        proof {
            reveal_with_fuel(super::fields::encode_fields_from, 4);
            assert(final(w)@ =~= old(w)@ + peer_init_payload(*self));
        }
    }

    pub fn parse(code: u8, payload: &[u8]) -> (res: Result<Self, ProtocolError>)
        ensures
            peer_init_parsed(code, payload@, res),
    {
        proof {
            reveal_with_fuel(super::fields::sp_fields_from, 3);
            reveal_strlit("peer_init");
        }
        let mut r = MessageReader::new(payload);
        match code {
            0 => {
                let token = r.read_u32()?;
                Ok(Self::PierceFireWall { token })
            },
            1 => {
                let username = r.read_string()?;
                let name = r.read_string()?;
                let conn_type = ConnectionType::from_str_value(name.as_str())?;
                proof {
                    assert(connection_type_name(conn_type) == name@);
                    assert(connection_type_named(name@) == Some(conn_type));
                    let ghost fs = sp_fields(seq![Kind::Text, Kind::Text], payload@, 0);
                    assert(fs->Ok_0.0 == seq![Field::Text(username@), Field::Text(name@)]);
                }
                Ok(Self::PeerInit { username, conn_type })
            },
            _ => {
                Err(ProtocolError::UnknownMessageCode { family: "peer_init", code: code as u32 })
            },
        }
    }

    pub fn to_bytes(&self) -> (bytes: Vec<u8>)
        requires
            peer_init_payload(*self).len() < u32::MAX,
        ensures
            bytes@ == frame_u8(self@.0, peer_init_payload(*self)),
    {
        let mut w = MessageWriter::new();
        self.write_payload(&mut w);
        let payload = w.into_bytes();
        frame_with_u8_code(self.code(), payload.as_slice())
    }
}

/// A peer-init message whose strings fit their length prefixes reads back
/// as the message that was written.
pub proof fn law_peer_init_roundtrip(m: PeerInitMessage, res: Result<PeerInitMessage, ProtocolError>)
    requires
        fields_readable(m@.1),
        peer_init_parsed(m@.0, peer_init_payload(m), res),
    ensures
        res matches Ok(x) && x@ == m@,
{
    let payload = peer_init_payload(m);
    match m {
        PeerInitMessage::PierceFireWall { token } => {
            assert(payload.subrange(0, payload.len() as int) =~= payload);
            law_fields_roundtrip(m@.1, payload, 0);
            assert(kinds_of(m@.1) =~= seq![Kind::U32]);
        },
        PeerInitMessage::PeerInit { username, conn_type } => {
            let fs = m@.1;
            lemma_encode_fields_push(fs, Field::U32(0));
            assert(payload.subrange(0, encode_fields(fs).len() as int) =~= encode_fields(fs));
            law_fields_prefix_roundtrip(fs, payload);
            assert(kinds_of(fs) =~= seq![Kind::Text, Kind::Text]);
            assert(text_of(fs[1]) == connection_type_name(conn_type));
        },
    }
}

} // verus!
