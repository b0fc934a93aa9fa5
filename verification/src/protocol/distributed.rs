//! Messages of the distributed search network, exchanged with the parent
//! and children of this client in the search tree.
use vstd::prelude::*;

use super::fields::{
    encode_fields, fields_readable, kinds_of, law_fields_prefix_roundtrip, sp_fields, Field, Kind,
};
use super::wire::{eof_error, MessageReader, MessageWriter, ProtocolError};
use super::{frame_u8, frame_with_u8_code};

verus! {

#[derive(Debug, Clone, PartialEq, Eq)]
pub enum DistributedMessage {
    Ping,
    Search { identifier: u32, search_username: String, token: u32, search_term: String },
    BranchLevel { level: i32 },
    BranchRoot { root_username: String },
    ChildDepth { value: u32 },
    EmbeddedMessage { distrib_code: u8, distrib_message: Vec<u8> },
}

impl View for DistributedMessage {
    /// The message code and the values the message carries.
    type V = (u8, Seq<Field>);

    open spec fn view(&self) -> (u8, Seq<Field>) {
        match self {
            DistributedMessage::Ping => (0, seq![]),
            DistributedMessage::Search { identifier, search_username, token, search_term } => (
                3,
                seq![
                    Field::U32(*identifier),
                    Field::Text(search_username@),
                    Field::U32(*token),
                    Field::Text(search_term@),
                ],
            ),
            DistributedMessage::BranchLevel { level } => (4, seq![Field::I32(*level)]),
            DistributedMessage::BranchRoot { root_username } => (
                5,
                seq![Field::Text(root_username@)],
            ),
            DistributedMessage::ChildDepth { value } => (7, seq![Field::U32(*value)]),
            DistributedMessage::EmbeddedMessage { distrib_code, distrib_message } => (
                93,
                seq![Field::U8(*distrib_code), Field::Raw(distrib_message@)],
            ),
        }
    }
}

/// Field kinds of the messages that are plain field sequences.
pub open spec fn distributed_layout(code: u8) -> Option<Seq<Kind>> {
    if code == 0 {
        Some(seq![])
    } else if code == 3 {
        Some(seq![Kind::U32, Kind::Text, Kind::U32, Kind::Text])
    } else if code == 4 {
        Some(seq![Kind::I32])
    } else if code == 5 {
        Some(seq![Kind::Text])
    } else if code == 7 {
        Some(seq![Kind::U32])
    } else {
        None
    }
}

/// Where the embedded code stands: some senders put three zero bytes before it.
pub open spec fn embedded_start(payload: Seq<u8>) -> int {
    if payload.len() >= 3 && payload[0] == 0 && payload[1] == 0 && payload[2] == 0 {
        3
    } else {
        0
    }
}

/// What `parse` returns for a code and payload.
pub open spec fn distributed_parsed(
    code: u8,
    payload: Seq<u8>,
    res: Result<DistributedMessage, ProtocolError>,
) -> bool {
    match distributed_layout(code) {
        Some(kinds) => match sp_fields(kinds, payload, 0) {
            Ok((fs, _)) => res matches Ok(m) && m@ == (code, fs),
            Err((e, _)) => res == Err::<DistributedMessage, ProtocolError>(e),
        },
        None => if code == 93 {
            let start = embedded_start(payload);
            if start < payload.len() {
                res matches Ok(m) && m@ == (
                    93u8,
                    seq![
                        Field::U8(payload[start]),
                        Field::Raw(payload.subrange(start + 1, payload.len() as int)),
                    ],
                )
            } else {
                res == Err::<DistributedMessage, ProtocolError>(eof_error(payload, start, 1))
            }
        } else {
            res matches Err(ProtocolError::UnknownMessageCode { family, code: c }) && family@
                == "distributed"@ && c == code as u32
        },
    }
}

impl DistributedMessage {
    pub open spec fn spec_code(&self) -> u8 {
        self@.0
    }

    #[verifier::when_used_as_spec(spec_code)]
    pub fn code(&self) -> (c: u8)
        ensures
            c == self@.0,
    {
        match self {
            Self::Ping => 0,
            Self::Search { .. } => 3,
            Self::BranchLevel { .. } => 4,
            Self::BranchRoot { .. } => 5,
            Self::ChildDepth { .. } => 7,
            Self::EmbeddedMessage { .. } => 93,
        }
    }

    pub fn write_payload(&self, w: &mut MessageWriter)
        ensures
            final(w)@ == old(w)@ + encode_fields(self@.1),
    {
        match self {
            Self::Ping => {},
            Self::Search { identifier, search_username, token, search_term } => {
                w.write_u32(*identifier);
                w.write_string(search_username);
                w.write_u32(*token);
                w.write_string(search_term);
            },
            Self::BranchLevel { level } => w.write_i32(*level),
            Self::BranchRoot { root_username } => w.write_string(root_username),
            Self::ChildDepth { value } => w.write_u32(*value),
            Self::EmbeddedMessage { distrib_code, distrib_message } => {
                w.write_u8(*distrib_code);
                w.write_raw(distrib_message.as_slice());
            },
        }
        proof {
            reveal_with_fuel(super::fields::encode_fields_from, 5);
            assert(final(w)@ =~= old(w)@ + encode_fields(self@.1));
        }
    }

    pub fn parse(code: u8, payload: &[u8]) -> (res: Result<Self, ProtocolError>)
        ensures
            distributed_parsed(code, payload@, res),
    {
        proof {
            reveal_with_fuel(super::fields::sp_fields_from, 5);
            reveal_strlit("distributed");
        }
        let mut r = MessageReader::new(payload);
        match code {
            0 => Ok(Self::Ping),
            3 => {
                let identifier = r.read_u32()?;
                let search_username = r.read_string()?;
                let token = r.read_u32()?;
                let search_term = r.read_string()?;
                proof {
                    let ghost fs = sp_fields(distributed_layout(code).unwrap(), payload@, 0);
                    assert(fs->Ok_0.0 == seq![
                        Field::U32(identifier),
                        Field::Text(search_username@),
                        Field::U32(token),
                        Field::Text(search_term@),
                    ]);
                }
                Ok(Self::Search { identifier, search_username, token, search_term })
            },
            4 => {
                let level = r.read_i32()?;
                proof {
                    let ghost fs = sp_fields(distributed_layout(code).unwrap(), payload@, 0);
                    assert(fs->Ok_0.0 == seq![Field::I32(level)]);
                }
                Ok(Self::BranchLevel { level })
            },
            5 => {
                let root_username = r.read_string()?;
                proof {
                    let ghost fs = sp_fields(distributed_layout(code).unwrap(), payload@, 0);
                    assert(fs->Ok_0.0 == seq![Field::Text(root_username@)]);
                }
                Ok(Self::BranchRoot { root_username })
            },
            7 => {
                let value = r.read_u32()?;
                proof {
                    let ghost fs = sp_fields(distributed_layout(code).unwrap(), payload@, 0);
                    assert(fs->Ok_0.0 == seq![Field::U32(value)]);
                }
                Ok(Self::ChildDepth { value })
            },
            93 => {
                if payload.len() >= 3 && payload[0] == 0 && payload[1] == 0 && payload[2] == 0 {
                    r.skip(3)?;
                }
                proof {
                    reveal(super::wire::sp_u8);
                }
                let distrib_code = r.read_u8()?;
                let rest = r.rest();
                Ok(
                    Self::EmbeddedMessage {
                        distrib_code,
                        distrib_message: vstd::slice::slice_to_vec(rest),
                    },
                )
            },
            _ => Err(ProtocolError::UnknownMessageCode { family: "distributed", code: code as u32 }),
        }
    }

    pub fn to_bytes(&self) -> (bytes: Vec<u8>)
        requires
            encode_fields(self@.1).len() < u32::MAX,
        ensures
            bytes@ == frame_u8(self@.0, encode_fields(self@.1)),
    {
        let mut w = MessageWriter::new();
        self.write_payload(&mut w);
        let payload = w.into_bytes();
        frame_with_u8_code(self.code(), payload.as_slice())
    }
}

/// A distributed message other than an embedded one, whose strings fit
/// their length prefixes, reads back as the message that was written.
pub proof fn law_distributed_roundtrip(
    m: DistributedMessage,
    res: Result<DistributedMessage, ProtocolError>,
)
    requires
        !(m is EmbeddedMessage),
        fields_readable(m@.1),
        distributed_parsed(m@.0, encode_fields(m@.1), res),
    ensures
        res matches Ok(x) && x@ == m@,
{
    let payload = encode_fields(m@.1);
    assert(payload.subrange(0, payload.len() as int) =~= payload);
    law_fields_prefix_roundtrip(m@.1, payload);
    assert(kinds_of(m@.1) =~= distributed_layout(m@.0).unwrap());
}

/// An embedded message reads back as written, unless a zero code and a
/// body starting with two zero bytes look like the optional padding.
pub proof fn law_embedded_roundtrip(
    code: u8,
    body: Seq<u8>,
    res: Result<DistributedMessage, ProtocolError>,
)
    requires
        !(code == 0 && body.len() >= 2 && body[0] == 0 && body[1] == 0),
        distributed_parsed(93, encode_fields(seq![Field::U8(code), Field::Raw(body)]), res),
    ensures
        res matches Ok(x) && x@ == (93u8, seq![Field::U8(code), Field::Raw(body)]),
{
    reveal_with_fuel(super::fields::encode_fields_from, 3);
    let payload = encode_fields(seq![Field::U8(code), Field::Raw(body)]);
    assert(payload =~= seq![code] + body);
    assert(embedded_start(payload) == 0);
    assert(payload.subrange(1, payload.len() as int) =~= body);
}

} // verus!
