//! Plain data shared by the protocol and the client.
use vstd::prelude::*;

use crate::protocol::wire::ProtocolError;

verus! {

/// Audio attributes of a shared file; each is sent only when known.
#[derive(Debug, Clone, Copy, Default, PartialEq, Eq)]
pub struct FileAttributes {
    pub bitrate: Option<u32>,
    pub length: Option<u32>,
    pub vbr: Option<u32>,
    pub sample_rate: Option<u32>,
    pub bit_depth: Option<u32>,
}

impl FileAttributes {
    /// All attributes unknown.
    pub fn empty() -> (a: Self)
        ensures
            a.bitrate is None,
            a.length is None,
            a.vbr is None,
            a.sample_rate is None,
            a.bit_depth is None,
    {
        FileAttributes { bitrate: None, length: None, vbr: None, sample_rate: None, bit_depth: None }
    }
}

/// One file of a share listing or a search result.
#[derive(Debug, Clone, PartialEq, Eq)]
pub struct FileInfo {
    pub code: u8,
    pub name: String,
    pub size: u64,
    pub attributes: FileAttributes,
}

/// The files of one folder of a share listing.
#[derive(Debug, Clone, PartialEq, Eq)]
pub struct FolderContents {
    pub directory: String,
    pub files: Vec<FileInfo>,
}

/// Direction of a transfer, as the protocol numbers it.
#[derive(Debug, Clone, Copy, PartialEq, Eq, Structural)]
pub enum TransferDirection {
    Download,
    Upload,
}

impl TransferDirection {
    pub open spec fn spec_number(self) -> u32 {
        match self {
            TransferDirection::Download => 0,
            TransferDirection::Upload => 1,
        }
    }

    #[verifier::when_used_as_spec(spec_number)]
    pub fn as_u32(self) -> (n: u32)
        ensures
            n == self.spec_number(),
    {
        match self {
            TransferDirection::Download => 0,
            TransferDirection::Upload => 1,
        }
    }

    pub fn from_u32(value: u32) -> (d: Option<Self>)
        ensures
            value == 0 ==> d == Some(TransferDirection::Download),
            value == 1 ==> d == Some(TransferDirection::Upload),
            value > 1 ==> d is None,
    {
        match value {
            0 => Some(TransferDirection::Download),
            1 => Some(TransferDirection::Upload),
            _ => None,
        }
    }
}

/// Kind of a peer connection: messages, file data, or the distributed
/// search network.
#[derive(Debug, Clone, Copy, PartialEq, Eq, Structural)]
pub enum ConnectionType {
    Peer,
    File,
    Distributed,
}

/// The one-letter name of a connection type.
pub open spec fn connection_type_name(t: ConnectionType) -> Seq<char> {
    match t {
        ConnectionType::Peer => seq!['P'],
        ConnectionType::File => seq!['F'],
        ConnectionType::Distributed => seq!['D'],
    }
}

impl ConnectionType {
    pub fn as_str(self) -> (s: &'static str)
        ensures
            s@ == connection_type_name(self),
    {
        proof {
            reveal_strlit("P");
            reveal_strlit("F");
            reveal_strlit("D");
        }
        match self {
            ConnectionType::Peer => "P",
            ConnectionType::File => "F",
            ConnectionType::Distributed => "D",
        }
    }

    /// The connection type with the given name; any other name is refused.
    pub fn from_str_value(value: &str) -> (res: Result<Self, ProtocolError>)
        ensures
            value@ == seq!['P'] ==> res == Ok::<Self, ProtocolError>(ConnectionType::Peer),
            value@ == seq!['F'] ==> res == Ok::<Self, ProtocolError>(ConnectionType::File),
            value@ == seq!['D'] ==> res == Ok::<Self, ProtocolError>(ConnectionType::Distributed),
            value@ != seq!['P'] && value@ != seq!['F'] && value@ != seq!['D'] ==> (res matches Err(
                ProtocolError::InvalidConnectionType { value: v },
            ) && v@ == value@),
    {
        let chars = crate::protocol::wire::chars_of(value);
        if chars.len() == 1 {
            let c = chars[0];
            proof {
                assert(value@ == seq![c]);
            }
            if c == 'P' {
                return Ok(ConnectionType::Peer);
            } else if c == 'F' {
                return Ok(ConnectionType::File);
            } else if c == 'D' {
                return Ok(ConnectionType::Distributed);
            }
        }
        Err(ProtocolError::InvalidConnectionType { value: value.to_owned() })
    }
}

/// Statistics the server keeps about a user.
#[derive(Debug, Clone, Copy, Default, PartialEq, Eq)]
pub struct UserStats {
    pub avgspeed: u32,
    pub uploadnum: u32,
    pub unknown: u32,
    pub files: u32,
    pub dirs: u32,
}

/// Online status of a user.
#[derive(Debug, Clone, Copy, PartialEq, Eq, Structural)]
pub enum UserStatus {
    Offline,
    Away,
    Online,
}

impl UserStatus {
    pub open spec fn spec_from_u32(value: u32) -> Option<UserStatus> {
        match value {
            0 => Some(UserStatus::Offline),
            1 => Some(UserStatus::Away),
            2 => Some(UserStatus::Online),
            _ => None,
        }
    }

    #[verifier::when_used_as_spec(spec_from_u32)]
    pub fn from_u32(value: u32) -> (s: Option<UserStatus>)
        ensures
            s == UserStatus::spec_from_u32(value),
    {
        match value {
            0 => Some(UserStatus::Offline),
            1 => Some(UserStatus::Away),
            2 => Some(UserStatus::Online),
            _ => None,
        }
    }
}

/// A user as listed in a room or the global user list.
#[derive(Debug, Clone, PartialEq, Eq)]
pub struct UserData {
    pub username: String,
    pub status: u32,
    pub stats: UserStats,
    pub slotsfull: u32,
    pub country: Option<String>,
}

/// Names with their ratings, as the server recommends them.
pub type Recommendations = Vec<(String, i32)>;

/// A user with a similarity rating.
#[derive(Debug, Clone, PartialEq, Eq)]
pub struct SimilarUser {
    pub username: String,
    pub rating: u32,
}

/// Identity of a transfer in the client's lists.
#[derive(Debug, Clone, Copy, PartialEq, Eq, Hash, Structural)]
pub struct TransferId(pub u64);

/// State of a transfer as shown to users of the client.
#[derive(Debug, Clone, Copy, PartialEq, Eq, Structural)]
pub enum TransferStatus {
    Queued,
    Transferring,
    Finished,
    Aborted,
    Failed,
}

/// A transfer as reported to users of the client and kept across restarts.
#[derive(Debug, Clone)]
pub struct TransferSnapshot {
    pub id: TransferId,
    pub direction: TransferDirection,
    pub username: String,
    pub virtual_path: String,
    pub size: u64,
    pub bytes_done: u64,
    pub status: TransferStatus,
    pub failure_reason: Option<String>,
    pub file_path: Option<String>,
    pub queue_place: u32,
    pub speed_bps: u32,
    pub attributes: FileAttributes,
}

/// How uploads to a user are restricted.
#[derive(Debug, Clone, PartialEq, Eq)]
pub enum Restriction {
    Unrestricted,
    Deprioritized,
    Hold,
    Denied { reason: String },
}

/// Identity of a connection of the network layer.
#[derive(Debug, Clone, Copy, PartialEq, Eq, Hash, Structural)]
pub struct ConnId(pub u64);

} // verus!
