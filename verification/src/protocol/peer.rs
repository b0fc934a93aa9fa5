//! Messages exchanged with other clients over peer connections.
//!
//! Share listings, search results and folder contents travel zlib
//! compressed; every other message is a plain sequence of fields.
use vstd::prelude::*;

use super::compress::{compress, decompress, inflated, zlib_compressed, zlib_inflated, Inflated};
use super::listing::{
    file_list_bytes, files_view, folder_list_bytes, folders_view, read_file_list,
    read_folder_list, sp_file_list, sp_folder_list, write_file_list, write_folder_list, FileView,
    FolderView,
};
use super::wire::{
    framed_blob, framed_text, le_bytes, legacy_bytes, lemma_blob_at, lemma_bool_at, lemma_le_bytes_len,
    lemma_text_at, lemma_u32_at, lemma_u64_at, sp_bool, sp_bytes, sp_string, sp_u32, sp_u64,
    text_fits, Decoded, MessageReader, MessageWriter, ProtocolError,
};
use super::{frame_u32, frame_with_u32_code};
use crate::types::{FileInfo, FolderContents, TransferDirection};

verus! {

broadcast use vstd::seq::group_seq_axioms;

/// Largest inflated share listing accepted.
pub const MAX_SHARES_SIZE: usize = 2147483648;

/// Largest inflated search result or folder listing accepted.
pub const MAX_RESULTS_SIZE: usize = 134217728;

#[derive(Debug, Clone, PartialEq)]
pub enum PeerMessage {
    SharedFileListRequest,
    SharedFileListResponse {
        shares: Vec<FolderContents>,
        unknown: u32,
        private_shares: Vec<FolderContents>,
    },
    FileSearchRequest { token: u32, search_term: String },
    FileSearchResponse {
        username: String,
        token: u32,
        results: Vec<FileInfo>,
        free_upload_slots: bool,
        upload_speed: u32,
        queue_size: u32,
        unknown: u32,
        private_results: Vec<FileInfo>,
    },
    UserInfoRequest,
    UserInfoResponse {
        description: String,
        picture: Option<Vec<u8>>,
        total_uploads: u32,
        queue_size: u32,
        slots_available: bool,
        upload_allowed: Option<u32>,
    },
    FolderContentsRequest { token: u32, directory: String, legacy_client: bool },
    FolderContentsResponse { token: u32, directory: String, folders: Vec<FolderContents> },
    TransferRequest {
        direction: TransferDirection,
        token: u32,
        file: String,
        filesize: Option<u64>,
    },
    TransferResponse { token: u32, allowed: bool, reason: Option<String>, filesize: Option<u64> },
    PlaceholdUpload { file: String },
    QueueUpload { file: String, legacy_client: bool },
    PlaceInQueueResponse { filename: String, place: u32 },
    UploadFailed { file: String },
    UploadDenied { file: String, reason: String },
    PlaceInQueueRequest { file: String, legacy_client: bool },
    UploadQueueNotification,
    UnknownPeerMessage,
}

/// A peer message as a value: strings as characters, lists as sequences.
pub enum PeerView {
    SharedFileListRequest,
    SharedFileListResponse {
        shares: Seq<FolderView>,
        unknown: u32,
        private_shares: Seq<FolderView>,
    },
    FileSearchRequest { token: u32, search_term: Seq<char> },
    FileSearchResponse {
        username: Seq<char>,
        token: u32,
        results: Seq<FileView>,
        free_upload_slots: bool,
        upload_speed: u32,
        queue_size: u32,
        unknown: u32,
        private_results: Seq<FileView>,
    },
    UserInfoRequest,
    UserInfoResponse {
        description: Seq<char>,
        picture: Option<Seq<u8>>,
        total_uploads: u32,
        queue_size: u32,
        slots_available: bool,
        upload_allowed: Option<u32>,
    },
    FolderContentsRequest { token: u32, directory: Seq<char>, legacy_client: bool },
    FolderContentsResponse { token: u32, directory: Seq<char>, folders: Seq<FolderView> },
    TransferRequest {
        direction: TransferDirection,
        token: u32,
        file: Seq<char>,
        filesize: Option<u64>,
    },
    TransferResponse {
        token: u32,
        allowed: bool,
        reason: Option<Seq<char>>,
        filesize: Option<u64>,
    },
    PlaceholdUpload { file: Seq<char> },
    QueueUpload { file: Seq<char>, legacy_client: bool },
    PlaceInQueueResponse { filename: Seq<char>, place: u32 },
    UploadFailed { file: Seq<char> },
    UploadDenied { file: Seq<char>, reason: Seq<char> },
    PlaceInQueueRequest { file: Seq<char>, legacy_client: bool },
    UploadQueueNotification,
    UnknownPeerMessage,
}

impl View for PeerMessage {
    type V = PeerView;

    open spec fn view(&self) -> PeerView {
        match self {
            PeerMessage::SharedFileListRequest => PeerView::SharedFileListRequest,
            PeerMessage::SharedFileListResponse { shares, unknown, private_shares } => {
                PeerView::SharedFileListResponse {
                    shares: folders_view(shares@),
                    unknown: *unknown,
                    private_shares: folders_view(private_shares@),
                }
            },
            PeerMessage::FileSearchRequest { token, search_term } => PeerView::FileSearchRequest {
                token: *token,
                search_term: search_term@,
            },
            PeerMessage::FileSearchResponse {
                username,
                token,
                results,
                free_upload_slots,
                upload_speed,
                queue_size,
                unknown,
                private_results,
            } => PeerView::FileSearchResponse {
                username: username@,
                token: *token,
                results: files_view(results@),
                free_upload_slots: *free_upload_slots,
                upload_speed: *upload_speed,
                queue_size: *queue_size,
                unknown: *unknown,
                private_results: files_view(private_results@),
            },
            PeerMessage::UserInfoRequest => PeerView::UserInfoRequest,
            PeerMessage::UserInfoResponse {
                description,
                picture,
                total_uploads,
                queue_size,
                slots_available,
                upload_allowed,
            } => PeerView::UserInfoResponse {
                description: description@,
                picture: match picture {
                    Some(p) => Some(p@),
                    None => None,
                },
                total_uploads: *total_uploads,
                queue_size: *queue_size,
                slots_available: *slots_available,
                upload_allowed: *upload_allowed,
            },
            PeerMessage::FolderContentsRequest { token, directory, legacy_client } => {
                PeerView::FolderContentsRequest {
                    token: *token,
                    directory: directory@,
                    legacy_client: *legacy_client,
                }
            },
            PeerMessage::FolderContentsResponse { token, directory, folders } => {
                PeerView::FolderContentsResponse {
                    token: *token,
                    directory: directory@,
                    folders: folders_view(folders@),
                }
            },
            PeerMessage::TransferRequest { direction, token, file, filesize } => {
                PeerView::TransferRequest {
                    direction: *direction,
                    token: *token,
                    file: file@,
                    filesize: *filesize,
                }
            },
            PeerMessage::TransferResponse { token, allowed, reason, filesize } => {
                PeerView::TransferResponse {
                    token: *token,
                    allowed: *allowed,
                    reason: match reason {
                        Some(r) => Some(r@),
                        None => None,
                    },
                    filesize: *filesize,
                }
            },
            PeerMessage::PlaceholdUpload { file } => PeerView::PlaceholdUpload { file: file@ },
            PeerMessage::QueueUpload { file, legacy_client } => PeerView::QueueUpload {
                file: file@,
                legacy_client: *legacy_client,
            },
            PeerMessage::PlaceInQueueResponse { filename, place } => {
                PeerView::PlaceInQueueResponse { filename: filename@, place: *place }
            },
            PeerMessage::UploadFailed { file } => PeerView::UploadFailed { file: file@ },
            PeerMessage::UploadDenied { file, reason } => PeerView::UploadDenied {
                file: file@,
                reason: reason@,
            },
            PeerMessage::PlaceInQueueRequest { file, legacy_client } => {
                PeerView::PlaceInQueueRequest { file: file@, legacy_client: *legacy_client }
            },
            PeerMessage::UploadQueueNotification => PeerView::UploadQueueNotification,
            PeerMessage::UnknownPeerMessage => PeerView::UnknownPeerMessage,
        }
    }
}

// ---------------------------------------------------------------------
// Writing
// ---------------------------------------------------------------------

/// The code of a peer message.
pub open spec fn peer_code(v: PeerView) -> u32 {
    match v {
        PeerView::SharedFileListRequest => 4,
        PeerView::SharedFileListResponse { .. } => 5,
        PeerView::FileSearchRequest { .. } => 8,
        PeerView::FileSearchResponse { .. } => 9,
        PeerView::UserInfoRequest => 15,
        PeerView::UserInfoResponse { .. } => 16,
        PeerView::FolderContentsRequest { .. } => 36,
        PeerView::FolderContentsResponse { .. } => 37,
        PeerView::TransferRequest { .. } => 40,
        PeerView::TransferResponse { .. } => 41,
        PeerView::PlaceholdUpload { .. } => 42,
        PeerView::QueueUpload { .. } => 43,
        PeerView::PlaceInQueueResponse { .. } => 44,
        PeerView::UploadFailed { .. } => 46,
        PeerView::UploadDenied { .. } => 50,
        PeerView::PlaceInQueueRequest { .. } => 51,
        PeerView::UploadQueueNotification => 52,
        PeerView::UnknownPeerMessage => 12547,
    }
}

/// Messages whose payload is zlib compressed.
pub open spec fn peer_compressed(code: u32) -> bool {
    code == 5 || code == 9 || code == 37
}

/// Largest inflated payload accepted for a compressed message.
pub open spec fn peer_limit(code: u32) -> nat {
    if code == 5 {
        MAX_SHARES_SIZE as nat
    } else {
        MAX_RESULTS_SIZE as nat
    }
}

pub open spec fn u32_bytes(v: u32) -> Seq<u8> {
    le_bytes(v as nat, 4)
}

pub open spec fn u64_bytes(v: u64) -> Seq<u8> {
    le_bytes(v as nat, 8)
}

pub open spec fn bool_bytes(b: bool) -> Seq<u8> {
    seq![if b { 1u8 } else { 0u8 }]
}

/// A string, in the legacy encoding when the peer is a legacy client.
pub open spec fn client_text(text: Seq<char>, legacy: bool) -> Seq<u8> {
    if legacy {
        framed_blob(legacy_bytes(text))
    } else {
        framed_text(text)
    }
}

/// A trailing private listing is sent only when it is not empty.
pub open spec fn private_folders(folders: Seq<FolderView>) -> Seq<u8> {
    if folders.len() > 0 {
        folder_list_bytes(folders)
    } else {
        Seq::empty()
    }
}

pub open spec fn private_files(files: Seq<FileView>) -> Seq<u8> {
    if files.len() > 0 {
        file_list_bytes(files)
    } else {
        Seq::empty()
    }
}

/// The fields a message needs to be written: a user info response says
/// whether uploads are allowed, an upload request gives the file size.
pub open spec fn peer_writable(v: PeerView) -> bool {
    match v {
        PeerView::UserInfoResponse { upload_allowed, .. } => upload_allowed is Some,
        PeerView::TransferRequest { direction, filesize, .. } => direction
            == TransferDirection::Upload ==> filesize is Some,
        _ => true,
    }
}

/// Bytes of a message body, before any compression.
pub open spec fn peer_body(v: PeerView) -> Seq<u8> {
    match v {
        PeerView::SharedFileListResponse { shares, unknown, private_shares } => folder_list_bytes(
            shares,
        ) + u32_bytes(unknown) + private_folders(private_shares),
        PeerView::FileSearchRequest { token, search_term } => u32_bytes(token) + framed_text(
            search_term,
        ),
        PeerView::FileSearchResponse {
            username,
            token,
            results,
            free_upload_slots,
            upload_speed,
            queue_size,
            unknown,
            private_results,
        } => framed_text(username) + u32_bytes(token) + file_list_bytes(results) + bool_bytes(
            free_upload_slots,
        ) + u32_bytes(upload_speed) + u32_bytes(queue_size) + u32_bytes(unknown) + private_files(
            private_results,
        ),
        PeerView::UserInfoResponse {
            description,
            picture,
            total_uploads,
            queue_size,
            slots_available,
            upload_allowed,
        } => framed_text(description) + match picture {
            Some(p) => bool_bytes(true) + framed_blob(p),
            None => bool_bytes(false),
        } + u32_bytes(total_uploads) + u32_bytes(queue_size) + bool_bytes(slots_available)
            + u32_bytes(upload_allowed.unwrap()),
        PeerView::FolderContentsRequest { token, directory, legacy_client } => u32_bytes(token)
            + client_text(directory, legacy_client),
        PeerView::FolderContentsResponse { token, directory, folders } => u32_bytes(token)
            + framed_text(directory) + folder_list_bytes(folders),
        PeerView::TransferRequest { direction, token, file, filesize } => u32_bytes(
            direction.spec_number(),
        ) + u32_bytes(token) + framed_text(file) + if direction == TransferDirection::Upload {
            u64_bytes(filesize.unwrap())
        } else {
            Seq::empty()
        },
        PeerView::TransferResponse { token, allowed, reason, filesize } => u32_bytes(token)
            + bool_bytes(allowed) + match reason {
            Some(r) => framed_text(r),
            None => Seq::empty(),
        } + match filesize {
            Some(s) => u64_bytes(s),
            None => Seq::empty(),
        },
        PeerView::PlaceholdUpload { file } => framed_text(file),
        PeerView::UploadFailed { file } => framed_text(file),
        PeerView::QueueUpload { file, legacy_client } => client_text(file, legacy_client),
        PeerView::PlaceInQueueRequest { file, legacy_client } => client_text(file, legacy_client),
        PeerView::PlaceInQueueResponse { filename, place } => framed_text(filename) + u32_bytes(
            place,
        ),
        PeerView::UploadDenied { file, reason } => framed_text(file) + framed_text(reason),
        _ => Seq::empty(),
    }
}

/// The payload of a message: its body, compressed for the listings.
pub open spec fn peer_payload(v: PeerView) -> Seq<u8> {
    if peer_compressed(peer_code(v)) {
        zlib_compressed(peer_body(v))
    } else {
        peer_body(v)
    }
}

/// `payload` carries the body of `v`: the body itself, or for a listing a
/// zlib stream that inflates to the body when room for all of it is given.
pub open spec fn carries_body(v: PeerView, payload: Seq<u8>) -> bool {
    if peer_compressed(peer_code(v)) {
        forall|cap: nat| cap >= peer_body(v).len() ==> #[trigger] zlib_inflated(payload, cap) == Some(
            peer_body(v),
        )
    } else {
        payload == peer_body(v)
    }
}

fn write_client_text(w: &mut MessageWriter, text: &str, legacy: bool)
    ensures
        final(w)@ == old(w)@ + client_text(text@, legacy),
{
    if legacy {
        w.write_string_legacy(text);
    } else {
        w.write_string(text);
    }
}

fn write_shared_list(
    w: &mut MessageWriter,
    shares: &[FolderContents],
    unknown: u32,
    private_shares: &[FolderContents],
)
    ensures
        final(w)@ == old(w)@ + folder_list_bytes(folders_view(shares@)) + u32_bytes(unknown)
            + private_folders(folders_view(private_shares@)),
{
    write_folder_list(w, shares);
    w.write_u32(unknown);
    let ghost mid = w@;
    if private_shares.len() > 0 {
        write_folder_list(w, private_shares);
    }
    proof {
        assert(final(w)@ =~= mid + private_folders(folders_view(private_shares@)));
    }
}

fn write_search_results(
    w: &mut MessageWriter,
    username: &str,
    token: u32,
    results: &[FileInfo],
    free_upload_slots: bool,
    upload_speed: u32,
    queue_size: u32,
    unknown: u32,
    private_results: &[FileInfo],
)
    ensures
        final(w)@ == old(w)@ + framed_text(username@) + u32_bytes(token) + file_list_bytes(
            files_view(results@),
        ) + bool_bytes(free_upload_slots) + u32_bytes(upload_speed) + u32_bytes(queue_size)
            + u32_bytes(unknown) + private_files(files_view(private_results@)),
{
    w.write_string(username);
    w.write_u32(token);
    write_file_list(w, results);
    w.write_bool(free_upload_slots);
    w.write_u32(upload_speed);
    w.write_u32(queue_size);
    w.write_u32(unknown);
    let ghost mid = w@;
    if private_results.len() > 0 {
        write_file_list(w, private_results);
    }
    proof {
        assert(final(w)@ =~= mid + private_files(files_view(private_results@)));
    }
}

fn write_user_info(
    w: &mut MessageWriter,
    description: &str,
    picture: &Option<Vec<u8>>,
    total_uploads: u32,
    queue_size: u32,
    slots_available: bool,
    upload_allowed: u32,
)
    ensures
        final(w)@ == old(w)@ + framed_text(description@) + match picture {
            Some(p) => bool_bytes(true) + framed_blob(p@),
            None => bool_bytes(false),
        } + u32_bytes(total_uploads) + u32_bytes(queue_size) + bool_bytes(slots_available)
            + u32_bytes(upload_allowed),
{
    w.write_string(description);
    let ghost mid = w@;
    match picture {
        Some(pic) => {
            w.write_bool(true);
            w.write_bytes(pic.as_slice());
        },
        None => w.write_bool(false),
    }
    proof {
        assert(w@ =~= mid + match picture {
            Some(p) => bool_bytes(true) + framed_blob(p@),
            None => bool_bytes(false),
        });
    }
    w.write_u32(total_uploads);
    w.write_u32(queue_size);
    w.write_bool(slots_available);
    w.write_u32(upload_allowed);
}

fn write_transfer_request(
    w: &mut MessageWriter,
    direction: TransferDirection,
    token: u32,
    file: &str,
    filesize: Option<u64>,
)
    requires
        direction == TransferDirection::Upload ==> filesize is Some,
    ensures
        final(w)@ == old(w)@ + u32_bytes(direction.spec_number()) + u32_bytes(token) + framed_text(
            file@,
        ) + if direction == TransferDirection::Upload {
            u64_bytes(filesize.unwrap())
        } else {
            Seq::empty()
        },
{
    w.write_u32(direction.as_u32());
    w.write_u32(token);
    w.write_string(file);
    let ghost mid = w@;
    if direction == TransferDirection::Upload {
        w.write_u64(filesize.unwrap());
    }
    proof {
        assert(final(w)@ =~= mid + if direction == TransferDirection::Upload {
            u64_bytes(filesize.unwrap())
        } else {
            Seq::empty()
        });
    }
}

fn write_transfer_response(
    w: &mut MessageWriter,
    token: u32,
    allowed: bool,
    reason: &Option<String>,
    filesize: Option<u64>,
)
    ensures
        final(w)@ == old(w)@ + u32_bytes(token) + bool_bytes(allowed) + match reason {
            Some(r) => framed_text(r@),
            None => Seq::empty(),
        } + match filesize {
            Some(s) => u64_bytes(s),
            None => Seq::empty(),
        },
{
    w.write_u32(token);
    w.write_bool(allowed);
    let ghost m1 = w@;
    if let Some(reason) = reason {
        w.write_string(reason);
    }
    let ghost m2 = w@;
    proof {
        assert(m2 =~= m1 + match reason {
            Some(r) => framed_text(r@),
            None => Seq::empty(),
        });
    }
    if let Some(filesize) = filesize {
        w.write_u64(filesize);
    }
    proof {
        assert(final(w)@ =~= m2 + match filesize {
            Some(s) => u64_bytes(s),
            None => Seq::empty(),
        });
    }
}

impl PeerMessage {
    pub open spec fn spec_code(&self) -> u32 {
        peer_code(self@)
    }

    #[verifier::when_used_as_spec(spec_code)]
    pub fn code(&self) -> (c: u32)
        ensures
            c == peer_code(self@),
    {
        match self {
            Self::SharedFileListRequest => 4,
            Self::SharedFileListResponse { .. } => 5,
            Self::FileSearchRequest { .. } => 8,
            Self::FileSearchResponse { .. } => 9,
            Self::UserInfoRequest => 15,
            Self::UserInfoResponse { .. } => 16,
            Self::FolderContentsRequest { .. } => 36,
            Self::FolderContentsResponse { .. } => 37,
            Self::TransferRequest { .. } => 40,
            Self::TransferResponse { .. } => 41,
            Self::PlaceholdUpload { .. } => 42,
            Self::QueueUpload { .. } => 43,
            Self::PlaceInQueueResponse { .. } => 44,
            Self::UploadFailed { .. } => 46,
            Self::UploadDenied { .. } => 50,
            Self::PlaceInQueueRequest { .. } => 51,
            Self::UploadQueueNotification => 52,
            Self::UnknownPeerMessage => 12547,
        }
    }

    /// Writes the body of the message, uncompressed.
    #[verifier::spinoff_prover]
    #[verifier::rlimit(50)]
    pub fn write_body(&self, w: &mut MessageWriter)
        requires
            peer_writable(self@),
        ensures
            final(w)@ == old(w)@ + peer_body(self@),
    {
        match self {
            Self::SharedFileListRequest
            | Self::UserInfoRequest
            | Self::UploadQueueNotification
            | Self::UnknownPeerMessage => {
                proof {
                    assert(final(w)@ =~= old(w)@ + peer_body(self@));
                }
            },
            Self::SharedFileListResponse { shares, unknown, private_shares } => {
                write_shared_list(w, shares.as_slice(), *unknown, private_shares.as_slice());
            },
            Self::FileSearchRequest { token, search_term } => {
                w.write_u32(*token);
                w.write_string(search_term);
                proof {
                    assert(final(w)@ =~= old(w)@ + peer_body(self@));
                }
            },
            Self::FileSearchResponse {
                username,
                token,
                results,
                free_upload_slots,
                upload_speed,
                queue_size,
                unknown,
                private_results,
            } => {
                write_search_results(
                    w,
                    username,
                    *token,
                    results.as_slice(),
                    *free_upload_slots,
                    *upload_speed,
                    *queue_size,
                    *unknown,
                    private_results.as_slice(),
                );
            },
            Self::UserInfoResponse {
                description,
                picture,
                total_uploads,
                queue_size,
                slots_available,
                upload_allowed,
            } => {
                write_user_info(
                    w,
                    description,
                    picture,
                    *total_uploads,
                    *queue_size,
                    *slots_available,
                    upload_allowed.unwrap(),
                );
            },
            Self::FolderContentsRequest { token, directory, legacy_client } => {
                w.write_u32(*token);
                write_client_text(w, directory, *legacy_client);
                proof {
                    assert(final(w)@ =~= old(w)@ + peer_body(self@));
                }
            },
            Self::FolderContentsResponse { token, directory, folders } => {
                w.write_u32(*token);
                w.write_string(directory);
                write_folder_list(w, folders.as_slice());
                proof {
                    assert(final(w)@ =~= old(w)@ + peer_body(self@));
                }
            },
            Self::TransferRequest { direction, token, file, filesize } => {
                write_transfer_request(w, *direction, *token, file, *filesize);
            },
            Self::TransferResponse { token, allowed, reason, filesize } => {
                write_transfer_response(w, *token, *allowed, reason, *filesize);
            },
            Self::PlaceholdUpload { file } | Self::UploadFailed { file } => w.write_string(file),
            Self::QueueUpload { file, legacy_client } | Self::PlaceInQueueRequest {
                file,
                legacy_client,
            } => {
                write_client_text(w, file, *legacy_client);
            },
            Self::PlaceInQueueResponse { filename, place } => {
                w.write_string(filename);
                w.write_u32(*place);
                proof {
                    assert(final(w)@ =~= old(w)@ + peer_body(self@));
                }
            },
            Self::UploadDenied { file, reason } => {
                w.write_string(file);
                w.write_string(reason);
                proof {
                    assert(final(w)@ =~= old(w)@ + peer_body(self@));
                }
            },
        }
    }

    /// The payload of the message: its body, compressed for the listings.
    pub fn make_payload(&self) -> (payload: Vec<u8>)
        requires
            peer_writable(self@),
        ensures
            payload@ == peer_payload(self@),
            carries_body(self@, payload@),
    {
        let mut w = MessageWriter::new();
        self.write_body(&mut w);
        let body = w.into_bytes();
        match self {
            Self::SharedFileListResponse { .. }
            | Self::FileSearchResponse { .. }
            | Self::FolderContentsResponse { .. } => compress(body.as_slice()),
            _ => body,
        }
    }

    pub fn to_bytes(&self) -> (bytes: Vec<u8>)
        requires
            peer_writable(self@),
            peer_payload(self@).len() <= u32::MAX - 4,
        ensures
            bytes@ == frame_u32(peer_code(self@), peer_payload(self@)),
    {
        let payload = self.make_payload();
        frame_with_u32_code(self.code(), payload.as_slice())
    }
}

// ---------------------------------------------------------------------
// Reading
// ---------------------------------------------------------------------

/// Why a body does not decode: a protocol error, or a transfer direction
/// that is neither download nor upload.
pub enum PeerFailure {
    Protocol(ProtocolError),
    InvalidDirection(u32),
}

pub type PeerDecoded = Result<PeerView, PeerFailure>;

/// A trailing number that old clients leave out counts as zero.
pub open spec fn sp_opt_u32(data: Seq<u8>, pos: int) -> Decoded<u32> {
    if pos < data.len() {
        sp_u32(data, pos)
    } else {
        Ok((0, pos))
    }
}

/// A trailing private listing that is absent counts as empty.
pub open spec fn sp_opt_folders(data: Seq<u8>, pos: int) -> Decoded<Seq<FolderView>> {
    if pos < data.len() {
        sp_folder_list(data, pos)
    } else {
        Ok((Seq::empty(), pos))
    }
}

pub open spec fn sp_opt_files(data: Seq<u8>, pos: int) -> Decoded<Seq<FileView>> {
    if pos < data.len() {
        sp_file_list(data, pos, true)
    } else {
        Ok((Seq::empty(), pos))
    }
}

pub open spec fn sp_shared_list(data: Seq<u8>) -> PeerDecoded {
    match sp_folder_list(data, 0) {
        Err((e, _)) => Err(PeerFailure::Protocol(e)),
        Ok((shares, p1)) => match sp_opt_u32(data, p1) {
            Err((e, _)) => Err(PeerFailure::Protocol(e)),
            Ok((unknown, p2)) => match sp_opt_folders(data, p2) {
                Err((e, _)) => Err(PeerFailure::Protocol(e)),
                Ok((private_shares, _)) => Ok(
                    PeerView::SharedFileListResponse { shares, unknown, private_shares },
                ),
            },
        },
    }
}

/// The fixed head of a search response: user, token, results, free slots,
/// speed and queue size.
pub open spec fn sp_results_head(data: Seq<u8>) -> Decoded<
    (Seq<char>, u32, Seq<FileView>, bool, u32, u32),
> {
    match sp_string(data, 0) {
        Err(e) => Err(e),
        Ok((username, p1)) => match sp_u32(data, p1) {
            Err(e) => Err(e),
            Ok((token, p2)) => match sp_file_list(data, p2, true) {
                Err(e) => Err(e),
                Ok((results, p3)) => match sp_bool(data, p3) {
                    Err(e) => Err(e),
                    Ok((free, p4)) => match sp_u32(data, p4) {
                        Err(e) => Err(e),
                        Ok((speed, p5)) => match sp_u32(data, p5) {
                            Err(e) => Err(e),
                            Ok((queue, p6)) => Ok(
                                ((username, token, results, free, speed, queue), p6),
                            ),
                        },
                    },
                },
            },
        },
    }
}

pub open spec fn sp_search_results(data: Seq<u8>) -> PeerDecoded {
    match sp_results_head(data) {
        Err((e, _)) => Err(PeerFailure::Protocol(e)),
        Ok((head, p6)) => match sp_opt_u32(data, p6) {
            Err((e, _)) => Err(PeerFailure::Protocol(e)),
            Ok((unknown, p7)) => match sp_opt_files(data, p7) {
                Err((e, _)) => Err(PeerFailure::Protocol(e)),
                Ok((private_results, _)) => Ok(
                    PeerView::FileSearchResponse {
                        username: head.0,
                        token: head.1,
                        results: head.2,
                        free_upload_slots: head.3,
                        upload_speed: head.4,
                        queue_size: head.5,
                        unknown,
                        private_results,
                    },
                ),
            },
        },
    }
}

/// A picture follows its flag only when the flag is set.
pub open spec fn sp_picture(data: Seq<u8>, pos: int) -> Decoded<Option<Seq<u8>>> {
    match sp_bool(data, pos) {
        Err(e) => Err(e),
        Ok((has_picture, p)) => if has_picture {
            match sp_bytes(data, p) {
                Err(e) => Err(e),
                Ok((pic, q)) => Ok((Some(pic), q)),
            }
        } else {
            Ok((None, p))
        },
    }
}

pub open spec fn sp_user_info(data: Seq<u8>) -> PeerDecoded {
    match sp_string(data, 0) {
        Err((e, _)) => Err(PeerFailure::Protocol(e)),
        Ok((description, p1)) => match sp_picture(data, p1) {
            Err((e, _)) => Err(PeerFailure::Protocol(e)),
            Ok((picture, p2)) => match sp_u32(data, p2) {
                Err((e, _)) => Err(PeerFailure::Protocol(e)),
                Ok((total_uploads, p3)) => match sp_u32(data, p3) {
                    Err((e, _)) => Err(PeerFailure::Protocol(e)),
                    Ok((queue_size, p4)) => match sp_bool(data, p4) {
                        Err((e, _)) => Err(PeerFailure::Protocol(e)),
                        Ok((slots_available, p5)) => {
                            let upload_allowed = if data.len() - p5 >= 4 {
                                Some(sp_u32(data, p5)->Ok_0.0)
                            } else {
                                None
                            };
                            Ok(
                                PeerView::UserInfoResponse {
                                    description,
                                    picture,
                                    total_uploads,
                                    queue_size,
                                    slots_available,
                                    upload_allowed,
                                },
                            )
                        },
                    },
                },
            },
        },
    }
}

pub open spec fn sp_transfer_request(data: Seq<u8>) -> PeerDecoded {
    match sp_u32(data, 0) {
        Err((e, _)) => Err(PeerFailure::Protocol(e)),
        Ok((number, p1)) => if number > 1 {
            Err(PeerFailure::InvalidDirection(number))
        } else {
            let direction = if number == 0 {
                TransferDirection::Download
            } else {
                TransferDirection::Upload
            };
            match sp_u32(data, p1) {
                Err((e, _)) => Err(PeerFailure::Protocol(e)),
                Ok((token, p2)) => match sp_string(data, p2) {
                    Err((e, _)) => Err(PeerFailure::Protocol(e)),
                    Ok((file, p3)) => if number == 1 {
                        match sp_u64(data, p3) {
                            Err((e, _)) => Err(PeerFailure::Protocol(e)),
                            Ok((size, _)) => Ok(
                                PeerView::TransferRequest {
                                    direction,
                                    token,
                                    file,
                                    filesize: Some(size),
                                },
                            ),
                        }
                    } else {
                        Ok(PeerView::TransferRequest { direction, token, file, filesize: None })
                    },
                },
            }
        },
    }
}

/// A reply carries a file size when the transfer is allowed, a reason when
/// it is not; either may be missing.
pub open spec fn sp_transfer_response(data: Seq<u8>) -> PeerDecoded {
    match sp_u32(data, 0) {
        Err((e, _)) => Err(PeerFailure::Protocol(e)),
        Ok((token, p1)) => match sp_bool(data, p1) {
            Err((e, _)) => Err(PeerFailure::Protocol(e)),
            Ok((allowed, p2)) => if p2 < data.len() {
                if allowed {
                    match sp_u64(data, p2) {
                        Err((e, _)) => Err(PeerFailure::Protocol(e)),
                        Ok((size, _)) => Ok(
                            PeerView::TransferResponse {
                                token,
                                allowed,
                                reason: None,
                                filesize: Some(size),
                            },
                        ),
                    }
                } else {
                    match sp_string(data, p2) {
                        Err((e, _)) => Err(PeerFailure::Protocol(e)),
                        Ok((reason, _)) => Ok(
                            PeerView::TransferResponse {
                                token,
                                allowed,
                                reason: Some(reason),
                                filesize: None,
                            },
                        ),
                    }
                }
            } else {
                Ok(PeerView::TransferResponse { token, allowed, reason: None, filesize: None })
            },
        },
    }
}

/// A number and a string.
pub open spec fn sp_u32_text(data: Seq<u8>) -> Decoded<(u32, Seq<char>)> {
    match sp_u32(data, 0) {
        Err(e) => Err(e),
        Ok((n, p1)) => match sp_string(data, p1) {
            Err(e) => Err(e),
            Ok((t, p2)) => Ok(((n, t), p2)),
        },
    }
}

/// A string and what follows it.
pub open spec fn sp_text_then<T>(data: Seq<u8>, then: spec_fn(int) -> Decoded<T>) -> Decoded<
    (Seq<char>, T),
> {
    match sp_string(data, 0) {
        Err(e) => Err(e),
        Ok((t, p1)) => match then(p1) {
            Err(e) => Err(e),
            Ok((x, p2)) => Ok(((t, x), p2)),
        },
    }
}

pub open spec fn sp_folder_contents(data: Seq<u8>) -> PeerDecoded {
    match sp_u32_text(data) {
        Err((e, _)) => Err(PeerFailure::Protocol(e)),
        Ok(((token, directory), p2)) => match sp_folder_list(data, p2) {
            Err((e, _)) => Err(PeerFailure::Protocol(e)),
            Ok((folders, _)) => Ok(PeerView::FolderContentsResponse { token, directory, folders }),
        },
    }
}

/// Lifts a decoded value into a message.
pub open spec fn lift<T>(d: Decoded<T>, make: spec_fn(T) -> PeerView) -> PeerDecoded {
    match d {
        Ok((x, _)) => Ok(make(x)),
        Err((e, _)) => Err(PeerFailure::Protocol(e)),
    }
}

/// Codes of the messages this client reads.
pub open spec fn peer_known(code: u32) -> bool {
    code == 4 || code == 5 || code == 8 || code == 9 || code == 15 || code == 16 || code == 36
        || code == 37 || code == 40 || code == 41 || code == 42 || code == 43 || code == 44
        || code == 46 || code == 50 || code == 51 || code == 52 || code == 12547
}

/// The message a body decodes to, for a known code.
pub open spec fn sp_peer_body(code: u32, data: Seq<u8>) -> PeerDecoded {
    if code == 4 {
        Ok(PeerView::SharedFileListRequest)
    } else if code == 5 {
        sp_shared_list(data)
    } else if code == 8 {
        lift(
            sp_u32_text(data),
            |x: (u32, Seq<char>)| PeerView::FileSearchRequest { token: x.0, search_term: x.1 },
        )
    } else if code == 9 {
        sp_search_results(data)
    } else if code == 15 {
        Ok(PeerView::UserInfoRequest)
    } else if code == 16 {
        sp_user_info(data)
    } else if code == 36 {
        lift(
            sp_u32_text(data),
            |x: (u32, Seq<char>)|
                PeerView::FolderContentsRequest { token: x.0, directory: x.1, legacy_client: false },
        )
    } else if code == 37 {
        sp_folder_contents(data)
    } else if code == 40 {
        sp_transfer_request(data)
    } else if code == 41 {
        sp_transfer_response(data)
    } else if code == 42 {
        lift(sp_string(data, 0), |t: Seq<char>| PeerView::PlaceholdUpload { file: t })
    } else if code == 43 {
        lift(
            sp_string(data, 0),
            |t: Seq<char>| PeerView::QueueUpload { file: t, legacy_client: false },
        )
    } else if code == 44 {
        lift(
            sp_text_then(data, |p: int| sp_u32(data, p)),
            |x: (Seq<char>, u32)| PeerView::PlaceInQueueResponse { filename: x.0, place: x.1 },
        )
    } else if code == 46 {
        lift(sp_string(data, 0), |t: Seq<char>| PeerView::UploadFailed { file: t })
    } else if code == 50 {
        lift(
            sp_text_then(data, |p: int| sp_string(data, p)),
            |x: (Seq<char>, Seq<char>)| PeerView::UploadDenied { file: x.0, reason: x.1 },
        )
    } else if code == 51 {
        lift(
            sp_string(data, 0),
            |t: Seq<char>| PeerView::PlaceInQueueRequest { file: t, legacy_client: false },
        )
    } else if code == 52 {
        Ok(PeerView::UploadQueueNotification)
    } else {
        Ok(PeerView::UnknownPeerMessage)
    }
}

/// `res` is what the decoding describes.
pub open spec fn peer_result(res: Result<PeerMessage, ProtocolError>, d: PeerDecoded) -> bool {
    match d {
        Ok(v) => res matches Ok(m) && m@ == v,
        Err(PeerFailure::Protocol(e)) => res == Err::<PeerMessage, ProtocolError>(e),
        Err(PeerFailure::InvalidDirection(number)) => res matches Err(
            ProtocolError::InvalidValue { field, value },
        ) && field@ == "direction"@ && value == number as u64,
    }
}

/// What `parse` returns for a code and payload: listings are inflated
/// first, within their size limit; unknown codes are refused.
pub open spec fn peer_parsed(
    code: u32,
    payload: Seq<u8>,
    res: Result<PeerMessage, ProtocolError>,
) -> bool {
    if peer_compressed(code) {
        match inflated(payload, peer_limit(code)) {
            Inflated::Data(data) => peer_result(res, sp_peer_body(code, data)),
            Inflated::TooLarge => res matches Err(ProtocolError::DecompressedTooLarge { limit })
                && limit == peer_limit(code),
            Inflated::Failed => res matches Err(ProtocolError::Decompress(_)),
        }
    } else if peer_known(code) {
        peer_result(res, sp_peer_body(code, payload))
    } else {
        res matches Err(ProtocolError::UnknownMessageCode { family, code: c }) && family@
            == "peer"@ && c == code
    }
}

fn parse_shared_list(data: &[u8]) -> (res: Result<PeerMessage, ProtocolError>)
    ensures
        peer_result(res, sp_shared_list(data@)),
{
    let mut r = MessageReader::new(data);
    let shares = read_folder_list(&mut r)?;
    let unknown = if r.has_remaining() {
        r.read_u32()?
    } else {
        0
    };
    let private_shares = if r.has_remaining() {
        read_folder_list(&mut r)?
    } else {
        let empty: Vec<FolderContents> = Vec::new();
        proof {
            assert(folders_view(empty@) =~= Seq::<FolderView>::empty());
        }
        empty
    };
    Ok(PeerMessage::SharedFileListResponse { shares, unknown, private_shares })
}

fn parse_search_results(data: &[u8]) -> (res: Result<PeerMessage, ProtocolError>)
    ensures
        peer_result(res, sp_search_results(data@)),
{
    let mut r = MessageReader::new(data);
    let username = r.read_string()?;
    let token = r.read_u32()?;
    let results = read_file_list(&mut r, true)?;
    let free_upload_slots = r.read_bool()?;
    let upload_speed = r.read_u32()?;
    let queue_size = r.read_u32()?;
    let unknown = if r.has_remaining() {
        r.read_u32()?
    } else {
        0
    };
    let private_results = if r.has_remaining() {
        read_file_list(&mut r, true)?
    } else {
        let empty: Vec<FileInfo> = Vec::new();
        proof {
            assert(files_view(empty@) =~= Seq::<FileView>::empty());
        }
        empty
    };
    Ok(
        PeerMessage::FileSearchResponse {
            username,
            token,
            results,
            free_upload_slots,
            upload_speed,
            queue_size,
            unknown,
            private_results,
        },
    )
}

fn parse_user_info(data: &[u8]) -> (res: Result<PeerMessage, ProtocolError>)
    ensures
        peer_result(res, sp_user_info(data@)),
{
    let mut r = MessageReader::new(data);
    let description = r.read_string()?;
    let has_picture = r.read_bool()?;
    let picture = if has_picture {
        Some(r.read_bytes()?)
    } else {
        None
    };
    let total_uploads = r.read_u32()?;
    let queue_size = r.read_u32()?;
    let slots_available = r.read_bool()?;
    let upload_allowed = if r.remaining() >= 4 {
        proof {
            reveal(super::wire::sp_u32);
        }
        Some(r.read_u32()?)
    } else {
        None
    };
    Ok(
        PeerMessage::UserInfoResponse {
            description,
            picture,
            total_uploads,
            queue_size,
            slots_available,
            upload_allowed,
        },
    )
}

fn parse_transfer_request(data: &[u8]) -> (res: Result<PeerMessage, ProtocolError>)
    ensures
        peer_result(res, sp_transfer_request(data@)),
{
    proof {
        reveal_strlit("direction");
    }
    let mut r = MessageReader::new(data);
    let direction_value = r.read_u32()?;
    let direction = match TransferDirection::from_u32(direction_value) {
        Some(d) => d,
        None => {
            return Err(
                ProtocolError::InvalidValue { field: "direction", value: direction_value as u64 },
            );
        },
    };
    let token = r.read_u32()?;
    let file = r.read_string()?;
    let filesize = if direction == TransferDirection::Upload {
        Some(r.read_u64()?)
    } else {
        None
    };
    Ok(PeerMessage::TransferRequest { direction, token, file, filesize })
}

fn parse_transfer_response(data: &[u8]) -> (res: Result<PeerMessage, ProtocolError>)
    ensures
        peer_result(res, sp_transfer_response(data@)),
{
    let mut r = MessageReader::new(data);
    let token = r.read_u32()?;
    let allowed = r.read_bool()?;
    let mut reason: Option<String> = None;
    let mut filesize: Option<u64> = None;
    if r.has_remaining() {
        if allowed {
            filesize = Some(r.read_u64()?);
        } else {
            reason = Some(r.read_string()?);
        }
    }
    Ok(PeerMessage::TransferResponse { token, allowed, reason, filesize })
}

fn parse_folder_contents(data: &[u8]) -> (res: Result<PeerMessage, ProtocolError>)
    ensures
        peer_result(res, sp_folder_contents(data@)),
{
    let mut r = MessageReader::new(data);
    let token = r.read_u32()?;
    let directory = r.read_string()?;
    let folders = read_folder_list(&mut r)?;
    Ok(PeerMessage::FolderContentsResponse { token, directory, folders })
}

/// Reads a number and a string.
fn read_u32_text(data: &[u8]) -> (res: Result<(u32, String), ProtocolError>)
    ensures
        match sp_u32_text(data@) {
            Ok((x, _)) => res matches Ok(y) && y.0 == x.0 && y.1@ == x.1,
            Err((e, _)) => res == Err::<(u32, String), ProtocolError>(e),
        },
{
    let mut r = MessageReader::new(data);
    let n = r.read_u32()?;
    let t = r.read_string()?;
    Ok((n, t))
}

/// Reads one string.
fn read_text(data: &[u8]) -> (res: Result<String, ProtocolError>)
    ensures
        match sp_string(data@, 0) {
            Ok((t, _)) => res matches Ok(y) && y@ == t,
            Err((e, _)) => res == Err::<String, ProtocolError>(e),
        },
{
    let mut r = MessageReader::new(data);
    r.read_string()
}

/// Reads two strings.
fn read_two_texts(data: &[u8]) -> (res: Result<(String, String), ProtocolError>)
    ensures
        match sp_text_then(data@, |p: int| sp_string(data@, p)) {
            Ok((x, _)) => res matches Ok(y) && y.0@ == x.0 && y.1@ == x.1,
            Err((e, _)) => res == Err::<(String, String), ProtocolError>(e),
        },
{
    let mut r = MessageReader::new(data);
    let a = r.read_string()?;
    let b = r.read_string()?;
    Ok((a, b))
}

/// Reads a string and a number.
fn read_text_u32(data: &[u8]) -> (res: Result<(String, u32), ProtocolError>)
    ensures
        match sp_text_then(data@, |p: int| sp_u32(data@, p)) {
            Ok((x, _)) => res matches Ok(y) && y.0@ == x.0 && y.1 == x.1,
            Err((e, _)) => res == Err::<(String, u32), ProtocolError>(e),
        },
{
    let mut r = MessageReader::new(data);
    let a = r.read_string()?;
    let b = r.read_u32()?;
    Ok((a, b))
}

/// Inflates a listing within the limit of its code.
fn inflate_listing(code: u32, payload: &[u8]) -> (res: Result<Vec<u8>, ProtocolError>)
    requires
        peer_compressed(code),
    ensures
        match inflated(payload@, peer_limit(code)) {
            Inflated::Data(out) => res matches Ok(v) && v@ == out,
            Inflated::TooLarge => res matches Err(ProtocolError::DecompressedTooLarge { limit })
                && limit == peer_limit(code),
            Inflated::Failed => res matches Err(ProtocolError::Decompress(_)),
        },
{
    if code == 5 {
        decompress(payload, MAX_SHARES_SIZE)
    } else {
        decompress(payload, MAX_RESULTS_SIZE)
    }
}

impl PeerMessage {
    #[verifier::spinoff_prover]
    pub fn parse(code: u32, payload: &[u8]) -> (res: Result<Self, ProtocolError>)
        ensures
            peer_parsed(code, payload@, res),
    {
        proof {
            reveal_strlit("peer");
        }
        match code {
            4 => Ok(Self::SharedFileListRequest),
            5 => {
                let data = inflate_listing(code, payload)?;
                parse_shared_list(data.as_slice())
            },
            8 => {
                let (token, search_term) = read_u32_text(payload)?;
                Ok(Self::FileSearchRequest { token, search_term })
            },
            9 => {
                let data = inflate_listing(code, payload)?;
                parse_search_results(data.as_slice())
            },
            15 => Ok(Self::UserInfoRequest),
            16 => parse_user_info(payload),
            36 => {
                let (token, directory) = read_u32_text(payload)?;
                Ok(Self::FolderContentsRequest { token, directory, legacy_client: false })
            },
            37 => {
                let data = inflate_listing(code, payload)?;
                parse_folder_contents(data.as_slice())
            },
            40 => parse_transfer_request(payload),
            41 => parse_transfer_response(payload),
            42 => {
                let file = read_text(payload)?;
                Ok(Self::PlaceholdUpload { file })
            },
            43 => {
                let file = read_text(payload)?;
                Ok(Self::QueueUpload { file, legacy_client: false })
            },
            44 => {
                let (filename, place) = read_text_u32(payload)?;
                Ok(Self::PlaceInQueueResponse { filename, place })
            },
            46 => {
                let file = read_text(payload)?;
                Ok(Self::UploadFailed { file })
            },
            50 => {
                let (file, reason) = read_two_texts(payload)?;
                Ok(Self::UploadDenied { file, reason })
            },
            51 => {
                let file = read_text(payload)?;
                Ok(Self::PlaceInQueueRequest { file, legacy_client: false })
            },
            52 => Ok(Self::UploadQueueNotification),
            12547 => Ok(Self::UnknownPeerMessage),
            _ => Err(ProtocolError::UnknownMessageCode { family: "peer", code }),
        }
    }
}

// ---------------------------------------------------------------------
// Round trip
// ---------------------------------------------------------------------

/// A message reads back as written: its strings and picture fit their
/// length prefixes, no legacy encoding is used, an upload request carries
/// its size and a download request none, and a reply carries a reason only
/// when it refuses and a size only when it allows.
pub open spec fn peer_readable(v: PeerView) -> bool {
    match v {
        PeerView::FileSearchRequest { search_term, .. } => text_fits(search_term),
        PeerView::UserInfoResponse { description, picture, upload_allowed, .. } => text_fits(
            description,
        ) && (picture matches Some(p) ==> p.len() <= u32::MAX) && upload_allowed is Some,
        PeerView::FolderContentsRequest { directory, legacy_client, .. } => !legacy_client
            && text_fits(directory),
        PeerView::TransferRequest { direction, file, filesize, .. } => text_fits(file) && (
        filesize is Some <==> direction == TransferDirection::Upload),
        PeerView::TransferResponse { allowed, reason, filesize, .. } => (reason matches Some(r)
            ==> text_fits(r) && !allowed) && (filesize is Some ==> allowed),
        PeerView::PlaceholdUpload { file } => text_fits(file),
        PeerView::UploadFailed { file } => text_fits(file),
        PeerView::QueueUpload { file, legacy_client } => !legacy_client && text_fits(file),
        PeerView::PlaceInQueueRequest { file, legacy_client } => !legacy_client && text_fits(file),
        PeerView::PlaceInQueueResponse { filename, .. } => text_fits(filename),
        PeerView::UploadDenied { file, reason } => text_fits(file) && text_fits(reason),
        _ => true,
    }
}

#[verifier::spinoff_prover]
proof fn lemma_user_info_roundtrip(v: PeerView)
    requires
        v is UserInfoResponse,
        peer_readable(v),
    ensures
        sp_user_info(peer_body(v)) == PeerDecoded::Ok(v),
{
    if let PeerView::UserInfoResponse {
        description,
        picture,
        total_uploads,
        queue_size,
        slots_available,
        upload_allowed,
    } = v {
        let e = Seq::<u8>::empty();
        let d = framed_text(description);
        let pic = match picture {
            Some(p) => bool_bytes(true) + framed_blob(p),
            None => bool_bytes(false),
        };
        let t = u32_bytes(total_uploads);
        let q = u32_bytes(queue_size);
        let sl = bool_bytes(slots_available);
        let ua = u32_bytes(upload_allowed.unwrap());
        let data = peer_body(v);
        assert(data == d + pic + t + q + sl + ua);
        lemma_le_bytes_len(total_uploads as nat, 4);
        lemma_le_bytes_len(queue_size as nat, 4);
        lemma_le_bytes_len(upload_allowed.unwrap() as nat, 4);
        let p1 = d.len() as int;
        let p2 = p1 + pic.len();
        assert(sp_string(data, 0) == Decoded::<Seq<char>>::Ok((description, p1))) by {
            lemma_text_at(e, description, pic + t + q + sl + ua);
            assert(data =~= e + d + (pic + t + q + sl + ua));
        }
        assert(sp_picture(data, p1) == Decoded::<Option<Seq<u8>>>::Ok((picture, p2))) by {
            match picture {
                Some(p) => {
                    lemma_bool_at(d, true, framed_blob(p) + t + q + sl + ua);
                    assert(data =~= d + bool_bytes(true) + (framed_blob(p) + t + q + sl + ua));
                    lemma_blob_at(d + bool_bytes(true), p, t + q + sl + ua);
                    assert(data =~= (d + bool_bytes(true)) + framed_blob(p) + (t + q + sl + ua));
                },
                None => {
                    lemma_bool_at(d, false, t + q + sl + ua);
                    assert(data =~= d + bool_bytes(false) + (t + q + sl + ua));
                },
            }
        }
        assert(sp_u32(data, p2) == Decoded::<u32>::Ok((total_uploads, p2 + 4))) by {
            lemma_u32_at(d + pic, total_uploads, q + sl + ua);
            assert(data =~= (d + pic) + t + (q + sl + ua));
        }
        assert(sp_u32(data, p2 + 4) == Decoded::<u32>::Ok((queue_size, p2 + 8))) by {
            lemma_u32_at(d + pic + t, queue_size, sl + ua);
            assert(data =~= (d + pic + t) + q + (sl + ua));
        }
        assert(sp_bool(data, p2 + 8) == Decoded::<bool>::Ok((slots_available, p2 + 9))) by {
            lemma_bool_at(d + pic + t + q, slots_available, ua);
            assert(data =~= (d + pic + t + q) + sl + ua);
        }
        assert(sp_u32(data, p2 + 9) == Decoded::<u32>::Ok((upload_allowed.unwrap(), p2 + 13))
            && data.len() == p2 + 13) by {
            lemma_u32_at(d + pic + t + q + sl, upload_allowed.unwrap(), e);
            assert(data =~= (d + pic + t + q + sl) + ua + e);
        }
    }
}

proof fn lemma_transfer_request_roundtrip(v: PeerView)
    requires
        v is TransferRequest,
        peer_readable(v),
    ensures
        sp_transfer_request(peer_body(v)) == PeerDecoded::Ok(v),
{
    if let PeerView::TransferRequest { direction, token, file, filesize } = v {
        let e = Seq::<u8>::empty();
        let a = u32_bytes(direction.spec_number());
        let b = u32_bytes(token);
        let c = framed_text(file);
        let tail = if direction == TransferDirection::Upload {
            u64_bytes(filesize.unwrap())
        } else {
            Seq::empty()
        };
        let data = peer_body(v);
        assert(data == a + b + c + tail);
        lemma_u32_at(e, direction.spec_number(), b + c + tail);
        assert(data =~= e + a + (b + c + tail));
        lemma_u32_at(a, token, c + tail);
        assert(data =~= a + b + (c + tail));
        lemma_text_at(a + b, file, tail);
        assert(data =~= (a + b) + c + tail);
        if direction == TransferDirection::Upload {
            lemma_u64_at(a + b + c, filesize.unwrap(), e);
            assert(data =~= (a + b + c) + tail + e);
        }
    }
}

proof fn lemma_transfer_response_roundtrip(v: PeerView)
    requires
        v is TransferResponse,
        peer_readable(v),
    ensures
        sp_transfer_response(peer_body(v)) == PeerDecoded::Ok(v),
{
    if let PeerView::TransferResponse { token, allowed, reason, filesize } = v {
        let e = Seq::<u8>::empty();
        let a = u32_bytes(token);
        let b = bool_bytes(allowed);
        let r = match reason {
            Some(x) => framed_text(x),
            None => Seq::empty(),
        };
        let f = match filesize {
            Some(x) => u64_bytes(x),
            None => Seq::empty(),
        };
        let data = peer_body(v);
        assert(data == a + b + r + f);
        lemma_u32_at(e, token, b + r + f);
        assert(data =~= e + a + (b + r + f));
        lemma_bool_at(a, allowed, r + f);
        assert(data =~= a + b + (r + f));
        match reason {
            Some(x) => {
                lemma_text_at(a + b, x, f);
                assert(data =~= (a + b) + r + f);
            },
            None => {},
        }
        match filesize {
            Some(x) => {
                lemma_u64_at(a + b + r, x, e);
                assert(data =~= (a + b + r) + f + e);
            },
            None => {},
        }
    }
}

/// A message other than a compressed listing reads back as the message
/// that was written, when it is readable.
pub proof fn law_peer_roundtrip(v: PeerView, res: Result<PeerMessage, ProtocolError>)
    requires
        !peer_compressed(peer_code(v)),
        peer_readable(v),
        peer_parsed(peer_code(v), peer_body(v), res),
    ensures
        res matches Ok(m) && m@ == v,
{
    let e = Seq::<u8>::empty();
    let data = peer_body(v);
    match v {
        PeerView::FileSearchRequest { token, search_term } => {
            lemma_u32_at(e, token, framed_text(search_term));
            assert(data =~= e + u32_bytes(token) + framed_text(search_term));
            lemma_text_at(u32_bytes(token), search_term, e);
            assert(data =~= u32_bytes(token) + framed_text(search_term) + e);
        },
        PeerView::FolderContentsRequest { token, directory, .. } => {
            lemma_u32_at(e, token, framed_text(directory));
            assert(data =~= e + u32_bytes(token) + framed_text(directory));
            lemma_text_at(u32_bytes(token), directory, e);
            assert(data =~= u32_bytes(token) + framed_text(directory) + e);
        },
        PeerView::UserInfoResponse { .. } => {
            lemma_user_info_roundtrip(v);
        },
        PeerView::TransferRequest { .. } => {
            lemma_transfer_request_roundtrip(v);
        },
        PeerView::TransferResponse { .. } => {
            lemma_transfer_response_roundtrip(v);
        },
        PeerView::PlaceholdUpload { file } | PeerView::UploadFailed { file }
        | PeerView::QueueUpload { file, .. } | PeerView::PlaceInQueueRequest { file, .. } => {
            lemma_text_at(e, file, e);
            assert(data =~= e + framed_text(file) + e);
        },
        PeerView::PlaceInQueueResponse { filename, place } => {
            lemma_text_at(e, filename, u32_bytes(place));
            assert(data =~= e + framed_text(filename) + u32_bytes(place));
            lemma_u32_at(framed_text(filename), place, e);
            assert(data =~= framed_text(filename) + u32_bytes(place) + e);
        },
        PeerView::UploadDenied { file, reason } => {
            lemma_text_at(e, file, framed_text(reason));
            assert(data =~= e + framed_text(file) + framed_text(reason));
            lemma_text_at(framed_text(file), reason, e);
            assert(data =~= framed_text(file) + framed_text(reason) + e);
        },
        _ => {},
    }
}

} // verus!
