use newkitine::protocol::compress::{compress, decompress};
use newkitine::protocol::distributed::DistributedMessage;
use newkitine::protocol::file::{FileOffset, FileTransferInit};
use newkitine::protocol::peer::PeerMessage;
use newkitine::protocol::peer_init::PeerInitMessage;
use newkitine::protocol::server_request::{to_hex_lower, ServerRequest};
use newkitine::protocol::server_response::{LoginOutcome, ServerResponse};
use newkitine::protocol::wire::{MessageReader, MessageWriter, ProtocolError};
use newkitine::protocol::{increment_token, token_from_nanos};
use newkitine::types::{ConnectionType, FileAttributes, FileInfo, FolderContents, TransferDirection};

fn split_frame_u32(bytes: &[u8]) -> (u32, u32, Vec<u8>) {
    let len = u32::from_le_bytes(bytes[0..4].try_into().unwrap());
    let code = u32::from_le_bytes(bytes[4..8].try_into().unwrap());
    (len, code, bytes[8..].to_vec())
}

fn file(name: &str, size: u64) -> FileInfo {
    FileInfo {
        code: 1,
        name: name.to_string(),
        size,
        attributes: FileAttributes {
            bitrate: Some(320),
            length: Some(215),
            vbr: None,
            sample_rate: Some(44100),
            bit_depth: None,
        },
    }
}

#[test]
fn integers_are_little_endian_and_read_back() {
    let mut w = MessageWriter::new();
    w.write_u8(7);
    w.write_bool(true);
    w.write_u16(0x1234);
    w.write_u32(0xDEADBEEF);
    w.write_i32(-2);
    w.write_u64(0x0102030405060708);
    let bytes = w.into_bytes();
    assert_eq!(bytes[2..4], [0x34, 0x12]);
    assert_eq!(bytes[4..8], [0xEF, 0xBE, 0xAD, 0xDE]);
    assert_eq!(bytes[8..12], [0xFE, 0xFF, 0xFF, 0xFF]);
    let mut r = MessageReader::new(&bytes);
    assert_eq!(r.read_u8().unwrap(), 7);
    assert!(r.read_bool().unwrap());
    assert_eq!(r.read_u16().unwrap(), 0x1234);
    assert_eq!(r.read_u32().unwrap(), 0xDEADBEEF);
    assert_eq!(r.read_i32().unwrap(), -2);
    assert_eq!(r.read_u64().unwrap(), 0x0102030405060708);
    assert!(!r.has_remaining());
}

#[test]
fn reading_past_the_end_reports_where() {
    let bytes = [1u8, 2];
    let mut r = MessageReader::new(&bytes);
    match r.read_u32() {
        Err(ProtocolError::UnexpectedEof { offset, needed, available }) => {
            assert_eq!((offset, needed, available), (0, 4, 2));
        }
        other => panic!("unexpected {:?}", other),
    }
}

#[test]
fn strings_fall_back_to_latin1() {
    let mut w = MessageWriter::new();
    w.write_bytes(&[0x63, 0x61, 0x66, 0xE9]);
    w.write_string("caf\u{e9}");
    let bytes = w.into_bytes();
    let mut r = MessageReader::new(&bytes);
    assert_eq!(r.read_string().unwrap(), "caf\u{e9}");
    assert_eq!(r.read_string().unwrap(), "caf\u{e9}");
}

#[test]
fn legacy_strings_are_latin1_when_they_fit() {
    let mut w = MessageWriter::new();
    w.write_string_legacy("caf\u{e9}");
    assert_eq!(w.into_bytes(), vec![4, 0, 0, 0, 0x63, 0x61, 0x66, 0xE9]);
    let mut w = MessageWriter::new();
    w.write_string_legacy("\u{7247}");
    assert_eq!(w.into_bytes(), vec![3, 0, 0, 0, 0xE7, 0x89, 0x87]);
}

#[test]
fn sign_extended_file_sizes_keep_their_low_half() {
    let bytes = [0x10u8, 0, 0, 0x80, 0xFF, 0xFF, 0xFF, 0xFF];
    let mut r = MessageReader::new(&bytes);
    assert_eq!(r.read_file_size().unwrap(), 0x8000_0010);
    let bytes = [1u8, 0, 0, 0, 1, 0, 0, 0];
    let mut r = MessageReader::new(&bytes);
    assert_eq!(r.read_file_size().unwrap(), 0x1_0000_0001);
}

#[test]
fn tokens_count_up_and_skip_zero() {
    assert_eq!(increment_token(41), 42);
    assert_eq!(increment_token(u32::MAX), 1);
    assert_eq!(token_from_nanos(999_999_999), 999_999_999 % (u32::MAX / 1000));
}

#[test]
fn login_request_carries_the_md5_of_user_and_password() {
    let request = ServerRequest::Login {
        username: String::new(),
        password: String::new(),
        version: 160,
        minor_version: 3,
    };
    let bytes = request.to_bytes();
    let (len, code, payload) = split_frame_u32(&bytes);
    assert_eq!(code, 1);
    assert_eq!(len as usize, payload.len() + 4);
    let text = String::from_utf8_lossy(&payload);
    assert!(text.contains("d41d8cd98f00b204e9800998ecf8427e"));
    assert_eq!(to_hex_lower(&[0x00, 0xAB, 0x7F]), "00ab7f");
}

#[test]
fn server_request_frame_holds_its_fields() {
    let request = ServerRequest::FileSearch { token: 5, search_term: "abc".to_string() };
    assert_eq!(request.code(), 26);
    let bytes = request.to_bytes();
    assert_eq!(
        bytes,
        vec![15, 0, 0, 0, 26, 0, 0, 0, 5, 0, 0, 0, 3, 0, 0, 0, b'a', b'b', b'c']
    );
}

#[test]
fn compression_round_trips_and_enforces_the_limit() {
    let data: Vec<u8> = (0..2000u32).map(|i| (i % 7) as u8).collect();
    let packed = compress(&data);
    assert_ne!(packed, data);
    assert_eq!(decompress(&packed, 4096).unwrap(), data);
    assert!(matches!(
        decompress(&packed, 100),
        Err(ProtocolError::DecompressedTooLarge { limit: 100 })
    ));
    assert!(matches!(decompress(&[1, 2, 3, 4], 100), Err(ProtocolError::Decompress(_))));
}

#[test]
fn transfer_request_round_trips() {
    let message = PeerMessage::TransferRequest {
        direction: TransferDirection::Upload,
        token: 77,
        file: "Music\\a.mp3".to_string(),
        filesize: Some(1234),
    };
    let payload = message.make_payload();
    let parsed = PeerMessage::parse(message.code(), &payload).unwrap();
    assert_eq!(parsed, message);
    let bytes = message.to_bytes();
    let (len, code, rest) = split_frame_u32(&bytes);
    assert_eq!((len as usize, code), (payload.len() + 4, 40));
    assert_eq!(rest, payload);
}

#[test]
fn transfer_request_with_unknown_direction_is_refused() {
    let mut w = MessageWriter::new();
    w.write_u32(7);
    w.write_u32(1);
    w.write_string("x");
    match PeerMessage::parse(40, &w.into_bytes()) {
        Err(ProtocolError::InvalidValue { field, value }) => {
            assert_eq!(field, "direction");
            assert_eq!(value, 7);
        }
        other => panic!("unexpected {:?}", other),
    }
}

#[test]
fn transfer_response_reads_size_or_reason() {
    for message in [
        PeerMessage::TransferResponse { token: 3, allowed: true, reason: None, filesize: Some(9) },
        PeerMessage::TransferResponse {
            token: 3,
            allowed: false,
            reason: Some("Queued".to_string()),
            filesize: None,
        },
        PeerMessage::TransferResponse { token: 3, allowed: false, reason: None, filesize: None },
    ] {
        let payload = message.make_payload();
        assert_eq!(PeerMessage::parse(41, &payload).unwrap(), message);
    }
}

#[test]
fn user_info_round_trips_and_old_clients_omit_the_upload_flag() {
    let message = PeerMessage::UserInfoResponse {
        description: "hi".to_string(),
        picture: Some(vec![1, 2, 3]),
        total_uploads: 4,
        queue_size: 5,
        slots_available: true,
        upload_allowed: Some(1),
    };
    let payload = message.make_payload();
    assert_eq!(PeerMessage::parse(16, &payload).unwrap(), message);
    let short = &payload[..payload.len() - 4];
    match PeerMessage::parse(16, short).unwrap() {
        PeerMessage::UserInfoResponse { upload_allowed, .. } => assert_eq!(upload_allowed, None),
        other => panic!("unexpected {:?}", other),
    }
}

#[test]
fn search_results_are_compressed_sorted_and_backslashed() {
    let message = PeerMessage::FileSearchResponse {
        username: "peer".to_string(),
        token: 9,
        results: vec![file("b/second.mp3", 20), file("a\\first.mp3", 10)],
        free_upload_slots: true,
        upload_speed: 1000,
        queue_size: 2,
        unknown: 0,
        private_results: vec![],
    };
    let payload = message.make_payload();
    match PeerMessage::parse(9, &payload).unwrap() {
        PeerMessage::FileSearchResponse { username, token, results, private_results, .. } => {
            assert_eq!((username.as_str(), token), ("peer", 9));
            let names: Vec<&str> = results.iter().map(|f| f.name.as_str()).collect();
            assert_eq!(names, vec!["a\\first.mp3", "b\\second.mp3"]);
            assert_eq!(results[0].attributes, file("x", 0).attributes);
            assert!(private_results.is_empty());
        }
        other => panic!("unexpected {:?}", other),
    }
}

#[test]
fn shared_file_list_round_trips() {
    let message = PeerMessage::SharedFileListResponse {
        shares: vec![
            FolderContents { directory: "Music\\A".to_string(), files: vec![file("x.mp3", 1)] },
            FolderContents { directory: "Music\\B".to_string(), files: vec![] },
        ],
        unknown: 0,
        private_shares: vec![FolderContents {
            directory: "Private".to_string(),
            files: vec![file("y.flac", 2)],
        }],
    };
    let payload = message.make_payload();
    assert_eq!(PeerMessage::parse(5, &payload).unwrap(), message);
}

#[test]
fn unknown_peer_codes_are_refused() {
    assert!(matches!(
        PeerMessage::parse(1000, &[]),
        Err(ProtocolError::UnknownMessageCode { family: "peer", code: 1000 })
    ));
}

#[test]
fn peer_init_and_distributed_messages_round_trip() {
    let init = PeerInitMessage::PeerInit {
        username: "me".to_string(),
        conn_type: ConnectionType::File,
    };
    let bytes = init.to_bytes();
    assert_eq!(bytes[4], 1);
    assert_eq!(PeerInitMessage::parse(1, &bytes[5..]).unwrap(), init);
    let search = DistributedMessage::Search {
        identifier: 1,
        search_username: "u".to_string(),
        token: 2,
        search_term: "t".to_string(),
    };
    let bytes = search.to_bytes();
    assert_eq!(DistributedMessage::parse(3, &bytes[5..]).unwrap(), search);
    let embedded = DistributedMessage::parse(93, &[0, 0, 0, 3, 9, 9]).unwrap();
    assert_eq!(
        embedded,
        DistributedMessage::EmbeddedMessage { distrib_code: 3, distrib_message: vec![9, 9] }
    );
}

#[test]
fn file_connection_messages_are_bare_numbers() {
    assert_eq!(FileTransferInit { token: 258 }.to_bytes(), vec![2, 1, 0, 0]);
    assert_eq!(FileTransferInit::parse(&[2, 1, 0, 0]).unwrap(), FileTransferInit { token: 258 });
    assert_eq!(FileOffset { offset: 1 }.to_bytes(), vec![1, 0, 0, 0, 0, 0, 0, 0]);
}

#[test]
fn server_login_answers_are_read() {
    let mut w = MessageWriter::new();
    w.write_bool(true);
    w.write_string("welcome");
    w.write_u32(0x0100007F);
    w.write_string("checksum");
    w.write_bool(false);
    match ServerResponse::parse(1, &w.into_bytes()).unwrap() {
        ServerResponse::Login(LoginOutcome::Success { banner, ip_address, is_supporter }) => {
            assert_eq!(banner, "welcome");
            assert_eq!(ip_address, 0x0100007F);
            assert!(!is_supporter);
        }
        other => panic!("unexpected {:?}", other),
    }
    let mut w = MessageWriter::new();
    w.write_bool(false);
    w.write_string("INVALIDPASS");
    assert_eq!(
        ServerResponse::parse(1, &w.into_bytes()).unwrap(),
        ServerResponse::Login(LoginOutcome::Failure {
            reason: "INVALIDPASS".to_string(),
            detail: None
        })
    );
}

#[test]
fn server_peer_address_reads_a_padded_port() {
    let mut w = MessageWriter::new();
    w.write_string("bob");
    w.write_u32(1);
    w.write_u32(2234);
    w.write_u32(1);
    w.write_u32(0xFFFF_1235);
    match ServerResponse::parse(3, &w.into_bytes()).unwrap() {
        ServerResponse::GetPeerAddress { user, port, obfuscated_port, .. } => {
            assert_eq!(user, "bob");
            assert_eq!(port, 2234);
            assert_eq!(obfuscated_port, 0x1235);
        }
        other => panic!("unexpected {:?}", other),
    }
}

#[test]
fn server_room_users_are_read_by_column() {
    let mut w = MessageWriter::new();
    w.write_string("room");
    w.write_u32(2);
    w.write_string("a");
    w.write_string("b");
    w.write_u32(2);
    w.write_u32(1);
    w.write_u32(2);
    w.write_u32(1);
    for v in [10, 11, 12, 13, 14] {
        w.write_u32(v);
    }
    w.write_u32(0);
    w.write_u32(1);
    w.write_string("DE");
    match ServerResponse::parse(14, &w.into_bytes()).unwrap() {
        ServerResponse::JoinRoom { room, users, owner, operators } => {
            assert_eq!(room, "room");
            assert_eq!(users.len(), 2);
            assert_eq!((users[0].status, users[1].status), (1, 2));
            assert_eq!(users[0].stats.avgspeed, 10);
            assert_eq!(users[1].stats.dirs, 0);
            assert_eq!(users[0].country.as_deref(), Some("DE"));
            assert_eq!(users[1].country, None);
            assert_eq!(owner, None);
            assert!(operators.is_empty());
        }
        other => panic!("unexpected {:?}", other),
    }
}

#[test]
fn server_user_column_beyond_the_names_is_refused() {
    let mut w = MessageWriter::new();
    w.write_u32(1);
    w.write_string("a");
    w.write_u32(2);
    w.write_u32(1);
    w.write_u32(2);
    match ServerResponse::parse(67, &w.into_bytes()) {
        Err(ProtocolError::InvalidValue { field, value }) => {
            assert_eq!((field, value), ("user_index", 1));
        }
        other => panic!("unexpected {:?}", other),
    }
}

#[test]
fn server_recommendations_split_by_sign_without_duplicates() {
    let mut w = MessageWriter::new();
    w.write_u32(3);
    w.write_string("jazz");
    w.write_i32(5);
    w.write_string("noise");
    w.write_i32(-1);
    w.write_string("jazz");
    w.write_i32(5);
    w.write_u32(1);
    w.write_string("jazz");
    w.write_i32(4);
    match ServerResponse::parse(54, &w.into_bytes()).unwrap() {
        ServerResponse::Recommendations { recommendations, unrecommendations } => {
            assert_eq!(
                recommendations,
                vec![("jazz".to_string(), 5), ("jazz".to_string(), 4)]
            );
            assert_eq!(unrecommendations, vec![("noise".to_string(), -1)]);
        }
        other => panic!("unexpected {:?}", other),
    }
}

#[test]
fn server_room_counts_beyond_the_names_are_refused() {
    let mut w = MessageWriter::new();
    w.write_u32(1);
    w.write_string("r");
    w.write_u32(2);
    w.write_u32(5);
    w.write_u32(6);
    match ServerResponse::parse(64, &w.into_bytes()) {
        Err(ProtocolError::InvalidValue { field, value }) => {
            assert_eq!((field, value), ("room_index", 1));
        }
        other => panic!("unexpected {:?}", other),
    }
}

#[test]
fn server_similar_users_come_highest_rating_first() {
    let mut w = MessageWriter::new();
    w.write_u32(4);
    for (name, rating) in [("a", 1u32), ("b", 5), ("c", 1), ("d", 7)] {
        w.write_string(name);
        w.write_u32(rating);
    }
    match ServerResponse::parse(110, &w.into_bytes()).unwrap() {
        ServerResponse::SimilarUsers { users } => {
            let order: Vec<(&str, u32)> =
                users.iter().map(|u| (u.username.as_str(), u.rating)).collect();
            assert_eq!(order, vec![("d", 7), ("b", 5), ("a", 1), ("c", 1)]);
        }
        other => panic!("unexpected {:?}", other),
    }
}

#[test]
fn server_plain_responses_follow_their_layout() {
    let mut w = MessageWriter::new();
    w.write_string("alice");
    w.write_u32(2);
    w.write_bool(true);
    assert_eq!(
        ServerResponse::parse(7, &w.into_bytes()).unwrap(),
        ServerResponse::GetUserStatus { user: "alice".to_string(), status: 2, privileged: true }
    );
    assert_eq!(ServerResponse::parse(32, &[]).unwrap(), ServerResponse::ServerPing);
    assert!(matches!(
        ServerResponse::parse(9999, &[]),
        Err(ProtocolError::UnknownMessageCode { family: "server", code: 9999 })
    ));
    assert!(matches!(
        ServerResponse::parse(83, &[1, 2]),
        Err(ProtocolError::UnexpectedEof { .. })
    ));
}
