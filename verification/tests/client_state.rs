use newkitine::client::users::Users;
use newkitine::client::requests::{deferrable_path, PendingRequests, PENDING_REQUEST_LIMIT};
use newkitine::client::session::{reconnect_jitter, Interests, Session, RECONNECT_MAX_DELAY_MS};
use newkitine::client::shares::audio::{attributes_from, has_audio_extension, reads_audio_attributes};
use newkitine::client::transfers::files::{candidate_name, split_extension, truncate_bytes};
use newkitine::protocol::peer::PeerMessage;
use newkitine::protocol::server_request::ServerRequest;
use newkitine::types::TransferDirection;

#[test]
fn reconnect_delays_double_up_to_the_limit() {
    let mut session = Session::new();
    session.schedule_reconnect(1_000, 0);
    assert_eq!(session.reconnect_at, Some(6_000));
    session.schedule_reconnect(1_000, 7);
    assert_eq!(session.reconnect_at, Some(11_007));
    for _ in 0..20 {
        session.schedule_reconnect(0, 0);
    }
    assert_eq!(session.reconnect_delay_ms, RECONNECT_MAX_DELAY_MS);
    session.logged_in();
    assert_eq!(session.reconnect_delay_ms, 5_000);
    assert_eq!(session.reconnect_at, None);
    assert!(reconnect_jitter() < 10_000);
}

#[test]
fn a_disconnection_reconnects_only_when_asked_or_lost() {
    let mut session = Session::new();
    assert!(!session.reconnect());
    assert!(session.connected);
    assert!(session.reconnect());
    assert!(session.reconnect_now);
    assert!(session.server_disconnected(false, true, 0, 0));
    assert!(session.connected && !session.reconnect_now);
    assert!(!session.server_disconnected(true, true, 0, 0));
    assert_eq!(session.reconnect_at, None);
    assert!(!session.server_disconnected(false, true, 0, 0));
    assert_eq!(session.reconnect_at, Some(5_000));
}

#[test]
fn interests_are_kept_once_and_told_at_login() {
    let mut interests = Interests::new(Vec::new(), Vec::new());
    assert!(matches!(interests.add("jazz".into(), false), ServerRequest::AddThingILike { thing } if thing == "jazz"));
    interests.add("jazz".into(), false);
    interests.add("noise".into(), true);
    let requests = interests.login_requests("me", 2, 5);
    assert_eq!(requests.len(), 5);
    assert!(matches!(&requests[0], ServerRequest::WatchUser { user } if user == "me"));
    assert!(matches!(&requests[1], ServerRequest::SharedFoldersFiles { folders: 2, files: 5 }));
    assert!(matches!(&requests[2], ServerRequest::AddThingILike { thing } if thing == "jazz"));
    assert!(matches!(&requests[3], ServerRequest::AddThingIHate { thing } if thing == "noise"));
    assert!(matches!(&requests[4], ServerRequest::CheckPrivileges));
    assert!(matches!(interests.remove("jazz", false), ServerRequest::RemoveThingILike { .. }));
    assert_eq!(interests.login_requests("me", 0, 0).len(), 4);
}

fn queue_upload(file: &str) -> PeerMessage {
    PeerMessage::QueueUpload { file: file.to_string(), legacy_client: false }
}

#[test]
fn requests_wait_for_the_share_index_once_per_file() {
    assert_eq!(deferrable_path(&queue_upload("a")), Some("a"));
    let download = PeerMessage::TransferRequest {
        direction: TransferDirection::Download,
        token: 1,
        file: "b".into(),
        filesize: None,
    };
    assert_eq!(deferrable_path(&download), Some("b"));
    assert_eq!(deferrable_path(&PeerMessage::UserInfoRequest), None);

    let mut pending = PendingRequests::new();
    assert!(pending.defer("u".into(), queue_upload("a")).is_none());
    assert!(pending.defer("u".into(), queue_upload("a")).is_none());
    assert!(pending.defer("v".into(), queue_upload("a")).is_none());
    assert_eq!(pending.len(), 2);
    assert!(pending.defer("u".into(), PeerMessage::UserInfoRequest).is_some());
    for i in 0..PENDING_REQUEST_LIMIT {
        let _ = pending.defer("w".into(), queue_upload(&format!("f{i}")));
    }
    assert_eq!(pending.len(), PENDING_REQUEST_LIMIT);
    assert!(pending.defer("x".into(), queue_upload("late")).is_some());
    let all = pending.take_all();
    assert_eq!(all.len(), PENDING_REQUEST_LIMIT);
    assert_eq!(all[0].0, "u");
    assert_eq!(pending.len(), 0);
}

#[test]
fn audio_files_are_recognised_by_extension() {
    assert!(has_audio_extension("song.MP3"));
    assert!(has_audio_extension("a.b.flac"));
    assert!(!has_audio_extension("notes.txt"));
    assert!(!has_audio_extension(".mp3"));
    assert!(!has_audio_extension("mp3"));
    assert!(reads_audio_attributes("song.ogg", 129));
    assert!(!reads_audio_attributes("song.ogg", 128));
    let a = attributes_from(Some(320), Some(0), Some(16), 210);
    assert_eq!(a.bitrate, Some(320));
    assert_eq!(a.sample_rate, None);
    assert_eq!(a.bit_depth, Some(16));
    assert_eq!(a.length, Some(210));
    assert_eq!(attributes_from(None, None, None, 1 << 32).length, None);
}

#[test]
fn destination_names_count_up_before_the_extension() {
    assert_eq!(split_extension("song.mp3"), ("song".to_string(), ".mp3".to_string()));
    assert_eq!(split_extension(".hidden"), (".hidden".to_string(), String::new()));
    assert_eq!(candidate_name("song.mp3", 0), "song.mp3");
    assert_eq!(candidate_name("song.mp3", 1), "song (1).mp3");
    assert_eq!(candidate_name("archive.tar.gz", 12), "archive.tar (12).gz");
    assert_eq!(truncate_bytes("héllo", 2), "h");
    assert_eq!(truncate_bytes("héllo", 3), "hé");
    assert_eq!(truncate_bytes("abc", 10), "abc");
}

#[test]
fn address_patterns_ban_matching_peers_only() {
    let mut users = Users::new(vec![], vec![], vec![]);
    assert!(!users.is_ip_banned(0x0a000005));
    users.set_ip_bans(vec![
        "10.0.*.5".to_string(),
        "192.168.1.300".to_string(),
        "1.2.3".to_string(),
        "*.*.*.7".to_string(),
        "a.b.c.d".to_string(),
    ]);
    assert!(users.is_ip_banned(0x0a000005));
    assert!(users.is_ip_banned(0x0a00ff05));
    assert!(!users.is_ip_banned(0x0a010005));
    assert!(users.is_ip_banned(0xc0a80107));
    assert!(!users.is_ip_banned(0xc0a8012c));
    assert!(!users.is_ip_banned(0x01020300));
}
