use newkitine::client::shares::index::{DirEntry, EntryKind, FolderScan, SharesIndex};
use newkitine::client::speed::SpeedMeter;
use newkitine::client::transfers::downloads::NetAction;
use newkitine::client::transfers::uploads::Uploads;
use newkitine::client::transfers::{AbortResult, TransferIds, TransferWork};
use newkitine::client::users::Users;
use newkitine::protocol::peer::PeerMessage;
use newkitine::protocol::server_request::ServerRequest;
use newkitine::types::{ConnId, FileAttributes, Restriction, TransferDirection, TransferStatus};

/// A share holding `Music\song.mp3` (seven bytes).
fn music_share() -> SharesIndex {
    let mut index = SharesIndex::new();
    let mut scan = FolderScan::new("Music".to_string());
    index.add_entry(
        &mut scan,
        DirEntry {
            name: "song.mp3".to_string(),
            real_path: "/share/song.mp3".to_string(),
            kind: EntryKind::File,
            size: 7,
            attributes: FileAttributes::default(),
        },
        false,
    );
    let rest = index.finish_folder(scan, false);
    assert!(rest.is_empty());
    index
}

fn no_users() -> Users {
    Users::new(Vec::new(), Vec::new(), Vec::new())
}

fn status_of(work: &TransferWork) -> TransferStatus {
    match work {
        TransferWork::Update(s) | TransferWork::Progress(s) => s.status,
        TransferWork::Finished { snapshot, .. } => snapshot.status,
        TransferWork::Removed { .. } => panic!("no status in a removal"),
    }
}

#[test]
fn restriction_tiers_control_slot_grants() {
    let mut uploads = Uploads::new(0, 500);
    let mut ids = TransferIds::new(&[]);
    let shares = music_share();
    let mut users = no_users();
    users.set_restriction("leech".into(), Restriction::Deprioritized);
    let mut net = Vec::new();

    let (_, accepted) =
        uploads.handle_queue_upload(&mut ids, "leech", "Music\\song.mp3", Some(&shares), &users, 0, &mut net);
    assert!(accepted);
    let (_, accepted) =
        uploads.handle_queue_upload(&mut ids, "human", "Music\\song.mp3", Some(&shares), &users, 0, &mut net);
    assert!(accepted);

    uploads.set_limits(1, 500);
    uploads.check_queue(&users, 0, &mut net);
    assert!(uploads.is_serving("human"));
    assert!(!uploads.is_serving("leech"));

    users.set_restriction("leech".into(), Restriction::Hold);
    uploads.set_limits(2, 500);
    uploads.check_queue(&users, 0, &mut net);
    assert!(!uploads.is_serving("leech"));

    users.set_restriction("leech".into(), Restriction::Unrestricted);
    uploads.check_queue(&users, 0, &mut net);
    assert!(uploads.is_serving("leech"));
}

#[test]
fn denied_restriction_rejects_queue_requests() {
    let mut uploads = Uploads::new(2, 500);
    let mut ids = TransferIds::new(&[]);
    let shares = music_share();
    let mut users = no_users();
    users.set_restriction("leech".into(), Restriction::Denied { reason: "not welcome".into() });
    let mut net = Vec::new();
    let (updates, accepted) =
        uploads.handle_queue_upload(&mut ids, "leech", "Music\\song.mp3", Some(&shares), &users, 0, &mut net);
    assert!(!accepted);
    assert!(updates.is_empty());
    assert!(matches!(
        &net[0],
        NetAction::Peer { message: PeerMessage::UploadDenied { reason, .. }, .. } if reason == "not welcome"
    ));
}

#[test]
fn queue_requests_are_refused_with_a_reason() {
    let mut uploads = Uploads::new(0, 1);
    let mut ids = TransferIds::new(&[]);
    let shares = music_share();
    let banned = Users::new(Vec::new(), vec!["bad".to_string()], Vec::new());
    let mut net = Vec::new();
    let reason_of = |net: &Vec<NetAction>| match net.last() {
        Some(NetAction::Peer { message: PeerMessage::UploadDenied { reason, .. }, .. }) => reason.clone(),
        _ => panic!("expected a denial"),
    };
    let (_, ok) = uploads.handle_queue_upload(&mut ids, "bad", "Music\\song.mp3", Some(&shares), &banned, 0, &mut net);
    assert!(!ok);
    assert_eq!(reason_of(&net), "Banned");
    let users = no_users();
    let (_, ok) = uploads.handle_queue_upload(&mut ids, "a", "Music\\other.mp3", Some(&shares), &users, 0, &mut net);
    assert!(!ok);
    assert_eq!(reason_of(&net), "File not shared.");
    let (_, ok) = uploads.handle_queue_upload(&mut ids, "a", "Music\\song.mp3", None, &users, 0, &mut net);
    assert!(!ok);
    assert_eq!(reason_of(&net), "File not shared.");
    let (_, ok) = uploads.handle_queue_upload(&mut ids, "a", "music\\SONG.mp3", Some(&shares), &users, 0, &mut net);
    assert!(ok);
    assert_eq!(uploads.queue_size(), 1);
    let (_, ok) = uploads.handle_queue_upload(&mut ids, "a", "Music\\song.mp3", Some(&shares), &users, 0, &mut net);
    assert!(!ok);
    assert_eq!(reason_of(&net), "Too many files");
}

#[test]
fn an_upload_runs_from_request_to_finish() {
    let mut uploads = Uploads::new(1, 10);
    let mut ids = TransferIds::new(&[]);
    let shares = music_share();
    let users = no_users();
    let mut net = Vec::new();
    let (work, ok) =
        uploads.handle_queue_upload(&mut ids, "peer", "Music\\song.mp3", Some(&shares), &users, 100, &mut net);
    assert!(ok);
    assert_eq!(work.len(), 1);
    assert_eq!(status_of(&work[0]), TransferStatus::Queued);
    assert_eq!(uploads.queue_size(), 0);
    let token = match net.last() {
        Some(NetAction::Peer {
            username,
            message: PeerMessage::TransferRequest { direction: TransferDirection::Upload, token, file, filesize },
        }) => {
            assert_eq!(username, "peer");
            assert_eq!(file, "Music\\song.mp3");
            assert_eq!(*filesize, Some(7));
            *token
        }
        _ => panic!("expected a transfer request"),
    };
    assert!(uploads.owns_token("peer", token));
    assert!(!uploads.is_new_upload_accepted());

    let work = uploads.handle_transfer_response("peer", token, true, None, &users, 200, &mut net);
    assert!(work.is_empty());
    assert!(matches!(net.last(), Some(NetAction::RequestFileConnection { username, token: t }) if username == "peer" && *t == token));

    let start = uploads.begin_upload("peer", token, ConnId(9), &users, 300, &mut net).unwrap();
    assert_eq!(start.real_path, "/share/song.mp3");
    let work = uploads.upload_opened(&start.key, ConnId(9), Ok(()), &users, 1_000_000_000, &mut net);
    assert_eq!(status_of(&work[0]), TransferStatus::Transferring);
    assert!(matches!(net.last(), Some(NetAction::UploadFile { conn_id: ConnId(9), size: 7 })));

    let work = uploads.handle_upload_progress("peer", token, 0, 7, 2_000_000_000);
    match &work[0] {
        TransferWork::Progress(s) => assert_eq!(s.bytes_done, 7),
        _ => panic!("expected progress"),
    }
    let work = uploads.handle_file_connection_closed("peer", Some(token), ConnId(9), &users, 3_000_000_000, &mut net);
    match &work[0] {
        TransferWork::Finished { snapshot, avg_speed_bps } => {
            assert_eq!(snapshot.status, TransferStatus::Finished);
            // Seven bytes over two seconds: three bytes per second.
            assert_eq!(*avg_speed_bps, Some(3));
        }
        _ => panic!("expected a finished upload"),
    }
    assert!(matches!(net.last(), Some(NetAction::Server(ServerRequest::SendUploadSpeed { speed: 3 }))));
    assert!(uploads.is_new_upload_accepted());
}

#[test]
fn a_failed_open_fails_the_upload_and_tells_the_peer() {
    let mut uploads = Uploads::new(1, 10);
    let mut ids = TransferIds::new(&[]);
    let shares = music_share();
    let users = no_users();
    let mut net = Vec::new();
    uploads.handle_queue_upload(&mut ids, "peer", "Music\\song.mp3", Some(&shares), &users, 0, &mut net);
    let token = match net.last() {
        Some(NetAction::Peer { message: PeerMessage::TransferRequest { token, .. }, .. }) => *token,
        _ => panic!("expected a transfer request"),
    };
    let start = uploads.begin_upload("peer", token, ConnId(4), &users, 0, &mut net).unwrap();
    // A second connection for the same upload is closed.
    assert!(uploads.begin_upload("peer", token, ConnId(5), &users, 0, &mut net).is_none());
    assert!(matches!(net.last(), Some(NetAction::CloseConnection(ConnId(5)))));
    let work = uploads.upload_opened(&start.key, ConnId(4), Err("gone".to_string()), &users, 0, &mut net);
    match &work[0] {
        TransferWork::Update(s) => {
            assert_eq!(s.status, TransferStatus::Failed);
            assert_eq!(s.failure_reason.as_deref(), Some("local file error: gone"));
        }
        _ => panic!("expected a failure"),
    }
}

#[test]
fn aborting_an_upload_cancels_it_and_frees_the_slot() {
    let mut uploads = Uploads::new(1, 10);
    let mut ids = TransferIds::new(&[]);
    let shares = music_share();
    let users = no_users();
    let mut net = Vec::new();
    let (work, _) =
        uploads.handle_queue_upload(&mut ids, "peer", "Music\\song.mp3", Some(&shares), &users, 0, &mut net);
    let id = match &work[0] {
        TransferWork::Update(s) => s.id,
        _ => panic!("expected an update"),
    };
    let (res, work) = uploads.abort(id, &users, 0, &mut net);
    assert_eq!(res, AbortResult::Aborted);
    assert_eq!(status_of(&work[0]), TransferStatus::Aborted);
    assert!(net.iter().any(|a| matches!(a, NetAction::Peer { message: PeerMessage::UploadDenied { reason, .. }, .. } if reason == "Cancelled")));
    assert!(uploads.is_new_upload_accepted());
    let removed = uploads.clear(&[TransferStatus::Aborted], &mut net);
    assert_eq!(removed, vec![id]);
    let (res, _) = uploads.abort(id, &users, 0, &mut net);
    assert_eq!(res, AbortResult::NotFound);
}

#[test]
fn request_timeouts_and_disconnects_fail_uploads() {
    let mut uploads = Uploads::new(2, 10);
    let mut ids = TransferIds::new(&[]);
    let shares = music_share();
    let users = no_users();
    let mut net = Vec::new();
    uploads.handle_queue_upload(&mut ids, "peer", "Music\\song.mp3", Some(&shares), &users, 1_000, &mut net);
    assert!(uploads.sweep_request_timeouts(2_000, 5_000, &users, &mut net).is_empty());
    let work = uploads.sweep_request_timeouts(10_000, 5_000, &users, &mut net);
    assert_eq!(work.len(), 1);
    match &work[0] {
        TransferWork::Update(s) => assert_eq!(s.failure_reason.as_deref(), Some("request timed out")),
        _ => panic!("expected a failure"),
    }
    uploads.handle_queue_upload(&mut ids, "other", "Music\\song.mp3", Some(&shares), &users, 0, &mut net);
    let work = uploads.reset();
    assert_eq!(work.len(), 1);
    match &work[0] {
        TransferWork::Update(s) => assert_eq!(s.failure_reason.as_deref(), Some("server disconnected")),
        _ => panic!("expected a failure"),
    }
}

#[test]
fn place_in_queue_is_answered_for_queued_uploads() {
    let mut uploads = Uploads::new(0, 10);
    let mut ids = TransferIds::new(&[]);
    let shares = music_share();
    let users = no_users();
    let mut net = Vec::new();
    uploads.handle_queue_upload(&mut ids, "peer", "Music\\song.mp3", Some(&shares), &users, 0, &mut net);
    net.clear();
    uploads.handle_place_in_queue_request("peer", "Music\\song.mp3", &mut net);
    assert!(matches!(
        &net[0],
        NetAction::Peer { message: PeerMessage::PlaceInQueueResponse { place: 1, .. }, .. }
    ));
    uploads.handle_place_in_queue_request("peer", "unknown", &mut net);
    assert_eq!(net.len(), 1);
}

#[test]
fn speed_is_measured_over_a_second_or_more() {
    let mut meter = SpeedMeter::new();
    assert_eq!(meter.sample(0, 0), 0);
    assert_eq!(meter.sample(500_000_000, 1_000), 0);
    assert_eq!(meter.sample(2_000_000_000, 4_000), 2_000);
    meter.reset();
    assert_eq!(meter.sample(5_000_000_000, 0), 0);
}
