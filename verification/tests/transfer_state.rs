use newkitine::client::transfers::downloads::{Downloads, NetAction};
use newkitine::client::transfers::queue::UploadQueue;
use newkitine::client::transfers::registry::Registry;
use newkitine::client::transfers::{AbortResult, EnqueueResult, RetryResult, TransferIds, TransferWork};
use newkitine::client::users::Users;
use newkitine::protocol::peer::PeerMessage;
use newkitine::protocol::server_request::ServerRequest;
use newkitine::types::{
    ConnId, FileAttributes, Restriction, TransferDirection, TransferId, TransferSnapshot,
    TransferStatus,
};

fn key(user: &str, path: &str) -> (String, String) {
    (user.to_string(), path.to_string())
}

fn no_users() -> Users {
    Users::new(Vec::new(), Vec::new(), Vec::new())
}

fn snapshot_of(work: &TransferWork) -> &TransferSnapshot {
    match work {
        TransferWork::Update(s) | TransferWork::Progress(s) => s,
        TransferWork::Finished { snapshot, .. } => snapshot,
        TransferWork::Removed { .. } => panic!("no snapshot in a removal"),
    }
}

#[test]
fn upload_queue_counts_and_places_uploads() {
    let mut q = UploadQueue::new();
    q.push(key("alice", "a\\1.mp3"));
    q.push(key("bob", "b\\1.mp3"));
    q.push(key("alice", "a\\2.mp3"));
    assert_eq!(q.len(), 3);
    assert_eq!(q.queued_for("alice"), 2);
    assert_eq!(q.queued_for("bob"), 1);
    assert_eq!(q.queued_for("carol"), 0);
    assert_eq!(q.place_of("alice", "a\\2.mp3"), Some(3));
    assert_eq!(q.place_of("bob", "b\\1.mp3"), Some(2));
    assert_eq!(q.place_of("bob", "missing"), None);
}

#[test]
fn upload_queue_takes_turns_between_users() {
    let users = no_users();
    let mut q = UploadQueue::new();
    q.push(key("alice", "a\\1.mp3"));
    q.push(key("alice", "a\\2.mp3"));
    q.push(key("bob", "b\\1.mp3"));
    // Bob queued last, so Alice holds the older turn.
    let first = q.select_next(&users).unwrap();
    assert_eq!(first, key("alice", "a\\1.mp3"));
    q.mark_active(&first, 7);
    assert!(q.is_active("alice"));
    assert_eq!(q.active_user_count(), 1);
    assert_eq!(q.len(), 2);
    // Alice is being served, so Bob is next.
    let second = q.select_next(&users).unwrap();
    assert_eq!(second, key("bob", "b\\1.mp3"));
    q.mark_active(&second, 8);
    // Everyone queued is active: nobody is eligible.
    assert_eq!(q.select_next(&users), None);
    q.release(&first, Some(7));
    assert!(!q.is_active("alice"));
    assert_eq!(q.select_next(&users), Some(key("alice", "a\\2.mp3")));
}

#[test]
fn upload_queue_release_with_another_token_keeps_the_user_active() {
    let mut q = UploadQueue::new();
    q.push(key("alice", "a\\1.mp3"));
    q.mark_active(&key("alice", "a\\1.mp3"), 3);
    q.release(&key("alice", "a\\1.mp3"), Some(4));
    assert!(q.is_active("alice"));
    q.release(&key("alice", "a\\1.mp3"), Some(3));
    assert!(!q.is_active("alice"));
}

#[test]
fn upload_queue_serves_privileged_users_first() {
    let mut users = no_users();
    users.handle_privileged_users(vec!["zed".to_string()]);
    assert!(users.is_privileged("zed"));
    assert!(!users.is_privileged("alice"));
    let mut q = UploadQueue::new();
    q.push(key("alice", "a\\1.mp3"));
    q.push(key("zed", "z\\1.mp3"));
    assert_eq!(q.select_next(&users), Some(key("zed", "z\\1.mp3")));
}

#[test]
fn upload_queue_skips_users_on_hold() {
    let mut users = no_users();
    users.set_restriction("alice".to_string(), Restriction::Hold);
    let mut q = UploadQueue::new();
    q.push(key("alice", "a\\1.mp3"));
    assert_eq!(q.select_next(&users), None);
    q.push(key("bob", "b\\1.mp3"));
    assert_eq!(q.select_next(&users), Some(key("bob", "b\\1.mp3")));
    q.clear();
    assert_eq!(q.len(), 0);
    assert_eq!(q.active_user_count(), 0);
}

#[test]
fn users_keep_buddies_once() {
    let mut users = no_users();
    assert!(users.add_buddy("alice".to_string()));
    assert!(!users.add_buddy("alice".to_string()));
    assert!(users.is_buddy("alice"));
    assert!(users.remove_buddy("alice"));
    assert!(!users.remove_buddy("alice"));
    assert!(!users.is_buddy("alice"));
}

#[test]
fn registry_finds_transfers_by_id_token_and_connection() {
    let mut r: Registry<u32> = Registry::new();
    let k = key("alice", "a\\1.mp3");
    r.insert(TransferId(1), k.clone(), 10);
    assert_eq!(r.get(&k), Some(&10));
    assert_eq!(r.key_of(TransferId(1)), Some(&k));
    assert_eq!(r.key_of(TransferId(2)), None);
    r.attach_token(&k, 99);
    r.attach_conn(&k, ConnId(5));
    assert!(r.owns_token("alice", 99));
    assert!(!r.owns_token("bob", 99));
    assert_eq!(r.key_by_token("alice", 99), Some(&k));
    assert_eq!(r.key_by_conn(ConnId(5)), Some(&k));
    assert_eq!(r.conn_of(&k), Some(ConnId(5)));
    assert_eq!(r.token_count(), 1);
    let d = r.detach(&k);
    assert_eq!(d.token, Some(99));
    assert_eq!(d.conn_id, Some(ConnId(5)));
    assert!(!r.owns_token("alice", 99));
    assert_eq!(r.key_by_conn(ConnId(5)), None);
    assert_eq!(r.get(&k), Some(&10));
    let removed = r.remove(TransferId(1)).unwrap();
    assert_eq!(removed.0, k);
    assert_eq!(r.get(&k), None);
    assert!(r.remove(TransferId(1)).is_none());
    assert!(r.keys().is_empty());
}

#[test]
fn registry_insert_replaces_the_entry_of_a_key() {
    let mut r: Registry<u32> = Registry::new();
    let k = key("alice", "a\\1.mp3");
    r.insert(TransferId(1), k.clone(), 10);
    r.attach_token(&k, 4);
    r.insert(TransferId(2), k.clone(), 20);
    assert_eq!(r.get(&k), Some(&20));
    assert_eq!(r.key_of(TransferId(1)), None);
    assert_eq!(r.key_of(TransferId(2)), Some(&k));
    assert!(!r.owns_token("alice", 4));
    assert_eq!(r.values(), vec![&20]);
}

#[test]
fn transfer_ids_continue_after_the_seeds() {
    let mut ids = TransferIds::new(&[]);
    assert_eq!(ids.mint(), TransferId(1));
    assert_eq!(ids.mint(), TransferId(2));
    let seed = TransferSnapshot {
        id: TransferId(41),
        direction: TransferDirection::Download,
        username: "alice".to_string(),
        virtual_path: "a\\1.mp3".to_string(),
        size: 1,
        bytes_done: 0,
        status: TransferStatus::Finished,
        failure_reason: None,
        file_path: None,
        queue_place: 0,
        speed_bps: 0,
        attributes: FileAttributes::empty(),
    };
    let mut ids = TransferIds::new(&[seed]);
    assert_eq!(ids.mint(), TransferId(42));
}

fn enqueue_one(d: &mut Downloads, ids: &mut TransferIds, net: &mut Vec<NetAction>) -> TransferId {
    let (res, work) = d.enqueue(
        ids,
        "alice".to_string(),
        "music\\song.mp3".to_string(),
        1000,
        FileAttributes::empty(),
        false,
        net,
    );
    assert_eq!(res, EnqueueResult::Enqueued);
    assert_eq!(work.len(), 1);
    let snap = snapshot_of(&work[0]);
    assert_eq!(snap.status, TransferStatus::Queued);
    assert_eq!(snap.size, 1000);
    snap.id
}

#[test]
fn enqueue_watches_the_user_and_asks_for_the_file() {
    let mut d = Downloads::new("/dl".to_string(), "/inc".to_string(), false);
    let mut ids = TransferIds::new(&[]);
    let mut net = Vec::new();
    let id = enqueue_one(&mut d, &mut ids, &mut net);
    assert_eq!(id, TransferId(1));
    assert_eq!(net.len(), 2);
    assert!(matches!(&net[0], NetAction::Server(ServerRequest::WatchUser { user }) if user == "alice"));
    assert!(matches!(
        &net[1],
        NetAction::Peer { username, message: PeerMessage::QueueUpload { file, legacy_client: false } }
            if username == "alice" && file == "music\\song.mp3"
    ));
    // A queued download is under way: asking again changes nothing.
    let (res, work) = d.enqueue(
        &mut ids,
        "alice".to_string(),
        "music\\song.mp3".to_string(),
        1000,
        FileAttributes::empty(),
        false,
        &mut net,
    );
    assert_eq!(res, EnqueueResult::AlreadyActive);
    assert!(work.is_empty());
    assert_eq!(net.len(), 2);
}

#[test]
fn deferred_queue_requests_wait_for_the_flush() {
    let mut d = Downloads::new("/dl".to_string(), "/inc".to_string(), false);
    let mut ids = TransferIds::new(&[]);
    let mut net = Vec::new();
    let (res, _) = d.enqueue(
        &mut ids,
        "alice".to_string(),
        "music\\song.mp3".to_string(),
        1000,
        FileAttributes::empty(),
        true,
        &mut net,
    );
    assert_eq!(res, EnqueueResult::Enqueued);
    assert_eq!(net.len(), 1);
    d.flush_queued_requests(&mut net);
    assert_eq!(net.len(), 2);
    assert!(matches!(&net[1], NetAction::Peer { message: PeerMessage::QueueUpload { .. }, .. }));
}

#[test]
fn transfer_requests_are_accepted_only_for_waiting_downloads() {
    let mut d = Downloads::new("/dl".to_string(), "/inc".to_string(), false);
    let mut ids = TransferIds::new(&[]);
    let mut net = Vec::new();
    enqueue_one(&mut d, &mut ids, &mut net);
    net.clear();
    d.handle_transfer_request("alice", 77, "music\\song.mp3", Some(2000), 5, &mut net);
    assert!(matches!(
        &net[0],
        NetAction::Peer { message: PeerMessage::TransferResponse { token: 77, allowed: true, reason: None, filesize: None }, .. }
    ));
    assert!(d.owns_token("alice", 77));
    d.handle_transfer_request("alice", 78, "other.mp3", None, 5, &mut net);
    match &net[1] {
        NetAction::Peer { message: PeerMessage::TransferResponse { token, allowed, reason, .. }, .. } => {
            assert_eq!(*token, 78);
            assert!(!*allowed);
            assert_eq!(reason.as_deref(), Some("Cancelled"));
        }
        _ => panic!("expected a transfer response"),
    }
    assert!(!d.owns_token("alice", 78));
}

#[test]
fn aborted_downloads_can_be_retried_and_then_cleared() {
    let mut d = Downloads::new("/dl".to_string(), "/inc".to_string(), false);
    let mut ids = TransferIds::new(&[]);
    let mut net = Vec::new();
    let id = enqueue_one(&mut d, &mut ids, &mut net);
    let (res, work) = d.abort(id, &mut net);
    assert_eq!(res, AbortResult::Aborted);
    assert_eq!(snapshot_of(&work[0]).status, TransferStatus::Aborted);
    let (res, _) = d.abort(TransferId(99), &mut net);
    assert_eq!(res, AbortResult::NotFound);
    let (res, work) = d.retry(&mut ids, id, false, &mut net);
    assert_eq!(res, RetryResult::Requeued);
    assert_eq!(snapshot_of(&work[0]).status, TransferStatus::Queued);
    let (res, _) = d.retry(&mut ids, id, false, &mut net);
    assert_eq!(res, RetryResult::AlreadyActive);
    let (res, _) = d.retry(&mut ids, TransferId(99), false, &mut net);
    assert_eq!(res, RetryResult::NotFound);
    let _ = d.abort(id, &mut net);
    let removed = d.clear(&[TransferStatus::Aborted], &mut net);
    assert_eq!(removed, vec![id]);
    let (res, _) = d.abort(id, &mut net);
    assert_eq!(res, AbortResult::NotFound);
}

#[test]
fn a_refused_download_fails_with_the_peers_reason() {
    let mut d = Downloads::new("/dl".to_string(), "/inc".to_string(), false);
    let mut ids = TransferIds::new(&[]);
    let mut net = Vec::new();
    enqueue_one(&mut d, &mut ids, &mut net);
    let work = d.handle_upload_denied("alice", "music\\song.mp3", "Banned", false, &mut net);
    let snap = snapshot_of(&work[0]);
    assert_eq!(snap.status, TransferStatus::Failed);
    assert_eq!(snap.failure_reason.as_deref(), Some("Banned"));
}

#[test]
fn queue_places_are_reported() {
    let mut d = Downloads::new("/dl".to_string(), "/inc".to_string(), false);
    let mut ids = TransferIds::new(&[]);
    let mut net = Vec::new();
    enqueue_one(&mut d, &mut ids, &mut net);
    let work = d.queue_place("alice", "music\\song.mp3", 12).unwrap();
    assert_eq!(snapshot_of(&work).queue_place, 12);
    assert!(d.queue_place("alice", "unknown.mp3", 3).is_none());
}

#[test]
fn queued_downloads_are_asked_for_again_after_login() {
    let mut d = Downloads::new("/dl".to_string(), "/inc".to_string(), false);
    let mut ids = TransferIds::new(&[]);
    let mut net = Vec::new();
    enqueue_one(&mut d, &mut ids, &mut net);
    let mut net = Vec::new();
    d.request_queued(false, &mut net);
    assert_eq!(net.len(), 2);
    assert!(matches!(&net[0], NetAction::Server(ServerRequest::WatchUser { user }) if user == "alice"));
    assert!(matches!(
        &net[1],
        NetAction::Peer { username, message: PeerMessage::QueueUpload { file, .. } }
            if username == "alice" && file == "music\\song.mp3"
    ));
    // Held back while the shares are scanned, then sent by the flush.
    let mut net = Vec::new();
    d.request_queued(true, &mut net);
    assert_eq!(net.len(), 1);
    d.flush_queued_requests(&mut net);
    assert_eq!(net.len(), 2);
    assert!(d.has_partial_file(&key("alice", "music\\song.mp3")) == false);
}

#[test]
fn queue_places_are_asked_for_every_five_minutes() {
    let mut d = Downloads::new("/dl".to_string(), "/inc".to_string(), false);
    let mut ids = TransferIds::new(&[]);
    let mut net = Vec::new();
    enqueue_one(&mut d, &mut ids, &mut net);
    let mut net = Vec::new();
    d.request_queue_positions(1_000, &mut net);
    assert!(net.is_empty());
    d.request_queue_positions(300_999, &mut net);
    assert!(net.is_empty());
    d.request_queue_positions(301_000, &mut net);
    assert_eq!(net.len(), 1);
    assert!(matches!(
        &net[0],
        NetAction::Peer { username, message: PeerMessage::PlaceInQueueRequest { file, legacy_client: false } }
            if username == "alice" && file == "music\\song.mp3"
    ));
    d.request_queue_positions(301_001, &mut net);
    assert_eq!(net.len(), 1);
}

#[test]
fn unreachable_peers_fail_their_queued_downloads() {
    let mut d = Downloads::new("/dl".to_string(), "/inc".to_string(), false);
    let mut ids = TransferIds::new(&[]);
    let mut net = Vec::new();
    enqueue_one(&mut d, &mut ids, &mut net);
    let unsent = vec![
        PeerMessage::QueueUpload { file: "music\\song.mp3".to_string(), legacy_client: false },
        PeerMessage::QueueUpload { file: "music\\song.mp3".to_string(), legacy_client: false },
    ];
    let work = d.handle_peer_connection_error("bob", &unsent, true);
    assert!(work.is_empty());
    let work = d.handle_peer_connection_error("alice", &unsent, true);
    assert_eq!(work.len(), 1);
    let snap = snapshot_of(&work[0]);
    assert_eq!(snap.status, TransferStatus::Failed);
    assert_eq!(snap.failure_reason.as_deref(), Some("user is offline"));
}
