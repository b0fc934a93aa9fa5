use newkitine::network::addresses::{AddressBook, USER_ADDRESS_TTL_MS};
use newkitine::network::attempts::{Attempts, INDIRECT_REQUEST_TIMEOUT_MS};
use newkitine::types::{ConnId, ConnectionType};
use newkitine::network::pacing::{pace_step, PaceStep};
use newkitine::network::state::{ConnAction, NetState};
use newkitine::protocol::peer_init::PeerInitMessage;
use newkitine::protocol::server_request::ServerRequest;
use newkitine::protocol::server_response::ServerResponse;
use newkitine::types::UserStats;

#[test]
fn addresses_are_kept_for_watched_users_only() {
    let mut book = AddressBook::new();
    book.peer_address_seen("ann", 0x0a000001, 2234, Some("me"), 0);
    assert_eq!(book.lookup_fresh_address("ann", Some("me"), 0), None);
    book.watch_user("ann");
    book.peer_address_seen("ann", 0x0a000001, 2234, Some("me"), 0);
    assert_eq!(book.lookup_fresh_address("ann", Some("me"), 10), Some((0x0a000001, 2234)));
    // Stale after the time to live.
    assert_eq!(book.lookup_fresh_address("ann", Some("me"), USER_ADDRESS_TTL_MS + 1), None);
    // Offline: the address goes.
    book.peer_address_seen("ann", 0, 2234, Some("me"), 20);
    assert_eq!(book.lookup_fresh_address("ann", Some("me"), 30), None);
    book.cache_address("ann", 7, 9, 40);
    assert_eq!(book.lookup_fresh_address("ann", None, 50), Some((7, 9)));
    book.forget_address("ann");
    assert_eq!(book.lookup_fresh_address("ann", None, 50), None);
    book.cache_address("bob", 7, 9, 40);
    book.unwatch_user("bob");
    assert_eq!(book.lookup_fresh_address("bob", None, 50), None);
    // Our own address never goes stale; the server's answer about
    // ourselves is not recorded.
    book.cache_address("me", 1, 2, 0);
    book.peer_address_seen("me", 0, 0, Some("me"), 5);
    assert_eq!(book.lookup_fresh_address("me", Some("me"), USER_ADDRESS_TTL_MS * 3), Some((1, 2)));
    book.reset();
    assert_eq!(book.lookup_fresh_address("me", Some("me"), 0), None);
}

#[test]
fn attempts_share_message_connections_and_claim_their_tokens_once() {
    let mut attempts = Attempts::new(u32::MAX);
    let (first, token) = attempts.register("ann".to_string(), ConnectionType::Peer, 100);
    assert_eq!((first, token), (1, 1));
    assert_eq!(attempts.existing_attempt("ann", ConnectionType::Peer), Some(first));
    assert_eq!(attempts.existing_attempt("Ann", ConnectionType::Peer), None);
    // File connections are never shared.
    let (file, file_token) = attempts.register("ann".to_string(), ConnectionType::File, 100);
    assert_eq!((file, file_token), (2, 2));
    assert_eq!(attempts.existing_attempt("ann", ConnectionType::File), None);
    // A second message attempt replaces the first as the one found.
    let (second, _) = attempts.register("ann".to_string(), ConnectionType::Peer, 200);
    assert_eq!(attempts.existing_attempt("ann", ConnectionType::Peer), Some(second));
    // A token is claimed once.
    assert_eq!(attempts.claim_pierce(token), Some(first));
    assert_eq!(attempts.claim_pierce(token), None);
    assert_eq!(attempts.claim_pierce(77), None);
    assert_eq!(attempts.target(first), Some(("ann".to_string(), ConnectionType::Peer)));
    // Unanswered ones expire after the timeout.
    assert!(attempts.mark_established(second, ConnId(5)));
    assert_eq!(attempts.expired(100 + INDIRECT_REQUEST_TIMEOUT_MS), Vec::<u64>::new());
    assert_eq!(attempts.expired(101 + INDIRECT_REQUEST_TIMEOUT_MS), vec![first, file]);
    let removed = attempts.remove(first).expect("the first attempt");
    assert_eq!(removed.username, "ann");
    assert!(attempts.remove(first).is_none());
    assert_eq!(attempts.target(first), None);
}

#[test]
fn an_incoming_connection_replaces_the_attempt_for_its_user() {
    let mut attempts = Attempts::new(0);
    let (mine, _) = attempts.register("bob".to_string(), ConnectionType::Peer, 0);
    let (adopted, previous) = attempts.adopt_incoming("bob".to_string(), ConnectionType::Peer, ConnId(9), 10);
    assert_eq!(adopted, mine + 1);
    assert_eq!(previous.map(|a| a.id), Some(mine));
    assert_eq!(attempts.existing_attempt("bob", ConnectionType::Peer), Some(adopted));
    assert_eq!(attempts.expired(10 + 2 * INDIRECT_REQUEST_TIMEOUT_MS), Vec::<u64>::new());
}


fn server(a: &ConnAction) -> Option<&ServerRequest> {
    match a {
        ConnAction::Server(r) => Some(r),
        _ => None,
    }
}

fn peer_address(user: &str, ip_address: u32, port: u32) -> ServerResponse {
    ServerResponse::GetPeerAddress { user: user.to_string(), ip_address, port, obfuscation_type: 0, obfuscated_port: 0 }
}

#[test]
fn an_attempt_asks_the_server_and_connects_once_the_address_comes() {
    let mut net = NetState::new(100);
    net.own = Some("me".to_string());
    let mut actions = Vec::new();
    let id = net.initiate("ann".to_string(), ConnectionType::Peer, None, 0, &mut actions);
    assert_eq!(
        actions.iter().filter_map(server).cloned().collect::<Vec<_>>(),
        vec![
            ServerRequest::ConnectToPeer { token: 101, user: "ann".to_string(), conn_type: ConnectionType::Peer },
            ServerRequest::GetPeerAddress { user: "ann".to_string() },
        ]
    );
    let mut actions = Vec::new();
    let mut distrib = Vec::new();
    net.handle_server_message(&peer_address("ann", 0x0a000001, 2234), 5, &mut actions, &mut distrib);
    assert!(matches!(
        &actions[..],
        [ConnAction::Connect { id: i, username, conn_type: ConnectionType::Peer, ip_address: 0x0a000001, port: 2234 }]
            if *i == id && username == "ann"
    ));
    assert!(net.pending_address.is_empty());
    // The user asks us to connect while our attempt is under way: ignored.
    let mut actions = Vec::new();
    let ask = ServerResponse::ConnectToPeer {
        user: "ann".to_string(),
        conn_type: "P".to_string(),
        ip_address: 1,
        port: 2,
        token: 9,
        privileged: false,
        obfuscation_type: 0,
        obfuscated_port: 0,
    };
    net.handle_server_message(&ask, 6, &mut actions, &mut distrib);
    assert!(actions.is_empty());
    // The server could not get the user to connect: the attempt fails.
    net.handle_server_message(&ServerResponse::CantConnectToPeer { token: 101 }, 7, &mut actions, &mut distrib);
    assert!(matches!(
        &actions[..],
        [ConnAction::Failed { id: i, username, conn_type: ConnectionType::Peer, offline: false }] if *i == id && username == "ann"
    ));
    assert_eq!(net.attempts.existing_attempt("ann", ConnectionType::Peer), None);
    // Now the request to connect is followed.
    let mut actions = Vec::new();
    net.handle_server_message(&ask, 8, &mut actions, &mut distrib);
    assert!(matches!(&actions[..], [ConnAction::Pierce { token: 9, port: 2, .. }]));
}

#[test]
fn an_offline_user_fails_the_attempts_waiting_for_its_address() {
    let mut net = NetState::new(0);
    net.own = Some("me".to_string());
    let mut actions = Vec::new();
    net.initiate("bob".to_string(), ConnectionType::File, None, 0, &mut actions);
    net.addresses.watch_user("bob");
    let mut actions = Vec::new();
    let mut distrib = Vec::new();
    net.handle_server_message(&peer_address("bob", 0, 0), 1, &mut actions, &mut distrib);
    assert!(matches!(&actions[..], [ConnAction::Failed { offline: true, conn_type: ConnectionType::File, .. }]));
    assert_eq!(net.addresses.lookup_fresh_address("bob", None, 1), None);
    // A known address is kept and used for the next attempt, until the
    // user goes offline.
    net.handle_server_message(&peer_address("bob", 7, 8), 2, &mut actions, &mut distrib);
    assert_eq!(net.addresses.lookup_fresh_address("bob", None, 3), Some((7, 8)));
    let mut actions = Vec::new();
    net.initiate("bob".to_string(), ConnectionType::Peer, None, 3, &mut actions);
    assert!(matches!(actions.last(), Some(ConnAction::Connect { ip_address: 7, port: 8, .. })));
    let status = ServerResponse::GetUserStatus { user: "bob".to_string(), status: 0, privileged: false };
    net.handle_server_message(&status, 4, &mut actions, &mut distrib);
    assert_eq!(net.addresses.lookup_fresh_address("bob", None, 5), None);
}

#[test]
fn unanswered_attempts_expire_and_pierced_connections_are_claimed() {
    let mut net = NetState::new(0);
    net.own = Some("me".to_string());
    let mut actions = Vec::new();
    let first = net.initiate("ann".to_string(), ConnectionType::Peer, Some((1, 2)), 0, &mut actions);
    let second = net.initiate("cat".to_string(), ConnectionType::Peer, Some((1, 2)), 0, &mut actions);
    // The direct connection of the first is up when its pierce arrives: kept.
    assert!(net.attempts.set_conn(first, ConnId(10)));
    assert!(net.attempts.mark_established(first, ConnId(10)));
    let mut actions = Vec::new();
    let mut distrib = Vec::new();
    let who = net.handle_incoming_init(ConnId(11), PeerInitMessage::PierceFireWall { token: 1 }, 1, &mut actions, &mut distrib);
    assert_eq!(who, Some(("ann".to_string(), ConnectionType::Peer)));
    assert!(actions.is_empty());
    // The second's direct connection failed; its pierce takes over.
    assert!(net.attempts.set_conn(second, ConnId(12)));
    assert!(net.attempts.detach_conn(ConnId(12)).is_none());
    let who = net.handle_incoming_init(ConnId(13), PeerInitMessage::PierceFireWall { token: 2 }, 1, &mut actions, &mut distrib);
    assert_eq!(who, Some(("cat".to_string(), ConnectionType::Peer)));
    // A token nothing waits for closes the connection.
    let who = net.handle_incoming_init(ConnId(14), PeerInitMessage::PierceFireWall { token: 2 }, 1, &mut actions, &mut distrib);
    assert_eq!(who, None);
    assert!(matches!(&actions[..], [ConnAction::Close(ConnId(14))]));
    // A third attempt is never answered.
    let mut actions = Vec::new();
    net.initiate("dan".to_string(), ConnectionType::Peer, None, 100, &mut actions);
    let mut actions = Vec::new();
    net.sweep_attempts(100 + INDIRECT_REQUEST_TIMEOUT_MS + 1, &mut actions);
    assert!(matches!(&actions[..], [ConnAction::Failed { username, offline: false, .. }] if username == "dan"));
    assert!(net.pending_address.is_empty());
}

#[test]
fn our_own_speed_sets_how_many_children_we_take() {
    let mut net = NetState::new(0);
    net.own = Some("me".to_string());
    net.distributed.parent_min_speed = 0;
    let stats = UserStats { avgspeed: 500, uploadnum: 0, unknown: 0, files: 0, dirs: 0 };
    let mut actions = Vec::new();
    let mut distrib = Vec::new();
    net.handle_server_message(&ServerResponse::GetUserStats { user: "me".to_string(), stats }, 0, &mut actions, &mut distrib);
    assert_eq!(net.distributed.max_children, 5);
    net.handle_server_message(&ServerResponse::GetUserStats { user: "you".to_string(), stats: UserStats { avgspeed: 100, ..stats } }, 0, &mut actions, &mut distrib);
    assert_eq!(net.distributed.max_children, 5);
    net.handle_server_message(&ServerResponse::Relogged, 0, &mut actions, &mut distrib);
    assert!(net.manual_disconnect);
}

#[test]
fn pacing_waits_until_the_window_fits_the_rate() {
    // Unlimited: no wait, the window starts over.
    assert_eq!(pace_step(500, 100, 0, 0), PaceStep { wait_ns: 0, window_bytes: 0, restart: true });
    // 1000 bytes at 2000 bytes a second take half a second.
    assert_eq!(pace_step(0, 1000, 2000, 100_000_000), PaceStep { wait_ns: 400_000_000, window_bytes: 1000, restart: false });
    // Already slower than the rate: no wait.
    assert_eq!(pace_step(0, 1000, 2000, 600_000_000), PaceStep { wait_ns: 0, window_bytes: 1000, restart: false });
    // A full second's worth restarts the window.
    assert_eq!(pace_step(1000, 1000, 2000, 0), PaceStep { wait_ns: 1_000_000_000, window_bytes: 0, restart: true });
}
