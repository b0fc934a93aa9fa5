use newkitine::client::control::{ClientCommand, CommandReply};
use newkitine::client::dispatch::{ClientCore, CoreConfig};
use newkitine::client::event::{ClientEvent, Observation};
use newkitine::client::requests::PendingRequests;
use newkitine::client::search::{SearchScope, Searches};
use newkitine::client::session::{Interests, Session};
use newkitine::client::shares::index::{DirEntry, EntryKind, FolderScan, SharesIndex};
use newkitine::client::transfers::downloads::{Downloads, NetAction};
use newkitine::client::transfers::uploads::Uploads;
use newkitine::client::transfers::TransferIds;
use newkitine::client::users::Users;
use newkitine::protocol::peer::PeerMessage;
use newkitine::protocol::server_request::ServerRequest;
use newkitine::protocol::server_response::ServerResponse;
use newkitine::types::FileAttributes;

fn share() -> SharesIndex {
    let mut index = SharesIndex::new();
    let mut scan = FolderScan::new("Music".to_string());
    index.add_entry(
        &mut scan,
        DirEntry {
            name: "Blue Song.mp3".to_string(),
            real_path: "/m/Blue Song.mp3".to_string(),
            kind: EntryKind::File,
            size: 100,
            attributes: FileAttributes::default(),
        },
        false,
    );
    index.finish_folder(scan, false);
    index
}

fn new_core(shares: Option<SharesIndex>, scan_running: bool) -> ClientCore {
    ClientCore {
        config: CoreConfig {
            username: "me".to_string(),
            respond_to_searches: true,
            max_search_results: 50,
            min_search_chars: 3,
            description: "hello".to_string(),
        },
        users: Users::new(Vec::new(), Vec::new(), vec!["pest".to_string()]),
        downloads: Downloads::new("/dl".into(), "/inc".into(), false),
        uploads: Uploads::new(2, 10),
        ids: TransferIds::new(&[]),
        searches: Searches::new(),
        shares,
        scan_running,
        excluded_phrases: Vec::new(),
        session: Session::new(),
        interests: Interests::new(Vec::new(), Vec::new()),
        wishlist_interval_secs: 60,
        wishlist_terms: Vec::new(),
        wishlist_at: None,
        wishlist_cursor: 0,
        pending: PendingRequests::new(),
    }
}

#[test]
fn searches_from_other_users_are_answered() {
    let c = new_core(Some(share()), false);
    let mut net = Vec::new();
    let mut events = Vec::new();
    c.respond_to_search("peer", 7, "blue", &mut net, &mut events);
    assert!(matches!(&events[0], ClientEvent::Observed(Observation::SearchSeen { matched: true, .. })));
    match &net[0] {
        NetAction::Peer { username, message: PeerMessage::FileSearchResponse { username: own, token, results, .. } } => {
            assert_eq!(username, "peer");
            assert_eq!(own, "me");
            assert_eq!(*token, 7);
            assert_eq!(results[0].name, "Music\\Blue Song.mp3");
        }
        _ => panic!("expected a search response"),
    }
    let mut net = Vec::new();
    let mut events = Vec::new();
    c.respond_to_search("me", 8, "blue", &mut net, &mut events);
    assert!(net.is_empty() && events.is_empty());
    c.respond_to_search("peer", 9, "green", &mut net, &mut events);
    assert!(net.is_empty());
    assert!(matches!(&events[0], ClientEvent::Observed(Observation::SearchSeen { matched: false, .. })));
}

#[test]
fn private_messages_are_acknowledged_and_ignored_users_hidden() {
    let mut c = new_core(None, false);
    let mut net = Vec::new();
    let mut events = Vec::new();
    let message = |user: &str| ServerResponse::MessageUser {
        message_id: 4,
        timestamp: 1,
        user: user.to_string(),
        message: "hi".to_string(),
        is_new_message: true,
    };
    c.handle_server_message(message("friend"), 0, &mut net, &mut events);
    c.handle_server_message(message("pest"), 0, &mut net, &mut events);
    assert_eq!(net.len(), 2);
    assert!(matches!(&net[1], NetAction::Server(ServerRequest::MessageAcked { message_id: 4 })));
    assert_eq!(events.len(), 1);
    assert!(matches!(&events[0], ClientEvent::PrivateMessage { username, .. } if username == "friend"));
    c.handle_server_message(ServerResponse::ExcludedSearchPhrases { phrases: vec!["BAD Word".into()] }, 0, &mut net, &mut events);
    assert_eq!(c.excluded_phrases, vec!["bad word".to_string()]);
    c.handle_server_message(ServerResponse::WishlistInterval { seconds: 0 }, 0, &mut net, &mut events);
    assert_eq!(c.wishlist_interval_secs, 1);
}

#[test]
fn requests_wait_while_shares_are_scanned() {
    let mut c = new_core(None, true);
    let mut net = Vec::new();
    let mut events = Vec::new();
    let mut work = Vec::new();
    c.handle_peer_message(
        "peer".into(),
        PeerMessage::QueueUpload { file: "Music\\Blue Song.mp3".into(), legacy_client: false },
        0,
        0,
        &mut net,
        &mut events,
        &mut work,
    );
    assert!(net.is_empty() && events.is_empty());
    assert_eq!(c.pending.len(), 1);
    c.handle_peer_message("peer".into(), PeerMessage::UserInfoRequest, 0, 0, &mut net, &mut events, &mut work);
    match net.last() {
        Some(NetAction::Peer { message: PeerMessage::UserInfoResponse { description, total_uploads: 2, .. }, .. }) => {
            assert_eq!(description, "hello")
        }
        _ => panic!("expected our user info"),
    }
}

#[test]
fn wishlist_searches_take_turns() {
    let mut c = new_core(None, false);
    let mut events = Vec::new();
    assert!(c.do_wishlist_search(1, 0, &mut events).is_none());
    assert!(events.is_empty() && c.wishlist_at.is_none());
    c.wishlist_terms = vec!["a - b".to_string(), "c".to_string()];
    c.session.logged_in = true;
    match c.do_wishlist_search(5, 1000, &mut events) {
        Some(ServerRequest::WishlistSearch { token, search_term }) => {
            assert_eq!(token, 5);
            assert_eq!(search_term, "a b");
        }
        _ => panic!("expected a wishlist search"),
    }
    assert!(matches!(&events[0], ClientEvent::SearchStarted { token: 5, query } if query == "a - b"));
    assert_eq!(c.wishlist_at, Some(61_000));
    assert!(c.searches.contains(5));
    match c.do_wishlist_search(6, 2000, &mut events) {
        Some(ServerRequest::WishlistSearch { search_term, .. }) => assert_eq!(search_term, "c"),
        _ => panic!("expected a wishlist search"),
    }
    assert_eq!(c.wishlist_cursor, 2);
}

#[test]
fn searches_go_to_the_scope_asked_for() {
    let mut c = new_core(None, false);
    c.users = Users::new(vec!["ann".to_string(), "bob".to_string()], Vec::new(), Vec::new());
    let mut events = Vec::new();
    let requests = c.start_search(3, "blue  - moon".to_string(), SearchScope::Global, &mut events);
    assert_eq!(requests.len(), 1);
    assert!(matches!(&requests[0], ServerRequest::FileSearch { token: 3, search_term } if search_term == "blue moon"));
    assert!(matches!(&events[0], ClientEvent::SearchStarted { token: 3, query } if query == "blue  - moon"));
    assert!(c.searches.contains(3));
    let requests = c.start_search(4, "x".to_string(), SearchScope::Room("jazz".to_string()), &mut events);
    assert!(matches!(&requests[0], ServerRequest::RoomSearch { room, token: 4, .. } if room == "jazz"));
    let requests = c.start_search(5, "x".to_string(), SearchScope::User("cid".to_string()), &mut events);
    assert!(matches!(&requests[0], ServerRequest::UserSearch { search_username, token: 5, .. } if search_username == "cid"));
    let requests = c.start_search(6, "x".to_string(), SearchScope::Buddies, &mut events);
    assert_eq!(requests.len(), 2);
    assert!(matches!(&requests[0], ServerRequest::UserSearch { search_username, .. } if search_username == "ann"));
    assert!(matches!(&requests[1], ServerRequest::UserSearch { search_username, .. } if search_username == "bob"));
}

#[test]
fn wishes_are_kept_once_and_removed() {
    let mut c = new_core(None, false);
    c.session.logged_in = true;
    c.add_wish("jazz".to_string(), 0);
    assert_eq!(c.wishlist_at, Some(60_000));
    c.add_wish("jazz".to_string(), 5);
    c.add_wish("blues".to_string(), 5);
    assert_eq!(c.wishlist_terms, vec!["jazz".to_string(), "blues".to_string()]);
    assert_eq!(c.wishlist_at, Some(60_000));
    c.remove_wish("jazz");
    assert_eq!(c.wishlist_terms, vec!["blues".to_string()]);
    assert_eq!(c.wishlist_at, Some(60_000));
    c.remove_wish("blues");
    assert!(c.wishlist_terms.is_empty());
    assert_eq!(c.wishlist_at, None);
}

fn command(c: &mut ClientCore, cmd: ClientCommand) -> (CommandReply, Vec<NetAction>, Vec<ClientEvent>) {
    let mut net = Vec::new();
    let mut events = Vec::new();
    let mut work = Vec::new();
    let reply = c.handle_command(cmd, 0, 0, &mut net, &mut events, &mut work);
    (reply, net, events)
}

#[test]
fn commands_search_and_browse() {
    let mut c = new_core(None, false);
    let (reply, net, events) = command(
        &mut c,
        ClientCommand::Search { token: 9, query: "a - b".to_string(), scope: SearchScope::Global },
    );
    assert_eq!(reply, CommandReply::Done);
    assert!(matches!(net[0], NetAction::AllowSearchToken(9)));
    assert!(matches!(&net[1], NetAction::Server(ServerRequest::FileSearch { token: 9, search_term }) if search_term == "a b"));
    assert_eq!(events.len(), 1);
    assert!(c.searches.contains(9));
    let (_, net, _) = command(&mut c, ClientCommand::CancelSearch { token: 9 });
    assert!(matches!(net[0], NetAction::DisallowSearchToken(9)));
    assert!(!c.searches.contains(9));
    let (_, net, _) = command(&mut c, ClientCommand::BrowseUser { username: "ann".to_string() });
    assert!(matches!(&net[0], NetAction::AllowSharedListUser(u) if u == "ann"));
    assert!(matches!(&net[1], NetAction::Peer { username, message: PeerMessage::SharedFileListRequest } if username == "ann"));
}

#[test]
fn commands_keep_buddies_bans_and_downloads() {
    let mut c = new_core(None, false);
    let (_, net, _) = command(&mut c, ClientCommand::AddBuddy { username: "ann".to_string() });
    assert!(matches!(&net[0], NetAction::Server(ServerRequest::WatchUser { user }) if user == "ann"));
    let (_, net, _) = command(&mut c, ClientCommand::AddBuddy { username: "ann".to_string() });
    assert!(net.is_empty());
    assert!(c.users.is_buddy("ann"));
    let (_, net, _) = command(&mut c, ClientCommand::RemoveBuddy { username: "ann".to_string() });
    assert!(matches!(&net[0], NetAction::Server(ServerRequest::UnwatchUser { user }) if user == "ann"));
    command(&mut c, ClientCommand::BanUser { username: "bob".to_string() });
    assert!(c.users.is_banned("bob"));
    command(&mut c, ClientCommand::UnbanUser { username: "bob".to_string() });
    assert!(!c.users.is_banned("bob"));
    command(&mut c, ClientCommand::IgnoreUser { username: "cid".to_string() });
    assert!(c.users.is_ignored("cid"));
    command(&mut c, ClientCommand::UnignoreUser { username: "cid".to_string() });
    assert!(!c.users.is_ignored("cid"));
    let (reply, net, _) = command(
        &mut c,
        ClientCommand::Download {
            username: "ann".to_string(),
            virtual_path: "x\\song.mp3".to_string(),
            size: 10,
            attributes: FileAttributes::default(),
        },
    );
    assert!(matches!(reply, CommandReply::Enqueued(_)));
    assert!(!net.is_empty());
}

#[test]
fn commands_drive_the_server_connection() {
    let mut c = new_core(None, false);
    let (_, net, events) = command(&mut c, ClientCommand::Connect);
    assert!(matches!(net[0], NetAction::ServerConnect));
    assert!(matches!(events[0], ClientEvent::Connecting));
    assert!(c.session.connected);
    let (_, net, _) = command(&mut c, ClientCommand::Reconnect);
    assert!(matches!(net[0], NetAction::ServerDisconnect));
    assert!(c.session.reconnect_now);
    let (_, net, _) = command(&mut c, ClientCommand::Disconnect);
    assert!(matches!(net[0], NetAction::ServerDisconnect));
    assert!(!c.session.reconnect_now);
}

#[test]
fn logging_in_watches_buddies_and_tells_the_server() {
    let mut c = new_core(None, false);
    c.users = Users::new(vec!["ann".to_string()], Vec::new(), Vec::new());
    let mut net = Vec::new();
    let mut events = Vec::new();
    c.logged_in("hi".to_string(), 0, &mut net, &mut events);
    assert!(c.session.logged_in);
    assert!(matches!(&net[0], NetAction::Server(ServerRequest::WatchUser { user }) if user == "ann"));
    assert!(matches!(&net[1], NetAction::Server(ServerRequest::WatchUser { user }) if user == "me"));
    assert!(matches!(&net[2], NetAction::Server(ServerRequest::SharedFoldersFiles { folders: 0, files: 0 })));
    assert!(matches!(&events[0], ClientEvent::LoggedIn { username, banner } if username == "me" && banner == "hi"));
}

#[test]
fn disconnection_forgets_searches_and_plans_a_reconnection() {
    let mut c = new_core(None, false);
    c.searches.add(4);
    c.session.logged_in = true;
    c.wishlist_at = Some(5);
    let mut net = Vec::new();
    let mut events = Vec::new();
    let mut work = Vec::new();
    let now = c.server_disconnected(false, true, 1000, 0, &mut net, &mut events, &mut work);
    assert!(!now);
    assert!(!c.session.logged_in);
    assert!(!c.searches.contains(4));
    assert_eq!(c.wishlist_at, None);
    assert!(c.session.reconnect_at.is_some());
    assert!(net.is_empty());
    assert!(matches!(events[0], ClientEvent::Disconnected));
    c.session.reconnect_now = true;
    let mut net = Vec::new();
    let now = c.server_disconnected(false, true, 2000, 0, &mut net, &mut events, &mut work);
    assert!(now);
    assert!(matches!(net[0], NetAction::ServerConnect));
}

#[test]
fn transfer_limits_are_passed_on_in_bytes_per_second() {
    let mut c = new_core(None, false);
    let (reply, net, events) =
        command(&mut c, ClientCommand::SetTransferLimits { upload_kbps: 100, download_kbps: 0 });
    assert_eq!(reply, CommandReply::Done);
    assert!(events.is_empty());
    assert!(matches!(net.as_slice(), [NetAction::SetTransferLimits { upload_bps: 102_400, download_bps: 0 }]));
}
