use newkitine::network::distributed::{DistribAction, Distributed, PotentialParent};
use newkitine::protocol::distributed::DistributedMessage;
use newkitine::protocol::server_request::ServerRequest;
use newkitine::protocol::server_response::ParentCandidate;
use newkitine::types::ConnId;

fn candidate(name: &str) -> ParentCandidate {
    ParentCandidate { username: name.to_string(), ip_address: 0x0a000001, port: 2234 }
}

fn server(a: &DistribAction) -> Option<&ServerRequest> {
    match a {
        DistribAction::Server(r) => Some(r),
        _ => None,
    }
}

fn sent(a: &DistribAction) -> Option<(ConnId, &DistributedMessage)> {
    match a {
        DistribAction::Send { conn_id, message } => Some((*conn_id, message)),
        _ => None,
    }
}

fn search(identifier: u32) -> DistributedMessage {
    DistributedMessage::Search {
        identifier,
        search_username: "asker".to_string(),
        token: 77,
        search_term: "moe shop".to_string(),
    }
}

#[test]
fn a_candidate_that_told_its_branch_becomes_parent_on_its_first_search() {
    let mut d = Distributed::new();
    let mut actions = Vec::new();
    d.handle_possible_parents(&vec![candidate("pa"), candidate("pb")], &mut actions);
    assert_eq!(actions.len(), 2);
    assert!(matches!(&actions[0], DistribAction::Connect { username, port: 2234, .. } if username == "pa"));
    assert_eq!(d.potential_parents.len(), 2);

    let mut actions = Vec::new();
    d.handle_distrib_message("pa", ConnId(1), DistributedMessage::BranchLevel { level: 2 }, &mut actions);
    d.handle_distrib_message("pa", ConnId(1), DistributedMessage::BranchRoot { root_username: "root".to_string() }, &mut actions);
    d.handle_distrib_message("pb", ConnId(2), DistributedMessage::BranchLevel { level: 0 }, &mut actions);
    assert!(actions.is_empty());
    let pb: &PotentialParent = &d.potential_parents[1];
    assert_eq!(pb.branch_root.as_deref(), Some("pb"));

    d.handle_distrib_message("pa", ConnId(1), search(49), &mut actions);
    assert_eq!(d.parent.as_ref().map(|(p, c)| (p.as_str(), *c)), Some(("pa", ConnId(1))));
    assert_eq!(d.branch_level, 3);
    assert_eq!(d.branch_root.as_deref(), Some("root"));
    // The other candidate is closed; the server hears of the new branch.
    assert!(matches!(actions[0], DistribAction::Close(ConnId(2))));
    assert_eq!(server(&actions[1]), Some(&ServerRequest::HaveNoParent { no_parent: false }));
    assert_eq!(server(&actions[2]), Some(&ServerRequest::BranchRoot { user: "root".to_string() }));
    assert_eq!(server(&actions[3]), Some(&ServerRequest::BranchLevel { value: 3 }));
    // No children are allowed yet, so none are asked for; the search is answered.
    assert_eq!(actions.len(), 5);
    assert!(matches!(&actions[4], DistribAction::Search { username, token: 77, search_term } if username == "asker" && search_term == "moe shop"));

    // A search from someone else now closes that connection.
    let mut actions = Vec::new();
    d.handle_distrib_message("pb", ConnId(2), search(49), &mut actions);
    assert!(matches!(actions.as_slice(), [DistribAction::Close(ConnId(2))]));
    // Searches of another identifier are ignored.
    let mut actions = Vec::new();
    d.handle_distrib_message("pb", ConnId(2), search(50), &mut actions);
    assert!(actions.is_empty());
}

#[test]
fn children_are_taken_up_to_the_limit_and_get_searches() {
    let mut d = Distributed::new();
    d.parent_min_speed = 100;
    d.parent_speed_ratio = 1;
    let mut actions = Vec::new();
    d.update_own_speed(250, &mut actions);
    assert_eq!(d.max_children, 2);
    assert!(actions.is_empty());
    let own = Some("me".to_string());
    // Without a parent and not a branch root, children are refused.
    assert!(!d.accept_child_peer(&own, ConnId(5), "kid".to_string(), &mut actions));
    assert!(matches!(actions.as_slice(), [DistribAction::Close(ConnId(5))]));

    // A search straight from the server makes us a branch root.
    let mut actions = Vec::new();
    let embedded = search(49).to_bytes();
    d.handle_embedded_message(&own, embedded[4], &embedded[5..].to_vec(), &mut actions);
    assert!(d.is_server_parent);
    assert_eq!(d.branch_root.as_deref(), Some("me"));
    assert_eq!(server(&actions[0]), Some(&ServerRequest::AcceptChildren { enabled: true }));
    assert!(matches!(&actions[1], DistribAction::Search { token: 77, .. }));

    let mut actions = Vec::new();
    assert!(d.accept_child_peer(&own, ConnId(6), "kid".to_string(), &mut actions));
    assert_eq!(sent(&actions[0]), Some((ConnId(6), &DistributedMessage::BranchLevel { level: 0 })));
    assert_eq!(sent(&actions[1]), Some((ConnId(6), &DistributedMessage::BranchRoot { root_username: "me".to_string() })));
    assert_eq!(actions.len(), 2);
    // Ourselves and a second connection of the same child are not taken.
    let mut actions = Vec::new();
    assert!(!d.accept_child_peer(&own, ConnId(7), "me".to_string(), &mut actions));
    assert!(actions.is_empty());
    assert!(!d.accept_child_peer(&own, ConnId(8), "kid".to_string(), &mut actions));
    assert!(matches!(actions.as_slice(), [DistribAction::Close(ConnId(8))]));
    // The last allowed child: the server hears we take no more.
    let mut actions = Vec::new();
    assert!(d.accept_child_peer(&own, ConnId(9), "kid2".to_string(), &mut actions));
    assert_eq!(server(&actions[2]), Some(&ServerRequest::AcceptChildren { enabled: false }));

    // A server search is passed on to both children.
    let mut actions = Vec::new();
    d.handle_embedded_message(&own, embedded[4], &embedded[5..].to_vec(), &mut actions);
    assert_eq!(actions.len(), 3);
    assert_eq!(sent(&actions[0]).map(|(c, _)| c), Some(ConnId(6)));
    assert_eq!(sent(&actions[1]).map(|(c, m)| (c, m.clone())), Some((ConnId(9), search(49))));

    // A child leaving below the limit lets the server send more.
    let mut actions = Vec::new();
    d.handle_distributed_conn_closed(&own, "kid", ConnId(6), &mut actions);
    assert_eq!(d.children.len(), 1);
    assert_eq!(server(&actions[0]), Some(&ServerRequest::AcceptChildren { enabled: true }));
}

#[test]
fn losing_the_parent_tells_the_server_and_a_reset_closes_everyone() {
    let mut d = Distributed::new();
    let own = Some("me".to_string());
    let mut actions = Vec::new();
    d.handle_possible_parents(&vec![candidate("pa")], &mut actions);
    d.handle_distrib_message("pa", ConnId(1), DistributedMessage::BranchLevel { level: 0 }, &mut actions);
    d.handle_distrib_message("pa", ConnId(1), search(49), &mut actions);
    assert!(d.parent.is_some());
    assert_eq!(d.branch_level, 1);
    assert_eq!(d.branch_root.as_deref(), Some("pa"));

    let mut actions = Vec::new();
    d.handle_distributed_conn_closed(&own, "pa", ConnId(1), &mut actions);
    assert!(d.parent.is_none());
    assert_eq!(d.branch_level, 0);
    assert_eq!(
        actions.iter().filter_map(server).cloned().collect::<Vec<_>>(),
        vec![
            ServerRequest::HaveNoParent { no_parent: true },
            ServerRequest::BranchRoot { user: "me".to_string() },
            ServerRequest::BranchLevel { value: 0 },
            ServerRequest::AcceptChildren { enabled: false },
        ]
    );

    let mut actions = Vec::new();
    d.children.push(("kid".to_string(), ConnId(4)));
    d.handle_reset_distributed(&own, &mut actions);
    assert!(matches!(actions[0], DistribAction::Close(ConnId(4))));
    assert_eq!(server(&actions[1]), Some(&ServerRequest::HaveNoParent { no_parent: true }));
    // A negative level or an empty root closes the connection.
    let mut actions = Vec::new();
    d.handle_distrib_message("x", ConnId(3), DistributedMessage::BranchLevel { level: -1 }, &mut actions);
    d.handle_distrib_message("x", ConnId(3), DistributedMessage::BranchRoot { root_username: String::new() }, &mut actions);
    assert!(matches!(actions.as_slice(), [DistribAction::Close(ConnId(3)), DistribAction::Close(ConnId(3))]));
}

#[test]
fn a_branch_root_without_a_name_tells_children_an_empty_root() {
    let mut d = Distributed::new();
    d.parent_min_speed = 0;
    let mut actions = Vec::new();
    d.update_own_speed(100, &mut actions);
    let embedded = search(49).to_bytes();
    d.handle_embedded_message(&None, embedded[4], &embedded[5..].to_vec(), &mut actions);
    assert!(d.is_server_parent);
    assert_eq!(d.branch_root, None);
    let mut actions = Vec::new();
    assert!(d.accept_child_peer(&None, ConnId(3), "kid".to_string(), &mut actions));
    assert_eq!(sent(&actions[1]), Some((ConnId(3), &DistributedMessage::BranchRoot { root_username: String::new() })));
}
