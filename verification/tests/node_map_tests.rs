use magicsock::addr::{IpAddress, IpPort, NodeKey, RelayUrl};
use magicsock::disco::SendAddr;
use magicsock::node_map::{
    generate_mapped_addr, AddNodeAddrError, NodeAddr, NodeMap, PingAction, PingRole,
    MAPPED_ADDR_PORT, NODE_INACTIVITY_MS, PATH_INACTIVITY_MS, TRUST_PONG_MS,
};

fn key(byte: u8) -> NodeKey {
    NodeKey::from_bytes(vec![byte; 32])
}

fn v4(host: u32, port: u16) -> IpPort {
    IpPort { ip: IpAddress::V4(host), port }
}

#[test]
fn test_mapped_addrs_are_fresh_and_fixed_port() {
    let a = generate_mapped_addr(0);
    let b = generate_mapped_addr(1);
    assert_ne!(a, b);
    assert_eq!(a.port, MAPPED_ADDR_PORT);
    assert_eq!(b.port, MAPPED_ADDR_PORT);
    assert!(matches!(a.ip, IpAddress::V6(_)));

    let mut nm = NodeMap::new();
    let i = nm.ensure_node(&key(1), 0);
    let j = nm.ensure_node(&key(2), 0);
    let k = nm.ensure_node(&key(1), 0);
    assert_eq!(i, k);
    assert_ne!(nm.nodes[i].mapped_addr, nm.nodes[j].mapped_addr);
}

#[test]
fn test_add_node_addr_prunes_own_addresses() {
    let mut nm = NodeMap::new();
    let ours = vec![v4(1, 10), v4(2, 20)];

    // everything pruned away: rejected, and the count names what was dropped
    let addr = NodeAddr { node_id: key(9), relay_url: None, direct_addresses: vec![v4(1, 10)] };
    assert_eq!(
        nm.add_node_addr(addr, &ours, 0),
        Err(AddNodeAddrError::EmptyPruned { pruned: 1 })
    );

    // nothing given at all
    let addr = NodeAddr { node_id: key(9), relay_url: None, direct_addresses: Vec::new() };
    assert_eq!(nm.add_node_addr(addr, &ours, 0), Err(AddNodeAddrError::Empty));

    // a foreign address survives the pruning
    let addr = NodeAddr {
        node_id: key(9),
        relay_url: None,
        direct_addresses: vec![v4(1, 10), v4(3, 30)],
    };
    assert_eq!(nm.add_node_addr(addr, &ours, 0), Ok(()));
    assert!(nm.receive_udp(v4(3, 30)).is_some());
    assert!(nm.receive_udp(v4(1, 10)).is_none());

    // relay-only information is enough
    let addr = NodeAddr {
        node_id: key(8),
        relay_url: Some(RelayUrl::from_bytes(b"https://r1".to_vec())),
        direct_addresses: vec![v4(2, 20)],
    };
    assert_eq!(nm.add_node_addr(addr, &ours, 0), Ok(()));
}

#[test]
fn test_has_send_address() {
    let mut nm = NodeMap::new();
    let peer = key(12);
    assert!(!nm.has_send_address(&peer));
    // a bare entry with no paths and no relay is not sendable-to
    nm.ensure_node(&peer, 0);
    assert!(!nm.has_send_address(&peer));
    assert_eq!(nm.node_count(), 1);
    // a relay is a send address
    nm.receive_relay(&RelayUrl::from_bytes(b"https://r".to_vec()), &peer, 0);
    assert!(nm.has_send_address(&peer));
}

#[test]
fn test_handle_ping_roles() {
    let mut nm = NodeMap::new();
    let peer = key(3);
    let src = SendAddr::Udp(v4(7, 70));

    let role = nm.handle_ping(&peer, &src, vec![1; 12], 1000);
    assert_eq!(role, PingRole::NewPath);

    // same transaction id again: duplicate
    let role = nm.handle_ping(&peer, &src, vec![1; 12], 1001);
    assert_eq!(role, PingRole::Duplicate);

    // fresh tx on the known path, no pong yet: activates the quiet path
    let role = nm.handle_ping(&peer, &src, vec![2; 12], 1002);
    assert_eq!(role, PingRole::Activate);

    // confirm the path with a pong, then a ping on it is a heartbeat
    nm.note_ping_sent(&peer, v4(7, 70), vec![9; 12], 2000);
    assert!(nm.handle_pong(&peer, &vec![9; 12], 2050).confirmed);
    let role = nm.handle_ping(&peer, &src, vec![3; 12], 2100);
    assert_eq!(role, PingRole::LikelyHeartbeat);

    // relay source: first seen is a new path, the same relay later a heartbeat
    let relay = SendAddr::Relay(RelayUrl::from_bytes(b"https://r2".to_vec()));
    let role = nm.handle_ping(&peer, &relay, vec![4; 12], 2200);
    assert_eq!(role, PingRole::NewPath);
    let role = nm.handle_ping(&peer, &relay, vec![5; 12], 2300);
    assert_eq!(role, PingRole::LikelyHeartbeat);
}

#[test]
fn test_handle_pong_confirms_only_outstanding_pings() {
    let mut nm = NodeMap::new();
    let peer = key(4);
    // unsolicited pong from an unknown peer
    assert!(!nm.handle_pong(&peer, &vec![1; 12], 10).confirmed);

    nm.note_ping_sent(&peer, v4(5, 50), vec![1; 12], 10);
    // wrong transaction id
    assert!(!nm.handle_pong(&peer, &vec![2; 12], 20).confirmed);
    // the right one, once
    assert!(nm.handle_pong(&peer, &vec![1; 12], 20).confirmed);
    assert!(!nm.handle_pong(&peer, &vec![1; 12], 30).confirmed);
}

#[test]
fn test_get_send_addrs_best_path() {
    let mut nm = NodeMap::new();
    let peer = key(5);
    let mapped = {
        let i = nm.ensure_node(&peer, 0);
        nm.nodes[i].mapped_addr
    };

    // no paths, no relay: a decision with nothing in it
    let d = nm.get_send_addrs(mapped, 100).expect("peer is known");
    assert_eq!(d.udp, None);
    assert!(d.relay_url.is_none());

    // unknown mapped address: no decision
    assert!(nm.get_send_addrs(v4(9, 9), 100).is_none());

    // a relay and an unconfirmed path: both are used
    let url = RelayUrl::from_bytes(b"https://r3".to_vec());
    nm.receive_relay(&url, &peer, 0);
    let role = nm.handle_ping(&peer, &SendAddr::Udp(v4(8, 80)), vec![1; 12], 100);
    assert_eq!(role, PingRole::NewPath);
    let d = nm.get_send_addrs(mapped, 200).expect("peer is known");
    assert_eq!(d.udp, Some(v4(8, 80)));
    assert_eq!(d.relay_url.unwrap().as_bytes(), &b"https://r3".to_vec());

    // confirm two paths; the faster one wins and the relay is dropped
    nm.note_ping_sent(&peer, v4(8, 80), vec![2; 12], 1000);
    assert!(nm.handle_pong(&peer, &vec![2; 12], 1080).confirmed);
    nm.note_ping_sent(&peer, v4(9, 90), vec![3; 12], 1000);
    assert!(nm.handle_pong(&peer, &vec![3; 12], 1010).confirmed);
    let d = nm.get_send_addrs(mapped, 1500).expect("peer is known");
    assert_eq!(d.udp, Some(v4(9, 90)));
    assert!(d.relay_url.is_none());

    // once every pong is stale the engine falls back to relay plus candidate
    let late = 1080 + TRUST_PONG_MS + 1;
    let d = nm.get_send_addrs(mapped, late).expect("peer is known");
    assert!(d.udp.is_some());
    assert!(d.relay_url.is_some());
}

#[test]
fn test_path_discovery_actions() {
    let mut nm = NodeMap::new();
    let peer = key(6);
    let url = RelayUrl::from_bytes(b"https://r4".to_vec());
    let mapped = nm.receive_relay(&url, &peer, 0);
    let role = nm.handle_ping(&peer, &SendAddr::Udp(v4(1, 11)), vec![1; 12], 50);
    assert_eq!(role, PingRole::NewPath);

    let actions = nm.path_discovery_actions(mapped, 60);
    assert_eq!(actions.len(), 2);
    match &actions[0] {
        PingAction::SendPing { dst_node, dst } => {
            assert_eq!(dst_node.as_bytes(), peer.as_bytes());
            match dst {
                SendAddr::Udp(a) => assert_eq!(*a, v4(1, 11)),
                _ => panic!("expected a UDP ping"),
            }
        }
        _ => panic!("expected a ping first"),
    }
    match &actions[1] {
        PingAction::SendCallMeMaybe { dst_node, relay_url } => {
            assert_eq!(dst_node.as_bytes(), peer.as_bytes());
            assert_eq!(relay_url.as_bytes(), &b"https://r4".to_vec());
        }
        _ => panic!("expected a call-me-maybe last"),
    }

    // with a fresh path there is nothing to discover
    nm.note_ping_sent(&peer, v4(1, 11), vec![2; 12], 100);
    assert!(nm.handle_pong(&peer, &vec![2; 12], 110).confirmed);
    assert_eq!(nm.path_discovery_actions(mapped, 120).len(), 0);
}

#[test]
fn test_nodes_stayin_alive_pings_trusted_paths() {
    let mut nm = NodeMap::new();
    let alive = key(10);
    let quiet = key(11);
    nm.note_ping_sent(&alive, v4(1, 1), vec![1; 12], 100);
    assert!(nm.handle_pong(&alive, &vec![1; 12], 150).confirmed);
    nm.ensure_node(&quiet, 0);

    let actions = nm.nodes_stayin_alive(200);
    assert_eq!(actions.len(), 1);
    match &actions[0] {
        PingAction::SendPing { dst_node, dst } => {
            assert_eq!(dst_node.as_bytes(), alive.as_bytes());
            assert!(matches!(dst, SendAddr::Udp(a) if *a == v4(1, 1)));
        }
        _ => panic!("expected a heartbeat ping"),
    }
    // once the pong is stale nothing is heartbeaten
    assert_eq!(nm.nodes_stayin_alive(150 + TRUST_PONG_MS + 1).len(), 0);
}

#[test]
fn test_handle_call_me_maybe_pings_every_address() {
    let mut nm = NodeMap::new();
    let peer = key(7);
    let addrs = vec![v4(1, 1), v4(2, 2), v4(3, 3)];
    let actions = nm.handle_call_me_maybe(&peer, &addrs, 0);
    assert_eq!(actions.len(), 3);
    for (k, action) in actions.iter().enumerate() {
        match action {
            PingAction::SendPing { dst_node, dst } => {
                assert_eq!(dst_node.as_bytes(), peer.as_bytes());
                match dst {
                    SendAddr::Udp(a) => assert_eq!(*a, addrs[k]),
                    _ => panic!("expected a UDP ping"),
                }
            }
            _ => panic!("expected only pings"),
        }
    }
    for a in &addrs {
        assert!(nm.receive_udp(*a).is_some());
    }
}

#[test]
fn test_pong_ping_back_on_first_confirmation() {
    let mut nm = NodeMap::new();
    let peer = key(20);
    nm.note_ping_sent(&peer, v4(4, 40), vec![1; 12], 100);
    // the first pong confirms a new path: a reciprocal ping is owed
    let handled = nm.handle_pong(&peer, &vec![1; 12], 150);
    assert!(handled.confirmed);
    match handled.ping_back.expect("first confirmation pings back") {
        PingAction::SendPing { dst_node, dst } => {
            assert_eq!(dst_node.as_bytes(), peer.as_bytes());
            assert!(matches!(dst, SendAddr::Udp(a) if a == v4(4, 40)));
        }
        _ => panic!("expected a ping"),
    }
    // a later pong on the already-confirmed path owes nothing
    nm.note_ping_sent(&peer, v4(4, 40), vec![2; 12], 200);
    let handled = nm.handle_pong(&peer, &vec![2; 12], 250);
    assert!(handled.confirmed);
    assert!(handled.ping_back.is_none());
}

#[test]
fn test_prune_inactive_drops_stale_paths_and_peers() {
    let mut nm = NodeMap::new();
    let fresh = key(21);
    let stale = key(22);
    nm.note_ping_sent(&stale, v4(1, 1), vec![1; 12], 0);
    nm.note_ping_sent(&fresh, v4(2, 2), vec![2; 12], NODE_INACTIVITY_MS);
    nm.note_ping_sent(&fresh, v4(3, 3), vec![3; 12], 2 * NODE_INACTIVITY_MS);

    // the stale peer goes; the fresh one keeps only its recent path
    let now = 2 * NODE_INACTIVITY_MS + PATH_INACTIVITY_MS;
    nm.prune_inactive(now);
    assert!(!nm.has_send_address(&stale));
    assert!(nm.receive_udp(v4(3, 3)).is_some());
    assert!(nm.receive_udp(v4(2, 2)).is_none());
    // the mapped-address counter never rewinds
    let c = nm.next_counter;
    nm.ensure_node(&key(23), now);
    assert_eq!(nm.next_counter, c + 1);
}

#[test]
fn test_on_direct_addr_discovered_drops_own_addresses() {
    let mut nm = NodeMap::new();
    let peer = key(24);
    nm.note_ping_sent(&peer, v4(1, 1), vec![1; 12], 0);
    nm.note_ping_sent(&peer, v4(2, 2), vec![2; 12], 0);
    // address 1:1 turns out to be our own
    nm.on_direct_addr_discovered(&vec![v4(1, 1)]);
    assert!(nm.receive_udp(v4(1, 1)).is_none());
    assert!(nm.receive_udp(v4(2, 2)).is_some());
    assert!(nm.has_send_address(&peer));
}
