use magicsock::addr::{DirectAddr, DirectAddrType, IpAddress, IpPort, NodeKey, RelayUrl};
use magicsock::disco::{DiscoMessage, SendAddr};
use magicsock::endpoints::{
    assemble_direct_addrs, endpoint_sets_equal, interface_addr_candidates, include_loopback,
    stun4_local_candidate, DiscoveredDirectAddrs, ENDPOINTS_FRESH_ENOUGH_MS,
};
use magicsock::lifecycle::{
    should_clear_rpc, CommandOutcome, RpcLock, RpcStatus, RunType,
};
use magicsock::magic::{
    classify_packet, derive_ipv6_port, handle_disco_message, max_receive_segments,
    max_transmit_segments, may_fragment, normalized_local_addr, pick_relay_fallback, send_result,
    process_udp_datagram, DiscoCounters, DiscoEvent, NetInfo, PacketClass, PendingCallMeMaybes,
    ProbeOutput, SendAttempt, SendResult, UdpDatagramDisposition,
};
use magicsock::node_map::NodeMap;
use magicsock::seal::{derive_public, seal_message};
use magicsock::update_state::{DirectAddrUpdateState, UpdateReason};

fn key(byte: u8) -> NodeKey {
    NodeKey::from_bytes(vec![byte; 32])
}

fn v4(host: u32, port: u16) -> IpPort {
    IpPort { ip: IpAddress::V4(host), port }
}

fn da(host: u32, port: u16, typ: DirectAddrType) -> DirectAddr {
    DirectAddr { addr: v4(host, port), typ }
}

#[test]
fn test_classify_packet() {
    // disco magic wins
    let mut disco = vec![0x5c, 0x84, 0xa3, 0x1f, 0x9e, 0x12];
    disco.extend(vec![0u8; 40]);
    assert_eq!(classify_packet(&disco), PacketClass::Disco);
    // a STUN binding request: zero top bits and the magic cookie
    let mut stun = vec![0u8; 20];
    stun[4] = 0x21;
    stun[5] = 0x12;
    stun[6] = 0xa4;
    stun[7] = 0x42;
    assert_eq!(classify_packet(&stun), PacketClass::Stun);
    // everything else is payload
    assert_eq!(classify_packet(&vec![0x40u8; 32]), PacketClass::Quic);
    assert_eq!(classify_packet(&Vec::new()), PacketClass::Quic);
}

#[test]
fn test_send_result() {
    assert_eq!(
        send_result(true, true, SendAttempt::Sent, SendAttempt::NotTried),
        SendResult::NotConnected
    );
    // an unknown peer is silently accepted: the upper transport times out
    assert_eq!(
        send_result(false, false, SendAttempt::NotTried, SendAttempt::NotTried),
        SendResult::Accepted
    );
    // both paths backpressured
    assert_eq!(
        send_result(false, true, SendAttempt::WouldBlock, SendAttempt::WouldBlock),
        SendResult::WouldBlock
    );
    // one path through is enough
    assert_eq!(
        send_result(false, true, SendAttempt::WouldBlock, SendAttempt::Sent),
        SendResult::Accepted
    );
    // hard failures stay silent as well
    assert_eq!(
        send_result(false, true, SendAttempt::Failed, SendAttempt::Failed),
        SendResult::Accepted
    );
}

#[test]
fn test_process_udp_datagram() {
    let mut nm = NodeMap::new();
    let peer = key(1);
    nm.note_ping_sent(&peer, v4(5, 50), vec![1; 12], 10);
    let quic = vec![0x40u8; 64];
    match process_udp_datagram(&nm, v4(5, 50), &quic) {
        UdpDatagramDisposition::Quic { node_id, mapped_addr } => {
            assert_eq!(node_id.as_bytes(), peer.as_bytes());
            assert_eq!(mapped_addr.port, magicsock::node_map::MAPPED_ADDR_PORT);
        }
        _ => panic!("known source should be handed up"),
    }
    match process_udp_datagram(&nm, v4(9, 99), &quic) {
        UdpDatagramDisposition::DropUnknownSource => {}
        _ => panic!("unknown source should be dropped"),
    }
}

#[test]
fn test_call_me_maybe_only_via_relay() {
    // peer A seals a call-me-maybe to us (B); over UDP it must be
    // counted and discarded, over relay it must be acted on
    let a_secret = vec![0x21u8; 32];
    let b_secret = vec![0x43u8; 32];
    let b_public = derive_public(&b_secret);
    let msg = DiscoMessage::CallMeMaybe { my_numbers: vec![v4(1, 1), v4(2, 2)] };
    let sealed = seal_message(&a_secret, &b_public, &msg);

    let a_public = derive_public(&a_secret);
    let sender = NodeKey::from_bytes(a_public);

    let mut nm = NodeMap::new();
    let mut counters = DiscoCounters::default();
    let udp_src = SendAddr::Udp(v4(7, 70));
    match handle_disco_message(&mut nm, &mut counters, &b_secret, &sender, &sealed, &udp_src, 100) {
        DiscoEvent::CallMeMaybeViaUdpDropped => {}
        _ => panic!("a call-me-maybe over UDP must be discarded"),
    }
    assert_eq!(counters.recv_disco_call_me_maybe, 1);
    // nothing was adopted: the advertised addresses are not paths
    assert!(nm.receive_udp(v4(1, 1)).is_none());

    let relay_src = SendAddr::Relay(RelayUrl::from_bytes(b"https://r".to_vec()));
    match handle_disco_message(&mut nm, &mut counters, &b_secret, &sender, &sealed, &relay_src, 101)
    {
        DiscoEvent::CallMeMaybe { actions } => assert_eq!(actions.len(), 2),
        _ => panic!("a call-me-maybe via relay must be handled"),
    }
    assert_eq!(counters.recv_disco_call_me_maybe, 2);
    assert!(nm.receive_udp(v4(1, 1)).is_some());
}

#[test]
fn test_disco_ping_gets_pong_and_bad_key_counts() {
    let a_secret = vec![0x66u8; 32];
    let b_secret = vec![0x77u8; 32];
    let b_public = derive_public(&b_secret);
    let a_public = derive_public(&a_secret);
    let sender = NodeKey::from_bytes(a_public);

    let ping = DiscoMessage::Ping { tx_id: vec![3; 12], node_key: sender.duplicate() };
    let sealed = seal_message(&a_secret, &b_public, &ping);

    let mut nm = NodeMap::new();
    let mut counters = DiscoCounters::default();
    let src = SendAddr::Udp(v4(4, 44));
    match handle_disco_message(&mut nm, &mut counters, &b_secret, &sender, &sealed, &src, 5) {
        DiscoEvent::Ping { pong, .. } => {
            let pong = pong.expect("a first ping gets a pong");
            match pong {
                DiscoMessage::Pong { tx_id, ping_observed_addr } => {
                    assert_eq!(tx_id, vec![3; 12]);
                    match ping_observed_addr {
                        SendAddr::Udp(a) => assert_eq!(a, v4(4, 44)),
                        _ => panic!("observed address must echo the source"),
                    }
                }
                _ => panic!("expected a pong"),
            }
        }
        _ => panic!("expected a ping event"),
    }
    assert_eq!(counters.recv_disco_ping, 1);
    assert_eq!(counters.recv_disco_udp, 1);

    // a box sealed for somebody else does not open
    let c_secret = vec![0x88u8; 32];
    let c_public = derive_public(&c_secret);
    let sealed_other = seal_message(&a_secret, &c_public, &ping);
    match handle_disco_message(&mut nm, &mut counters, &b_secret, &sender, &sealed_other, &src, 6) {
        DiscoEvent::BadKey => {}
        _ => panic!("a foreign box must not open"),
    }
    assert_eq!(counters.recv_disco_bad_key, 1);
}

#[test]
fn test_disco_pong_confirms_pending_ping() {
    let a_secret = vec![0x12u8; 32];
    let b_secret = vec![0x34u8; 32];
    let a_public = derive_public(&a_secret);
    let b_public = derive_public(&b_secret);
    let sender = NodeKey::from_bytes(a_public);

    let mut nm = NodeMap::new();
    let mut counters = DiscoCounters::default();
    let src = SendAddr::Udp(v4(6, 66));

    // an unsolicited pong confirms nothing
    let pong = DiscoMessage::Pong { tx_id: vec![5; 12], ping_observed_addr: src.duplicate() };
    let sealed = seal_message(&a_secret, &b_public, &pong);
    match handle_disco_message(&mut nm, &mut counters, &b_secret, &sender, &sealed, &src, 10) {
        DiscoEvent::Pong { confirmed, ping_back } => {
            assert!(!confirmed);
            assert!(ping_back.is_none());
        }
        _ => panic!("expected a pong event"),
    }

    // after a ping went out, its pong confirms the path
    nm.note_ping_sent(&sender, v4(6, 66), vec![5; 12], 20);
    let sealed = seal_message(&a_secret, &b_public, &pong);
    match handle_disco_message(&mut nm, &mut counters, &b_secret, &sender, &sealed, &src, 30) {
        DiscoEvent::Pong { confirmed, .. } => assert!(confirmed),
        _ => panic!("expected a pong event"),
    }
    assert_eq!(counters.recv_disco_pong, 2);
}

#[test]
fn test_pending_call_me_maybes_queue() {
    let mut q = PendingCallMeMaybes::new();
    q.queue(key(1), RelayUrl::from_bytes(b"https://a".to_vec()));
    q.queue(key(2), RelayUrl::from_bytes(b"https://a".to_vec()));
    // a later request for the same peer replaces the earlier one
    q.queue(key(1), RelayUrl::from_bytes(b"https://b".to_vec()));
    let drained = q.drain();
    assert_eq!(drained.len(), 2);
    let for_one: Vec<_> = drained
        .iter()
        .filter(|(n, _)| n.as_bytes() == key(1).as_bytes())
        .collect();
    assert_eq!(for_one.len(), 1);
    assert_eq!(for_one[0].1.as_bytes(), &b"https://b".to_vec());
    // draining empties the queue
    assert_eq!(q.drain().len(), 0);
}

#[test]
fn test_endpoint_sets_equal_ignores_order() {
    let a = vec![da(1, 1, DirectAddrType::Stun), da(2, 2, DirectAddrType::Local)];
    let b = vec![da(2, 2, DirectAddrType::Local), da(1, 1, DirectAddrType::Stun)];
    assert!(endpoint_sets_equal(&a, &b));
    // multiplicity matters
    let c = vec![da(1, 1, DirectAddrType::Stun), da(1, 1, DirectAddrType::Stun)];
    let d = vec![da(1, 1, DirectAddrType::Stun)];
    assert!(!endpoint_sets_equal(&c, &d));
    // the origin is part of the value
    let e = vec![da(1, 1, DirectAddrType::Local)];
    assert!(!endpoint_sets_equal(&d, &e));
    assert!(endpoint_sets_equal(&Vec::new(), &Vec::new()));

    let x = DiscoveredDirectAddrs::new(a, 0);
    let y = DiscoveredDirectAddrs::new(b, 999);
    assert!(x == y);
}

#[test]
fn test_fresh_enough_window() {
    let set = DiscoveredDirectAddrs::new(vec![da(1, 1, DirectAddrType::Local)], 1000);
    assert!(set.fresh_enough(1000 + ENDPOINTS_FRESH_ENOUGH_MS));
    assert!(!set.fresh_enough(1000 + ENDPOINTS_FRESH_ENOUGH_MS + 1));
    let never = DiscoveredDirectAddrs::empty();
    assert!(!never.fresh_enough(5000));
}

#[test]
fn test_assemble_direct_addrs_priority_and_dedup() {
    let stun = v4(100, 1000);
    let portmapped = v4(100, 1000);  // same as STUN: the STUN entry wins
    let local = v4(10, 2000);
    let stun4 = stun4_local_candidate(Some(stun), Some(true), 7777);
    assert_eq!(stun4, Some(IpPort { ip: stun.ip, port: 7777 }));
    let r = assemble_direct_addrs(Some(stun), None, Some(portmapped), stun4, &vec![local]);
    assert_eq!(
        r,
        vec![
            DirectAddr { addr: stun, typ: DirectAddrType::Stun },
            DirectAddr { addr: IpPort { ip: stun.ip, port: 7777 }, typ: DirectAddrType::Stun4LocalPort },
            DirectAddr { addr: local, typ: DirectAddrType::Local },
        ]
    );
    // no mapping variance, no fixed port: no hard-NAT guess
    assert_eq!(stun4_local_candidate(Some(stun), Some(false), 7777), None);
    assert_eq!(stun4_local_candidate(Some(stun), Some(true), 0), None);
}

#[test]
fn test_interface_candidates_and_loopback() {
    let ips = vec![IpAddress::V4(1), IpAddress::V6(2), IpAddress::V4(3)];
    let r = interface_addr_candidates(&ips, Some(10), Some(20));
    assert_eq!(
        r,
        vec![
            IpPort { ip: IpAddress::V4(1), port: 10 },
            IpPort { ip: IpAddress::V6(2), port: 20 },
            IpPort { ip: IpAddress::V4(3), port: 10 },
        ]
    );
    // no IPv6 socket: IPv6 interfaces are skipped
    let r = interface_addr_candidates(&ips, Some(10), None);
    assert_eq!(r.len(), 2);
    assert!(include_loopback(true, true));
    assert!(!include_loopback(false, true));
}

#[test]
fn test_update_state_coalesces() {
    let mut s = DirectAddrUpdateState::new();
    assert!(!s.is_running());
    // the first trigger starts at once
    assert!(s.schedule_run(UpdateReason::Periodic));
    assert!(s.is_running());
    // triggers during the run start nothing, the latest is remembered
    assert!(!s.schedule_run(UpdateReason::LinkChangeMinor));
    assert!(!s.schedule_run(UpdateReason::RefreshForPeering));
    assert!(s.is_running());
    // completion starts exactly one coalesced run, with the latest reason
    assert_eq!(s.finish_run(), Some(UpdateReason::RefreshForPeering));
    assert!(s.is_running());
    // and only one
    assert_eq!(s.finish_run(), None);
    assert!(!s.is_running());
}

#[test]
fn test_rpc_lock_lifecycle() {
    let mut lock = RpcLock::new();
    assert_eq!(lock.status, RpcStatus::Stopped);
    // first start claims the directory
    assert_eq!(lock.start(4919), Ok(()));
    assert_eq!(lock.status, RpcStatus::Running { port: 4919 });
    // a second start fails and leaves the sentinel alone
    let err = lock.start(5000).unwrap_err();
    assert_eq!(err.port(), 4919);
    assert_eq!(lock.status, RpcStatus::Running { port: 4919 });
    // a clean shutdown removes it
    lock.clean_shutdown();
    assert_eq!(lock.status, RpcStatus::Stopped);

    assert!(should_clear_rpc(&CommandOutcome::Success));
    assert!(should_clear_rpc(&CommandOutcome::OtherError));
    assert!(!should_clear_rpc(&CommandOutcome::AlreadyRunning { port: 4919 }));
    assert_ne!(RunType::SingleCommandAbortable, RunType::UntilStopped);
}

#[test]
fn test_local_addr_and_segment_composition() {
    let bound_v4 = v4(0x7f000001, 5000);
    let bound_v6 = IpPort { ip: IpAddress::V6(0x1), port: 5001 };
    assert_eq!(normalized_local_addr(bound_v4, Some(bound_v6)), bound_v6);
    let mapped = normalized_local_addr(bound_v4, None);
    assert_eq!(mapped.port, 5000);
    assert_eq!(mapped.ip, IpAddress::V6(0xffff_0000_0000u128 + 0x7f000001));

    assert_eq!(max_transmit_segments(8, Some(4)), 4);
    assert_eq!(max_transmit_segments(8, None), 8);
    assert_eq!(max_receive_segments(8, Some(16)), 16);
    assert!(may_fragment(false, Some(true)));
    assert!(!may_fragment(false, Some(false)));

    assert_eq!(derive_ipv6_port(5000), 5001);
    assert_eq!(derive_ipv6_port(65535), 65534);
}

#[test]
fn test_pick_relay_fallback() {
    let current = Some(RelayUrl::from_bytes(b"https://home".to_vec()));
    let urls = vec![
        RelayUrl::from_bytes(b"https://a".to_vec()),
        RelayUrl::from_bytes(b"https://b".to_vec()),
    ];
    let r = pick_relay_fallback(&current, &urls).unwrap();
    assert_eq!(r.as_bytes(), &b"https://home".to_vec());
    let r = pick_relay_fallback(&None, &urls).unwrap();
    assert_eq!(r.as_bytes(), &b"https://a".to_vec());
    assert!(pick_relay_fallback(&None, &Vec::new()).is_none());
}

#[test]
fn test_net_info_basically_equal() {
    let base = NetInfo {
        mapping_varies_by_dest_ip: Some(false),
        hair_pinning: Some(true),
        working_ipv6: Some(false),
        os_has_ipv6: Some(true),
        working_udp: Some(true),
        working_icmp_v4: None,
        working_icmp_v6: None,
        have_port_map: false,
        portmap_probe: Some(ProbeOutput { upnp: false, pcp: false, nat_pmp: true }),
        preferred_relay: Some(RelayUrl::from_bytes(b"https://r".to_vec())),
    };
    let same = NetInfo {
        working_icmp_v4: Some(true),  // only one side checked: ignored
        preferred_relay: Some(RelayUrl::from_bytes(b"https://r".to_vec())),
        portmap_probe: Some(ProbeOutput { upnp: false, pcp: false, nat_pmp: true }),
        ..copy_net_info(&base)
    };
    assert!(base.basically_equal(&same));
    let different = NetInfo { working_udp: Some(false), ..copy_net_info(&base) };
    assert!(!base.basically_equal(&different));
    let other_relay = NetInfo {
        preferred_relay: Some(RelayUrl::from_bytes(b"https://s".to_vec())),
        ..copy_net_info(&base)
    };
    assert!(!base.basically_equal(&other_relay));
}

fn copy_net_info(n: &NetInfo) -> NetInfo {
    NetInfo {
        mapping_varies_by_dest_ip: n.mapping_varies_by_dest_ip,
        hair_pinning: n.hair_pinning,
        working_ipv6: n.working_ipv6,
        os_has_ipv6: n.os_has_ipv6,
        working_udp: n.working_udp,
        working_icmp_v4: n.working_icmp_v4,
        working_icmp_v6: n.working_icmp_v6,
        have_port_map: n.have_port_map,
        portmap_probe: n.portmap_probe,
        preferred_relay: n.preferred_relay.as_ref().map(|u| u.duplicate()),
    }
}
